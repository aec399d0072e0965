//! The values the language server keeps about a document: positions and
//! ranges in it, and the functions, macros and variables that it defines.
use vstd::prelude::*;
use crate::text::string_views;
use crate::syntax::str_eq;

verus! {

/// A position in a document: zero-based line and character offset.
#[derive(Clone, Copy, Debug, PartialEq, Eq, Structural)]
pub struct Position {
    pub line: u32,
    pub character: u32,
}

/// A range in a document, from `start` up to (not including) `end`.
#[derive(Clone, Copy, Debug, PartialEq, Eq, Structural)]
pub struct Range {
    pub start: Position,
    pub end: Position,
}

/// A range in the document that `uri` names.
#[derive(Debug)]
pub struct Location {
    pub uri: String,
    pub range: Range,
}

/// A function that a document defines.
#[derive(Debug)]
pub struct UserFunction {
    pub name: String,
    pub parameters: Vec<String>,
    pub definition: Location,
    pub body_range: Option<Range>,
    pub documentation: Option<String>,
}

/// A macro that a document defines.
#[derive(Debug)]
pub struct UserMacro {
    pub name: String,
    pub parameters: Vec<String>,
    pub definition: Location,
    pub body_range: Option<Range>,
    pub documentation: Option<String>,
    pub has_placeholder: bool,
}

/// The data types of the language.
#[derive(Clone, Copy, Debug, PartialEq, Eq, Structural)]
pub enum DataTypes {
    Int8,
    Int16,
    Int32,
    Uint8,
    Uint16,
    Byte,
    Char,
    String,
    Image,
    Ps5adt,
}

/// Whether a variable may be assigned to.
#[derive(Clone, Copy, Debug, PartialEq, Eq, Structural)]
pub enum Mutability {
    Mutable,
    Immutable,
}

/// How a variable was declared.
#[derive(Clone, Copy, Debug, PartialEq, Eq, Structural)]
pub struct VarType {
    pub mutability: Mutability,
    /// 0 = not an array, 1 = 1D array, 2 = 2D array, etc.
    pub array_dims: u8,
}

/// What kind of declaration introduced a variable.
#[derive(Clone, Copy, Debug, PartialEq, Eq, Structural)]
pub enum VariableKind {
    Regular,
    Define,
    EnumMember,
}

/// A variable, `define` or enum member that a document declares.
#[derive(Debug)]
pub struct UserVariable {
    pub name: String,
    pub data_type: Option<DataTypes>,
    pub var_type: Option<VarType>,
    pub kind: VariableKind,
    pub definition: Location,
    pub documentation: Option<String>,
}

/// The experimental features that can be switched on.
#[derive(Clone, Copy, Debug, PartialEq, Eq, Structural)]
pub struct Features {
    pub imports: bool,
    pub macros: bool,
    pub code_lens: bool,
}

/// What `str::to_lowercase` gives for a text (Unicode lowercase mapping).
pub uninterp spec fn unicode_lowercase(s: Seq<char>) -> Seq<char>;

/// `str::to_lowercase`; its result is named, not stated.
#[verifier::external_body]
fn to_lowercase(s: &str) -> (r: String)
    ensures
        r@ == unicode_lowercase(s@),
{
    s.to_lowercase()
}

/// `f` with the feature named `name` switched on; other names change
/// nothing.
pub open spec fn with_feature(f: Features, name: Seq<char>) -> Features {
    if name == "imports"@ {
        Features { imports: true, macros: f.macros, code_lens: f.code_lens }
    } else if name == "macros"@ {
        Features { imports: f.imports, macros: true, code_lens: f.code_lens }
    } else if name == "code_lens"@ {
        Features { imports: f.imports, macros: f.macros, code_lens: true }
    } else {
        f
    }
}

/// The features named in `names[i..]` (in lowercase) switched on in `acc`;
/// every feature once `all` is named.
pub open spec fn features_from(names: Seq<Seq<char>>, i: int, acc: Features) -> Features
    decreases names.len() - i,
{
    if i < 0 || i >= names.len() {
        acc
    } else if unicode_lowercase(names[i]) == "all"@ {
        Features { imports: true, macros: true, code_lens: true }
    } else {
        features_from(names, i + 1, with_feature(acc, unicode_lowercase(names[i])))
    }
}

impl Features {
    /// No experimental feature.
    pub fn none() -> (r: Features)
        ensures
            r == (Features { imports: false, macros: false, code_lens: false }),
    {
        Features { imports: false, macros: false, code_lens: false }
    }

    /// Every experimental feature.
    pub fn all() -> (r: Features)
        ensures
            r == (Features { imports: true, macros: true, code_lens: true }),
    {
        Features { imports: true, macros: true, code_lens: true }
    }

    /// The features named in `list`, case-insensitively: `imports`,
    /// `macros`, `code_lens`, or `all` for every one; other names are
    /// ignored.
    pub fn from_list(list: Vec<String>) -> (r: Features)
        ensures
            r == features_from(string_views(list@), 0, Features { imports: false, macros: false, code_lens: false }),
    {
        let ghost names = string_views(list@);
        let mut features = Features::none();
        let mut i: usize = 0;
        while i < list.len()
            invariant
                names == string_views(list@),
                i <= list.len(),
                features_from(names, 0, Features { imports: false, macros: false, code_lens: false })
                    == features_from(names, i as int, features),
            decreases list.len() - i,
        {
            assert(names[i as int] == list@[i as int]@);
            let l = to_lowercase(list[i].as_str());
            if str_eq(l.as_str(), "all") {
                return Features::all();
            }
            if str_eq(l.as_str(), "imports") {
                features.imports = true;
            } else if str_eq(l.as_str(), "macros") {
                features.macros = true;
            } else if str_eq(l.as_str(), "code_lens") {
                features.code_lens = true;
            }
            i = i + 1;
        }
        features
    }
}

/// What the server holds for one open document: its text, the symbols it
/// defines and those it imports.
#[derive(Debug)]
pub struct DocumentState {
    pub uri: String,
    pub text: String,
    pub functions: Vec<UserFunction>,
    pub macros: Vec<UserMacro>,
    pub variables: Vec<UserVariable>,
    pub imported_functions: Vec<UserFunction>,
    pub imported_macros: Vec<UserMacro>,
    pub imported_variables: Vec<UserVariable>,
}

/// The contents of a [`UserFunction`].
pub struct FunctionView {
    pub name: Seq<char>,
    pub parameters: Seq<Seq<char>>,
    pub uri: Seq<char>,
    pub range: Range,
    pub body_range: Option<Range>,
    pub documentation: Option<Seq<char>>,
}

/// The contents of a [`UserMacro`].
pub struct MacroView {
    pub name: Seq<char>,
    pub parameters: Seq<Seq<char>>,
    pub uri: Seq<char>,
    pub range: Range,
    pub body_range: Option<Range>,
    pub documentation: Option<Seq<char>>,
    pub has_placeholder: bool,
}

/// The contents of a [`UserVariable`].
pub struct VariableView {
    pub name: Seq<char>,
    pub data_type: Option<DataTypes>,
    pub var_type: Option<VarType>,
    pub kind: VariableKind,
    pub uri: Seq<char>,
    pub range: Range,
    pub documentation: Option<Seq<char>>,
}

/// The characters of an optional string.
pub open spec fn opt_view(s: Option<String>) -> Option<Seq<char>> {
    match s {
        Some(t) => Some(t@),
        None => None,
    }
}

impl View for UserFunction {
    type V = FunctionView;

    open spec fn view(&self) -> FunctionView {
        FunctionView {
            name: self.name@,
            parameters: self.parameters@.map_values(|p: String| p@),
            uri: self.definition.uri@,
            range: self.definition.range,
            body_range: self.body_range,
            documentation: opt_view(self.documentation),
        }
    }
}

impl View for UserMacro {
    type V = MacroView;

    open spec fn view(&self) -> MacroView {
        MacroView {
            name: self.name@,
            parameters: self.parameters@.map_values(|p: String| p@),
            uri: self.definition.uri@,
            range: self.definition.range,
            body_range: self.body_range,
            documentation: opt_view(self.documentation),
            has_placeholder: self.has_placeholder,
        }
    }
}

impl View for UserVariable {
    type V = VariableView;

    open spec fn view(&self) -> VariableView {
        VariableView {
            name: self.name@,
            data_type: self.data_type,
            var_type: self.var_type,
            kind: self.kind,
            uri: self.definition.uri@,
            range: self.definition.range,
            documentation: opt_view(self.documentation),
        }
    }
}

proof fn lemma_features_grow(names: Seq<Seq<char>>, i: int, acc: Features)
    ensures
        acc.imports ==> features_from(names, i, acc).imports,
        acc.macros ==> features_from(names, i, acc).macros,
        acc.code_lens ==> features_from(names, i, acc).code_lens,
    decreases names.len() - i,
{
    if 0 <= i < names.len() && unicode_lowercase(names[i]) != "all"@ {
        lemma_features_grow(names, i + 1, with_feature(acc, unicode_lowercase(names[i])));
    }
}

proof fn lemma_features_named(names: Seq<Seq<char>>, i: int, acc: Features, j: int)
    requires
        0 <= i <= j < names.len(),
    ensures
        unicode_lowercase(names[j]) == "all"@ ==> features_from(names, i, acc) == (Features { imports: true, macros: true, code_lens: true }),
        unicode_lowercase(names[j]) == "imports"@ ==> features_from(names, i, acc).imports,
        unicode_lowercase(names[j]) == "macros"@ ==> features_from(names, i, acc).macros,
        unicode_lowercase(names[j]) == "code_lens"@ ==> features_from(names, i, acc).code_lens,
    decreases j - i,
{
    reveal_strlit("imports");
    reveal_strlit("macros");
    reveal_strlit("code_lens");
    reveal_strlit("all");
    assert("macros"@.len() == 6 && "imports"@.len() == 7 && "code_lens"@.len() == 9);
    assert("macros"@ != "imports"@ && "code_lens"@ != "imports"@ && "code_lens"@ != "macros"@);
    if unicode_lowercase(names[i]) != "all"@ {
        let next = with_feature(acc, unicode_lowercase(names[i]));
        if i < j {
            lemma_features_named(names, i + 1, next, j);
        } else {
            lemma_features_grow(names, i + 1, next);
        }
    }
}

/// Every feature named in the list is switched on, whatever the case of
/// its name; naming `all` switches on every feature.
pub proof fn law_named_features_are_on(names: Seq<Seq<char>>, j: int)
    requires
        0 <= j < names.len(),
    ensures
        ({
            let f = features_from(names, 0, Features { imports: false, macros: false, code_lens: false });
            &&& unicode_lowercase(names[j]) == "all"@ ==> f == (Features { imports: true, macros: true, code_lens: true })
            &&& unicode_lowercase(names[j]) == "imports"@ ==> f.imports
            &&& unicode_lowercase(names[j]) == "macros"@ ==> f.macros
            &&& unicode_lowercase(names[j]) == "code_lens"@ ==> f.code_lens
        }),
{
    lemma_features_named(names, 0, Features { imports: false, macros: false, code_lens: false }, j);
}

/// A feature is switched on only where the list names it or `all`.
pub proof fn law_unnamed_features_are_off(names: Seq<Seq<char>>)
    ensures
        ({
            let f = features_from(names, 0, Features { imports: false, macros: false, code_lens: false });
            let named = |w: Seq<char>| exists|j: int| 0 <= j < names.len() && (#[trigger] unicode_lowercase(names[j]) == w || unicode_lowercase(names[j]) == "all"@);
            &&& f.imports ==> named("imports"@)
            &&& f.macros ==> named("macros"@)
            &&& f.code_lens ==> named("code_lens"@)
        }),
{
    lemma_features_only_named(names, 0, Features { imports: false, macros: false, code_lens: false });
}

proof fn lemma_features_only_named(names: Seq<Seq<char>>, i: int, acc: Features)
    requires
        0 <= i,
    ensures
        ({
            let f = features_from(names, i, acc);
            let named = |w: Seq<char>| exists|j: int| i <= j < names.len() && (#[trigger] unicode_lowercase(names[j]) == w || unicode_lowercase(names[j]) == "all"@);
            &&& f.imports ==> acc.imports || named("imports"@)
            &&& f.macros ==> acc.macros || named("macros"@)
            &&& f.code_lens ==> acc.code_lens || named("code_lens"@)
        }),
    decreases names.len() - i,
{
    if i < names.len() {
        let l = unicode_lowercase(names[i]);
        if l != "all"@ {
            lemma_features_only_named(names, i + 1, with_feature(acc, l));
        }
    }
}

} // verus!
