//! What the language server reads off a parsed GPC document: the functions,
//! macros and variables it defines, its imports, assignments, calls and
//! variable references, and its syntax errors.
use vstd::prelude::*;
use vstd::utf8::encode_utf8;
use crate::types::{
    Position, Range, Location, UserFunction, UserMacro, UserVariable, DataTypes, Mutability,
    VarType, VariableKind, FunctionView, MacroView, VariableView,
};
use crate::syntax::{
    SyntaxNode, tree_ok, flagged, node_text, text_of, is_kind, child_of_kind, children_of_kind,
    get_child_by_kind, get_children_by_kind, kind_nodes, find_by_kind, node_views,
    lemma_kind_nodes_ok, str_eq,
};
use crate::doc_comments::{documentation_spec, documentation_before, contains_seq};
use crate::text::{chars_of, string_of};

verus! {

// ---------------------------------------------------------------------------
// Node positions and texts
// ---------------------------------------------------------------------------

/// The range of the source that a node covers.
pub open spec fn node_range(n: SyntaxNode) -> Range {
    Range {
        start: Position { line: n.start_row as u32, character: n.start_column as u32 },
        end: Position { line: n.end_row as u32, character: n.end_column as u32 },
    }
}

/// The range of the source that a node covers.
pub fn node_to_range(n: &SyntaxNode) -> (r: Range)
    ensures
        r == node_range(*n),
{
    Range {
        start: Position { line: n.start_row as u32, character: n.start_column as u32 },
        end: Position { line: n.end_row as u32, character: n.end_column as u32 },
    }
}

fn node_to_location(n: &SyntaxNode, uri: &str) -> (r: Location)
    ensures
        r.uri@ == uri@,
        r.range == node_range(*n),
{
    Location { uri: uri.to_owned(), range: node_to_range(n) }
}

/// The text of the first child of `n` of the given kind.
pub open spec fn child_text(n: SyntaxNode, kind: Seq<char>, source: Seq<char>) -> Option<Seq<char>> {
    match child_of_kind(n, kind) {
        Some(c) => node_text(c, source),
        None => None,
    }
}

/// The texts of `nodes[i..]` that are valid UTF-8, in order.
pub open spec fn texts_from(nodes: Seq<SyntaxNode>, source: Seq<char>, i: int) -> Seq<Seq<char>>
    decreases nodes.len() - i,
{
    if i < 0 || i >= nodes.len() {
        seq![]
    } else {
        (match node_text(nodes[i], source) {
            Some(t) => seq![t],
            None => seq![],
        }) + texts_from(nodes, source, i + 1)
    }
}

/// The parameter names of a declaration: the identifiers in its first
/// parameter list.
pub open spec fn parameters_of(n: SyntaxNode, source: Seq<char>) -> Seq<Seq<char>> {
    match child_of_kind(n, "parameter_list"@) {
        Some(pl) => texts_from(children_of_kind(pl, "identifier"@), source, 0),
        None => seq![],
    }
}

/// The range of a declaration's first block.
pub open spec fn body_range_of(n: SyntaxNode) -> Option<Range> {
    match child_of_kind(n, "block"@) {
        Some(b) => Some(node_range(b)),
        None => None,
    }
}

fn child_text_of(n: &SyntaxNode, kind: &str, source: &str) -> (r: Option<String>)
    requires
        tree_ok(*n, encode_utf8(source@).len() as int),
    ensures
        opt_chars(r) == child_text(*n, kind@, source@),
{
    match get_child_by_kind(n, kind) {
        Some(c) => {
            proof {
                let i = choose|i: int| 0 <= i < n.children@.len() && n.children@[i] == *c;
                assert(tree_ok(n.children@[i], encode_utf8(source@).len() as int));
            }
            text_of(c, source)
        },
        None => None,
    }
}

/// The characters of an optional string.
pub open spec fn opt_chars(s: Option<String>) -> Option<Seq<char>> {
    match s {
        Some(t) => Some(t@),
        None => None,
    }
}

/// The characters of a list of strings.
pub open spec fn strs(v: Seq<String>) -> Seq<Seq<char>> {
    v.map_values(|p: String| p@)
}

fn texts_of_nodes(nodes: &Vec<&SyntaxNode>, source: &str) -> (r: Vec<String>)
    requires
        forall|t: int| 0 <= t < nodes@.len() ==> tree_ok(*#[trigger] nodes@[t], encode_utf8(source@).len() as int),
    ensures
        strs(r@) == texts_from(node_views(nodes@), source@, 0),
{
    let ghost nv = node_views(nodes@);
    let mut out: Vec<String> = Vec::new();
    let mut i: usize = 0;
    while i < nodes.len()
        invariant
            nv == node_views(nodes@),
            nv.len() == nodes@.len(),
            i <= nodes.len(),
            forall|t: int| 0 <= t < nodes@.len() ==> tree_ok(*#[trigger] nodes@[t], encode_utf8(source@).len() as int),
            texts_from(nv, source@, 0) == strs(out@) + texts_from(nv, source@, i as int),
        decreases nodes.len() - i,
    {
        let ghost before = strs(out@);
        assert(nv[i as int] == *nodes@[i as int]);
        match text_of(nodes[i], source) {
            Some(t) => {
                out.push(t);
                assert(strs(out@) =~= before.push(t@));
            },
            None => {},
        }
        assert(strs(out@) + texts_from(nv, source@, i + 1) =~= before + texts_from(nv, source@, i as int));
        i = i + 1;
    }
    assert(strs(out@) + texts_from(nv, source@, i as int) =~= strs(out@));
    out
}

fn parameters_from(n: &SyntaxNode, source: &str) -> (r: Vec<String>)
    requires
        tree_ok(*n, encode_utf8(source@).len() as int),
    ensures
        strs(r@) == parameters_of(*n, source@),
{
    match get_child_by_kind(n, "parameter_list") {
        Some(pl) => {
            proof {
                let i = choose|i: int| 0 <= i < n.children@.len() && n.children@[i] == *pl;
                assert(tree_ok(n.children@[i], encode_utf8(source@).len() as int));
            }
            let ids = get_children_by_kind(pl, "identifier");
            proof {
                assert forall|t: int| 0 <= t < ids@.len() implies tree_ok(*#[trigger] ids@[t], encode_utf8(source@).len() as int) by {
                    let j = choose|j: int| 0 <= j < pl.children@.len() && pl.children@[j] == *ids@[t];
                    assert(tree_ok(pl.children@[j], encode_utf8(source@).len() as int));
                }
            }
            texts_of_nodes(&ids, source)
        },
        None => {
            let v: Vec<String> = Vec::new();
            assert(strs(v@) =~= Seq::<Seq<char>>::empty());
            v
        },
    }
}

fn body_range_from(n: &SyntaxNode) -> (r: Option<Range>)
    ensures
        r == body_range_of(*n),
{
    match get_child_by_kind(n, "block") {
        Some(b) => Some(node_to_range(b)),
        None => None,
    }
}

// ---------------------------------------------------------------------------
// Functions
// ---------------------------------------------------------------------------

/// What a function declaration defines, where it has a name.
pub open spec fn function_info(n: SyntaxNode, source: Seq<char>, uri: Seq<char>) -> Option<
    FunctionView,
> {
    match child_text(n, "identifier"@, source) {
        Some(name) => Some(
            FunctionView {
                name,
                parameters: parameters_of(n, source),
                uri,
                range: node_range(n),
                body_range: body_range_of(n),
                documentation: documentation_spec(n.start_row as int, source),
            },
        ),
        None => None,
    }
}

/// The functions that the declarations `decls[i..]` define: those without
/// error flags that have a name.
pub open spec fn functions_from(decls: Seq<SyntaxNode>, source: Seq<char>, uri: Seq<char>, i: int) -> Seq<
    FunctionView,
>
    decreases decls.len() - i,
{
    if i < 0 || i >= decls.len() {
        seq![]
    } else {
        (if flagged(decls[i]) {
            seq![]
        } else {
            match function_info(decls[i], source, uri) {
                Some(f) => seq![f],
                None => seq![],
            }
        }) + functions_from(decls, source, uri, i + 1)
    }
}

/// The functions a document defines, in the order of their declarations.
pub open spec fn user_functions_spec(root: SyntaxNode, source: Seq<char>, uri: Seq<char>) -> Seq<
    FunctionView,
> {
    functions_from(kind_nodes(root, "function_declaration"@), source, uri, 0)
}

/// The contents of a list of functions.
pub open spec fn function_views(v: Seq<UserFunction>) -> Seq<FunctionView> {
    v.map_values(|f: UserFunction| f@)
}

fn extract_function_info(n: &SyntaxNode, source: &str, uri: &str) -> (r: Option<UserFunction>)
    requires
        tree_ok(*n, encode_utf8(source@).len() as int),
    ensures
        match r {
            Some(f) => function_info(*n, source@, uri@) == Some(f@),
            None => function_info(*n, source@, uri@) is None,
        },
{
    let name = match child_text_of(n, "identifier", source) {
        Some(s) => s,
        None => return None,
    };
    let parameters = parameters_from(n, source);
    let body_range = body_range_from(n);
    let documentation = documentation_before(n.start_row, source);
    let f = UserFunction {
        name,
        parameters,
        definition: node_to_location(n, uri),
        body_range,
        documentation,
    };
    assert(f@ == function_info(*n, source@, uri@).unwrap());
    Some(f)
}

/// Extract all user-defined functions from a parsed document.
pub fn extract_user_functions(root: &SyntaxNode, source: &str, uri: &str) -> (r: Vec<UserFunction>)
    requires
        tree_ok(*root, encode_utf8(source@).len() as int),
    ensures
        function_views(r@) == user_functions_spec(*root, source@, uri@),
{
    let decls = find_by_kind(root, "function_declaration");
    let ghost dv = node_views(decls@);
    proof {
        lemma_kind_nodes_ok(*root, "function_declaration"@, encode_utf8(source@).len() as int);
    }
    let mut out: Vec<UserFunction> = Vec::new();
    let mut i: usize = 0;
    while i < decls.len()
        invariant
            dv == node_views(decls@),
            dv == kind_nodes(*root, "function_declaration"@),
            dv.len() == decls@.len(),
            i <= decls.len(),
            forall|t: int| 0 <= t < dv.len() ==> tree_ok(#[trigger] dv[t], encode_utf8(source@).len() as int),
            user_functions_spec(*root, source@, uri@) == function_views(out@) + functions_from(
                dv,
                source@,
                uri@,
                i as int,
            ),
        decreases decls.len() - i,
    {
        let d = decls[i];
        assert(dv[i as int] == *d);
        let ghost before = function_views(out@);
        if !(d.is_error || d.is_missing || d.has_error) {
            match extract_function_info(d, source, uri) {
                Some(f) => {
                    out.push(f);
                    assert(function_views(out@) =~= before.push(f@));
                },
                None => {},
            }
        }
        assert(function_views(out@) + functions_from(dv, source@, uri@, i + 1) =~= before
            + functions_from(dv, source@, uri@, i as int));
        i = i + 1;
    }
    assert(function_views(out@) + functions_from(dv, source@, uri@, i as int) =~= function_views(
        out@,
    ));
    out
}

// ---------------------------------------------------------------------------
// Macros
// ---------------------------------------------------------------------------

/// `%0`, the placeholder for a macro call's body.
pub open spec fn placeholder_mark() -> Seq<char> {
    seq!['%', '0']
}

/// Whether a macro declaration's first block holds the `%0` placeholder.
pub open spec fn has_placeholder_of(n: SyntaxNode, source: Seq<char>) -> bool {
    match child_of_kind(n, "block"@) {
        Some(b) => match node_text(b, source) {
            Some(t) => contains_seq(t, placeholder_mark()),
            None => false,
        },
        None => false,
    }
}

/// What a macro declaration defines, where it has a name.
pub open spec fn macro_info(n: SyntaxNode, source: Seq<char>, uri: Seq<char>) -> Option<MacroView> {
    match child_text(n, "identifier"@, source) {
        Some(name) => Some(
            MacroView {
                name,
                parameters: parameters_of(n, source),
                uri,
                range: node_range(n),
                body_range: body_range_of(n),
                documentation: documentation_spec(n.start_row as int, source),
                has_placeholder: has_placeholder_of(n, source),
            },
        ),
        None => None,
    }
}

/// The macros that the declarations `decls[i..]` define: those without
/// error flags that have a name.
pub open spec fn macros_from(decls: Seq<SyntaxNode>, source: Seq<char>, uri: Seq<char>, i: int) -> Seq<
    MacroView,
>
    decreases decls.len() - i,
{
    if i < 0 || i >= decls.len() {
        seq![]
    } else {
        (if flagged(decls[i]) {
            seq![]
        } else {
            match macro_info(decls[i], source, uri) {
                Some(m) => seq![m],
                None => seq![],
            }
        }) + macros_from(decls, source, uri, i + 1)
    }
}

/// The macros a document defines, in the order of their declarations.
pub open spec fn user_macros_spec(root: SyntaxNode, source: Seq<char>, uri: Seq<char>) -> Seq<MacroView> {
    macros_from(kind_nodes(root, "macro_declaration"@), source, uri, 0)
}

/// The contents of a list of macros.
pub open spec fn macro_views(v: Seq<UserMacro>) -> Seq<MacroView> {
    v.map_values(|m: UserMacro| m@)
}

fn placeholder_in(n: &SyntaxNode, source: &str) -> (r: bool)
    requires
        tree_ok(*n, encode_utf8(source@).len() as int),
    ensures
        r == has_placeholder_of(*n, source@),
{
    match get_child_by_kind(n, "block") {
        Some(b) => {
            proof {
                let i = choose|i: int| 0 <= i < n.children@.len() && n.children@[i] == *b;
                assert(tree_ok(n.children@[i], encode_utf8(source@).len() as int));
            }
            match text_of(b, source) {
                Some(t) => {
                    let chars = chars_of(t.as_str());
                    let mark = ['%', '0'];
                    assert(mark@ == placeholder_mark());
                    crate::doc_comments::contains_chars(&chars, mark.as_slice())
                },
                None => false,
            }
        },
        None => false,
    }
}

fn extract_macro_info(n: &SyntaxNode, source: &str, uri: &str) -> (r: Option<UserMacro>)
    requires
        tree_ok(*n, encode_utf8(source@).len() as int),
    ensures
        match r {
            Some(m) => macro_info(*n, source@, uri@) == Some(m@),
            None => macro_info(*n, source@, uri@) is None,
        },
{
    let name = match child_text_of(n, "identifier", source) {
        Some(s) => s,
        None => return None,
    };
    let parameters = parameters_from(n, source);
    let body_range = body_range_from(n);
    let has_placeholder = placeholder_in(n, source);
    let documentation = documentation_before(n.start_row, source);
    let m = UserMacro {
        name,
        parameters,
        definition: node_to_location(n, uri),
        body_range,
        documentation,
        has_placeholder,
    };
    assert(m@ == macro_info(*n, source@, uri@).unwrap());
    Some(m)
}

/// Extract all user-defined macros from a parsed document.
pub fn extract_user_macros(root: &SyntaxNode, source: &str, uri: &str) -> (r: Vec<UserMacro>)
    requires
        tree_ok(*root, encode_utf8(source@).len() as int),
    ensures
        macro_views(r@) == user_macros_spec(*root, source@, uri@),
{
    let decls = find_by_kind(root, "macro_declaration");
    let ghost dv = node_views(decls@);
    proof {
        lemma_kind_nodes_ok(*root, "macro_declaration"@, encode_utf8(source@).len() as int);
    }
    let mut out: Vec<UserMacro> = Vec::new();
    let mut i: usize = 0;
    while i < decls.len()
        invariant
            dv == node_views(decls@),
            dv == kind_nodes(*root, "macro_declaration"@),
            dv.len() == decls@.len(),
            i <= decls.len(),
            forall|t: int| 0 <= t < dv.len() ==> tree_ok(#[trigger] dv[t], encode_utf8(source@).len() as int),
            user_macros_spec(*root, source@, uri@) == macro_views(out@) + macros_from(
                dv,
                source@,
                uri@,
                i as int,
            ),
        decreases decls.len() - i,
    {
        let d = decls[i];
        assert(dv[i as int] == *d);
        let ghost before = macro_views(out@);
        if !(d.is_error || d.is_missing || d.has_error) {
            match extract_macro_info(d, source, uri) {
                Some(m) => {
                    out.push(m);
                    assert(macro_views(out@) =~= before.push(m@));
                },
                None => {},
            }
        }
        assert(macro_views(out@) + macros_from(dv, source@, uri@, i + 1) =~= before
            + macros_from(dv, source@, uri@, i as int));
        i = i + 1;
    }
    assert(macro_views(out@) + macros_from(dv, source@, uri@, i as int) =~= macro_views(out@));
    out
}

// ---------------------------------------------------------------------------
// Variables
// ---------------------------------------------------------------------------

/// The data type that a type name stands for.
pub open spec fn data_type_of(t: Seq<char>) -> Option<DataTypes> {
    if t == "int"@ {
        Some(DataTypes::Int32)
    } else if t == "int8"@ {
        Some(DataTypes::Int8)
    } else if t == "int16"@ {
        Some(DataTypes::Int16)
    } else if t == "uint8"@ {
        Some(DataTypes::Uint8)
    } else if t == "uint16"@ {
        Some(DataTypes::Uint16)
    } else if t == "byte"@ {
        Some(DataTypes::Byte)
    } else if t == "char"@ {
        Some(DataTypes::Char)
    } else if t == "string"@ {
        Some(DataTypes::String)
    } else if t == "image"@ {
        Some(DataTypes::Image)
    } else if t == "ps5adt"@ {
        Some(DataTypes::Ps5adt)
    } else {
        None
    }
}

/// The data type that a type name stands for.
pub fn parse_data_type(t: &str) -> (r: Option<DataTypes>)
    ensures
        r == data_type_of(t@),
{
    if str_eq(t, "int") {
        Some(DataTypes::Int32)
    } else if str_eq(t, "int8") {
        Some(DataTypes::Int8)
    } else if str_eq(t, "int16") {
        Some(DataTypes::Int16)
    } else if str_eq(t, "uint8") {
        Some(DataTypes::Uint8)
    } else if str_eq(t, "uint16") {
        Some(DataTypes::Uint16)
    } else if str_eq(t, "byte") {
        Some(DataTypes::Byte)
    } else if str_eq(t, "char") {
        Some(DataTypes::Char)
    } else if str_eq(t, "string") {
        Some(DataTypes::String)
    } else if str_eq(t, "image") {
        Some(DataTypes::Image)
    } else if str_eq(t, "ps5adt") {
        Some(DataTypes::Ps5adt)
    } else {
        None
    }
}

/// The data type named by a declaration's first `type` child.
pub open spec fn declared_type(n: SyntaxNode, source: Seq<char>) -> Option<DataTypes> {
    match child_text(n, "type"@, source) {
        Some(t) => data_type_of(t),
        None => None,
    }
}

/// The variables that the declarators `ds[i..]` of a declaration declare.
pub open spec fn declarators_from(
    ds: Seq<SyntaxNode>,
    source: Seq<char>,
    uri: Seq<char>,
    data_type: Option<DataTypes>,
    mutability: Mutability,
    i: int,
) -> Seq<VariableView>
    decreases ds.len() - i,
{
    if i < 0 || i >= ds.len() {
        seq![]
    } else {
        let d = ds[i];
        (match child_text(d, "identifier"@, source) {
            Some(name) => seq![
                VariableView {
                    name,
                    data_type,
                    var_type: Some(
                        VarType {
                            mutability,
                            array_dims: children_of_kind(d, "array_dimension"@).len() as u8,
                        },
                    ),
                    kind: VariableKind::Regular,
                    uri,
                    range: node_range(d),
                    documentation: documentation_spec(d.start_row as int, source),
                },
            ],
            None => seq![],
        }) + declarators_from(ds, source, uri, data_type, mutability, i + 1)
    }
}

/// The variables that a (const) variable declaration declares.
pub open spec fn declaration_vars(n: SyntaxNode, source: Seq<char>, uri: Seq<char>, mutability: Mutability) -> Seq<
    VariableView,
> {
    declarators_from(
        children_of_kind(n, "variable_declarator"@),
        source,
        uri,
        declared_type(n, source),
        mutability,
        0,
    )
}

/// The name a `define` declares, where it has one.
pub open spec fn define_var(n: SyntaxNode, source: Seq<char>, uri: Seq<char>) -> Option<VariableView> {
    match child_of_kind(n, "identifier"@) {
        Some(id) => match node_text(id, source) {
            Some(name) => Some(
                VariableView {
                    name,
                    data_type: Some(DataTypes::Int32),
                    var_type: Some(VarType { mutability: Mutability::Immutable, array_dims: 0 }),
                    kind: VariableKind::Define,
                    uri,
                    range: node_range(id),
                    documentation: documentation_spec(n.start_row as int, source),
                },
            ),
            None => None,
        },
        None => None,
    }
}

/// The members that the variants `vs[i..]` of an enum declare.
pub open spec fn variants_from(vs: Seq<SyntaxNode>, source: Seq<char>, uri: Seq<char>, i: int) -> Seq<
    VariableView,
>
    decreases vs.len() - i,
{
    if i < 0 || i >= vs.len() {
        seq![]
    } else {
        let v = vs[i];
        (match child_text(v, "identifier"@, source) {
            Some(name) => seq![
                VariableView {
                    name,
                    data_type: Some(DataTypes::Int32),
                    var_type: Some(VarType { mutability: Mutability::Immutable, array_dims: 0 }),
                    kind: VariableKind::EnumMember,
                    uri,
                    range: node_range(v),
                    documentation: documentation_spec(v.start_row as int, source),
                },
            ],
            None => seq![],
        }) + variants_from(vs, source, uri, i + 1)
    }
}

/// The members an enum declaration declares.
pub open spec fn enum_members(n: SyntaxNode, source: Seq<char>, uri: Seq<char>) -> Seq<VariableView> {
    match child_of_kind(n, "enum_variant_list"@) {
        Some(vl) => variants_from(children_of_kind(vl, "enum_variant"@), source, uri, 0),
        None => seq![],
    }
}

/// Which kind of declaration a list of variables comes from.
pub enum DeclarationKind {
    Variable,
    Constant,
    Define,
    Enum,
}

/// The variables one declaration declares.
pub open spec fn declared_by(n: SyntaxNode, source: Seq<char>, uri: Seq<char>, k: DeclarationKind) -> Seq<
    VariableView,
> {
    match k {
        DeclarationKind::Variable => declaration_vars(n, source, uri, Mutability::Mutable),
        DeclarationKind::Constant => declaration_vars(n, source, uri, Mutability::Immutable),
        DeclarationKind::Define => match define_var(n, source, uri) {
            Some(v) => seq![v],
            None => seq![],
        },
        DeclarationKind::Enum => enum_members(n, source, uri),
    }
}

/// The variables the declarations `decls[i..]` without error flags declare.
pub open spec fn declared_from(
    decls: Seq<SyntaxNode>,
    source: Seq<char>,
    uri: Seq<char>,
    k: DeclarationKind,
    i: int,
) -> Seq<VariableView>
    decreases decls.len() - i,
{
    if i < 0 || i >= decls.len() {
        seq![]
    } else {
        (if flagged(decls[i]) {
            seq![]
        } else {
            declared_by(decls[i], source, uri, k)
        }) + declared_from(decls, source, uri, k, i + 1)
    }
}

/// The variables a document declares: its variables, then its constants,
/// its defines and its enum members, each in the order of declaration.
pub open spec fn user_variables_spec(root: SyntaxNode, source: Seq<char>, uri: Seq<char>) -> Seq<VariableView> {
    declared_from(kind_nodes(root, "variable_declaration"@), source, uri, DeclarationKind::Variable, 0)
        + declared_from(kind_nodes(root, "const_variable_declaration"@), source, uri, DeclarationKind::Constant, 0)
        + declared_from(kind_nodes(root, "define_declaration"@), source, uri, DeclarationKind::Define, 0)
        + declared_from(kind_nodes(root, "enum_declaration"@), source, uri, DeclarationKind::Enum, 0)
}

/// The contents of a list of variables.
pub open spec fn variable_views(v: Seq<UserVariable>) -> Seq<VariableView> {
    v.map_values(|x: UserVariable| x@)
}

fn push_var(out: &mut Vec<UserVariable>, v: UserVariable)
    ensures
        variable_views(final(out)@) == variable_views(old(out)@).push(v@),
{
    let ghost before = variable_views(out@);
    out.push(v);
    assert(variable_views(out@) =~= before.push(v@));
}

fn declaration_variables(n: &SyntaxNode, source: &str, uri: &str, mutability: Mutability, out: &mut Vec<UserVariable>)
    requires
        tree_ok(*n, encode_utf8(source@).len() as int),
    ensures
        variable_views(final(out)@) == variable_views(old(out)@) + declaration_vars(*n, source@, uri@, mutability),
{
    let data_type = match child_text_of(n, "type", source) {
        Some(t) => parse_data_type(t.as_str()),
        None => None,
    };
    let ds = get_children_by_kind(n, "variable_declarator");
    let ghost dv = node_views(ds@);
    let ghost base = variable_views(out@);
    let mut i: usize = 0;
    while i < ds.len()
        invariant
            dv == node_views(ds@),
            dv == children_of_kind(*n, "variable_declarator"@),
            dv.len() == ds@.len(),
            tree_ok(*n, encode_utf8(source@).len() as int),
            forall|t: int| 0 <= t < ds@.len() ==> exists|j: int| 0 <= j < n.children@.len() && n.children@[j] == *#[trigger] ds@[t],
            data_type == declared_type(*n, source@),
            base == variable_views(old(out)@),
            i <= ds.len(),
            base + declarators_from(dv, source@, uri@, data_type, mutability, 0) == variable_views(out@)
                + declarators_from(dv, source@, uri@, data_type, mutability, i as int),
        decreases ds.len() - i,
    {
        let d = ds[i];
        assert(dv[i as int] == *d);
        proof {
            let j = choose|j: int| 0 <= j < n.children@.len() && n.children@[j] == *ds@[i as int];
            assert(tree_ok(n.children@[j], encode_utf8(source@).len() as int));
        }
        let ghost before = variable_views(out@);
        match child_text_of(d, "identifier", source) {
            Some(name) => {
                let dims = get_children_by_kind(d, "array_dimension").len() as u8;
                let documentation = documentation_before(d.start_row, source);
                let v = UserVariable {
                    name,
                    data_type,
                    var_type: Some(VarType { mutability, array_dims: dims }),
                    kind: VariableKind::Regular,
                    definition: node_to_location(d, uri),
                    documentation,
                };
                push_var(out, v);
            },
            None => {},
        }
        assert(variable_views(out@) + declarators_from(dv, source@, uri@, data_type, mutability, i + 1)
            =~= before + declarators_from(dv, source@, uri@, data_type, mutability, i as int));
        i = i + 1;
    }
    assert(variable_views(out@) + declarators_from(dv, source@, uri@, data_type, mutability, i as int)
        =~= variable_views(out@));
}

fn define_variable(n: &SyntaxNode, source: &str, uri: &str) -> (r: Option<UserVariable>)
    requires
        tree_ok(*n, encode_utf8(source@).len() as int),
    ensures
        match r {
            Some(v) => define_var(*n, source@, uri@) == Some(v@),
            None => define_var(*n, source@, uri@) is None,
        },
{
    let id = match get_child_by_kind(n, "identifier") {
        Some(c) => c,
        None => return None,
    };
    proof {
        let i = choose|i: int| 0 <= i < n.children@.len() && n.children@[i] == *id;
        assert(tree_ok(n.children@[i], encode_utf8(source@).len() as int));
    }
    let name = match text_of(id, source) {
        Some(t) => t,
        None => return None,
    };
    let documentation = documentation_before(n.start_row, source);
    let v = UserVariable {
        name,
        data_type: Some(DataTypes::Int32),
        var_type: Some(VarType { mutability: Mutability::Immutable, array_dims: 0 }),
        kind: VariableKind::Define,
        definition: node_to_location(id, uri),
        documentation,
    };
    assert(v@ == define_var(*n, source@, uri@).unwrap());
    Some(v)
}

fn enum_member_variables(n: &SyntaxNode, source: &str, uri: &str, out: &mut Vec<UserVariable>)
    requires
        tree_ok(*n, encode_utf8(source@).len() as int),
    ensures
        variable_views(final(out)@) == variable_views(old(out)@) + enum_members(*n, source@, uri@),
{
    let vl = match get_child_by_kind(n, "enum_variant_list") {
        Some(c) => c,
        None => {
            assert(variable_views(out@) =~= variable_views(out@) + enum_members(*n, source@, uri@));
            return ;
        },
    };
    proof {
        let i = choose|i: int| 0 <= i < n.children@.len() && n.children@[i] == *vl;
        assert(tree_ok(n.children@[i], encode_utf8(source@).len() as int));
    }
    let vs = get_children_by_kind(vl, "enum_variant");
    let ghost vv = node_views(vs@);
    let ghost base = variable_views(out@);
    let mut i: usize = 0;
    while i < vs.len()
        invariant
            vv == node_views(vs@),
            vv == children_of_kind(*vl, "enum_variant"@),
            child_of_kind(*n, "enum_variant_list"@) == Some(*vl),
            vv.len() == vs@.len(),
            tree_ok(*vl, encode_utf8(source@).len() as int),
            forall|t: int| 0 <= t < vs@.len() ==> exists|j: int| 0 <= j < vl.children@.len() && vl.children@[j] == *#[trigger] vs@[t],
            base == variable_views(old(out)@),
            i <= vs.len(),
            base + variants_from(vv, source@, uri@, 0) == variable_views(out@) + variants_from(vv, source@, uri@, i as int),
        decreases vs.len() - i,
    {
        let v = vs[i];
        assert(vv[i as int] == *v);
        proof {
            let j = choose|j: int| 0 <= j < vl.children@.len() && vl.children@[j] == *vs@[i as int];
            assert(tree_ok(vl.children@[j], encode_utf8(source@).len() as int));
        }
        let ghost before = variable_views(out@);
        match child_text_of(v, "identifier", source) {
            Some(name) => {
                let documentation = documentation_before(v.start_row, source);
                let var = UserVariable {
                    name,
                    data_type: Some(DataTypes::Int32),
                    var_type: Some(VarType { mutability: Mutability::Immutable, array_dims: 0 }),
                    kind: VariableKind::EnumMember,
                    definition: node_to_location(v, uri),
                    documentation,
                };
                push_var(out, var);
            },
            None => {},
        }
        assert(variable_views(out@) + variants_from(vv, source@, uri@, i + 1) =~= before + variants_from(vv, source@, uri@, i as int));
        i = i + 1;
    }
    assert(variable_views(out@) + variants_from(vv, source@, uri@, i as int) =~= variable_views(out@));
}

fn declared_variables(decls: &Vec<&SyntaxNode>, source: &str, uri: &str, k: DeclarationKind, out: &mut Vec<UserVariable>)
    requires
        forall|t: int| 0 <= t < decls@.len() ==> tree_ok(*#[trigger] decls@[t], encode_utf8(source@).len() as int),
    ensures
        variable_views(final(out)@) == variable_views(old(out)@) + declared_from(node_views(decls@), source@, uri@, k, 0),
{
    let ghost dv = node_views(decls@);
    let ghost base = variable_views(out@);
    let mut i: usize = 0;
    while i < decls.len()
        invariant
            dv == node_views(decls@),
            dv.len() == decls@.len(),
            forall|t: int| 0 <= t < decls@.len() ==> tree_ok(*#[trigger] decls@[t], encode_utf8(source@).len() as int),
            base == variable_views(old(out)@),
            i <= decls.len(),
            base + declared_from(dv, source@, uri@, k, 0) == variable_views(out@) + declared_from(dv, source@, uri@, k, i as int),
        decreases decls.len() - i,
    {
        let d = decls[i];
        assert(dv[i as int] == *d);
        let ghost before = variable_views(out@);
        if !(d.is_error || d.is_missing || d.has_error) {
            match k {
                DeclarationKind::Variable => declaration_variables(d, source, uri, Mutability::Mutable, out),
                DeclarationKind::Constant => declaration_variables(d, source, uri, Mutability::Immutable, out),
                DeclarationKind::Define => {
                    match define_variable(d, source, uri) {
                        Some(v) => push_var(out, v),
                        None => {},
                    }
                },
                DeclarationKind::Enum => enum_member_variables(d, source, uri, out),
            }
        }
        assert(variable_views(out@) + declared_from(dv, source@, uri@, k, i + 1) =~= before + declared_from(dv, source@, uri@, k, i as int));
        i = i + 1;
    }
    assert(variable_views(out@) + declared_from(dv, source@, uri@, k, i as int) =~= variable_views(out@));
}

/// Extract all variables, constants, defines and enum members that a
/// parsed document declares.
pub fn extract_user_variables(root: &SyntaxNode, source: &str, uri: &str) -> (r: Vec<UserVariable>)
    requires
        tree_ok(*root, encode_utf8(source@).len() as int),
    ensures
        variable_views(r@) == user_variables_spec(*root, source@, uri@),
{
    let mut out: Vec<UserVariable> = Vec::new();
    let ghost len = encode_utf8(source@).len() as int;
    assert(variable_views(out@) =~= Seq::<VariableView>::empty());
    let a = find_by_kind(root, "variable_declaration");
    proof {
        lemma_kind_nodes_ok(*root, "variable_declaration"@, len);
        assert forall|t: int| 0 <= t < a@.len() implies tree_ok(*#[trigger] a@[t], len) by {
            assert(node_views(a@)[t] == *a@[t]);
        }
    }
    declared_variables(&a, source, uri, DeclarationKind::Variable, &mut out);
    let b = find_by_kind(root, "const_variable_declaration");
    proof {
        lemma_kind_nodes_ok(*root, "const_variable_declaration"@, len);
        assert forall|t: int| 0 <= t < b@.len() implies tree_ok(*#[trigger] b@[t], len) by {
            assert(node_views(b@)[t] == *b@[t]);
        }
    }
    declared_variables(&b, source, uri, DeclarationKind::Constant, &mut out);
    let c = find_by_kind(root, "define_declaration");
    proof {
        lemma_kind_nodes_ok(*root, "define_declaration"@, len);
        assert forall|t: int| 0 <= t < c@.len() implies tree_ok(*#[trigger] c@[t], len) by {
            assert(node_views(c@)[t] == *c@[t]);
        }
    }
    declared_variables(&c, source, uri, DeclarationKind::Define, &mut out);
    let d = find_by_kind(root, "enum_declaration");
    proof {
        lemma_kind_nodes_ok(*root, "enum_declaration"@, len);
        assert forall|t: int| 0 <= t < d@.len() implies tree_ok(*#[trigger] d@[t], len) by {
            assert(node_views(d@)[t] == *d@[t]);
        }
    }
    declared_variables(&d, source, uri, DeclarationKind::Enum, &mut out);
    out
}

// ---------------------------------------------------------------------------
// Syntax errors
// ---------------------------------------------------------------------------

/// The syntax error that node `n` (with the given parent) stands for, if
/// any: an error node at its own start, a missing token at its parent's.
pub open spec fn node_error(n: SyntaxNode, parent: Option<SyntaxNode>, source: Seq<char>) -> Seq<
    (int, int, Seq<char>),
> {
    if n.is_error {
        seq![
            (
                n.start_row as int,
                n.start_column as int,
                match node_text(n, source) {
                    Some(t) => "Syntax error: unexpected '"@ + crate::text::trim_spec(t) + "'"@,
                    None => "Syntax error"@,
                },
            ),
        ]
    } else if n.is_missing {
        let pos = match parent {
            Some(p) => (p.start_row as int, p.start_column as int),
            None => (n.start_row as int, n.start_column as int),
        };
        seq![(pos.0, pos.1, "Missing '"@ + n.kind@ + "'."@)]
    } else {
        seq![]
    }
}

/// The syntax errors of the tree below and including `n`, in pre-order.
pub open spec fn errors_in(n: SyntaxNode, parent: Option<SyntaxNode>, source: Seq<char>) -> Seq<
    (int, int, Seq<char>),
>
    decreases n,
{
    node_error(n, parent, source) + errors_in_list(n.children@, n, source, 0)
}

/// The syntax errors of the trees `l[i..]`, children of `parent`.
pub open spec fn errors_in_list(l: Seq<SyntaxNode>, parent: SyntaxNode, source: Seq<char>, i: int) -> Seq<
    (int, int, Seq<char>),
>
    decreases l, l.len() - i,
{
    if i < 0 || i >= l.len() {
        seq![]
    } else {
        errors_in(l[i], Some(parent), source) + errors_in_list(l, parent, source, i + 1)
    }
}

/// The contents of a list of reported errors.
pub open spec fn error_views(v: Seq<(usize, usize, String)>) -> Seq<(int, int, Seq<char>)> {
    v.map_values(|e: (usize, usize, String)| (e.0 as int, e.1 as int, e.2@))
}

fn push_error(out: &mut Vec<(usize, usize, String)>, e: (usize, usize, String))
    ensures
        error_views(final(out)@) == error_views(old(out)@).push((e.0 as int, e.1 as int, e.2@)),
{
    let ghost before = error_views(out@);
    out.push(e);
    assert(error_views(out@) =~= before.push((e.0 as int, e.1 as int, e.2@)));
}

fn collect_errors(n: &SyntaxNode, parent: Option<&SyntaxNode>, source: &str, out: &mut Vec<(usize, usize, String)>)
    requires
        tree_ok(*n, encode_utf8(source@).len() as int),
    ensures
        error_views(final(out)@) == error_views(old(out)@) + errors_in(
            *n,
            match parent {
                Some(p) => Some(*p),
                None => None,
            },
            source@,
        ),
    decreases n,
{
    let ghost par = match parent {
        Some(p) => Some(*p),
        None => None,
    };
    let ghost base = error_views(out@);
    if n.is_error {
        let mut m = String::new();
        match text_of(n, source) {
            Some(t) => {
                let chars = chars_of(t.as_str());
                let trimmed = crate::text::trim_chars(&chars);
                let ts = string_of(&trimmed);
                crate::strings::push_str(&mut m, "Syntax error: unexpected '");
                crate::strings::push_str(&mut m, ts.as_str());
                crate::strings::push_str(&mut m, "'");
            },
            None => {
                crate::strings::push_str(&mut m, "Syntax error");
            },
        }
        push_error(out, (n.start_row, n.start_column, m));
    } else if n.is_missing {
        let (row, col) = match parent {
            Some(p) => (p.start_row, p.start_column),
            None => (n.start_row, n.start_column),
        };
        let mut m = String::new();
        crate::strings::push_str(&mut m, "Missing '");
        crate::strings::push_str(&mut m, n.kind.as_str());
        crate::strings::push_str(&mut m, "'.");
        push_error(out, (row, col, m));
    }
    assert(error_views(out@) =~= base + node_error(*n, par, source@));
    let ghost mid = error_views(out@);
    let mut i: usize = 0;
    while i < n.children.len()
        invariant
            i <= n.children.len(),
            tree_ok(*n, encode_utf8(source@).len() as int),
            mid + errors_in_list(n.children@, *n, source@, 0) == error_views(out@) + errors_in_list(
                n.children@,
                *n,
                source@,
                i as int,
            ),
        decreases n.children.len() - i,
    {
        let ghost before = error_views(out@);
        assert(tree_ok(n.children@[i as int], encode_utf8(source@).len() as int));
        collect_errors(&n.children[i], Some(n), source, out);
        assert(error_views(out@) + errors_in_list(n.children@, *n, source@, i + 1) =~= before
            + errors_in_list(n.children@, *n, source@, i as int));
        i = i + 1;
    }
    assert(error_views(out@) + errors_in_list(n.children@, *n, source@, i as int) =~= error_views(out@));
}

/// Find syntax errors in the parsed tree: (line, column, message) for each
/// error node and each missing token, in pre-order.
pub fn find_syntax_errors(root: &SyntaxNode, source: &str) -> (r: Vec<(usize, usize, String)>)
    requires
        tree_ok(*root, encode_utf8(source@).len() as int),
    ensures
        error_views(r@) == errors_in(*root, None, source@),
{
    let mut out: Vec<(usize, usize, String)> = Vec::new();
    assert(error_views(out@) =~= Seq::<(int, int, Seq<char>)>::empty());
    collect_errors(root, None, source, &mut out);
    out
}

// ---------------------------------------------------------------------------
// Assignments
// ---------------------------------------------------------------------------

/// The innermost object of an array access chain.
pub open spec fn array_base(n: SyntaxNode) -> SyntaxNode
    decreases n,
{
    if n.kind@ == "array_access"@ && n.children@.len() > 0 {
        let o = n.children@[0];
        if o.kind@ == "expression"@ && o.children@.len() > 0 {
            array_base(o.children@[0])
        } else {
            array_base(o)
        }
    } else {
        n
    }
}

/// The variable that the left side `n` of an assignment assigns to: a
/// plain identifier, or the identifier at the base of an array access.
pub open spec fn assignment_target(n: SyntaxNode, source: Seq<char>) -> Option<Seq<char>> {
    let target = if n.kind@ == "expression"@ {
        if n.children@.len() > 0 {
            Some(n.children@[0])
        } else {
            None
        }
    } else {
        Some(n)
    };
    match target {
        None => None,
        Some(t) => if t.kind@ == "identifier"@ {
            node_text(t, source)
        } else if t.kind@ == "array_access"@ {
            let b = array_base(t);
            if b.kind@ == "identifier"@ {
                node_text(b, source)
            } else {
                None
            }
        } else {
            None
        },
    }
}

proof fn lemma_array_base_ok(n: SyntaxNode, len: int)
    requires
        tree_ok(n, len),
    ensures
        tree_ok(array_base(n), len),
    decreases n,
{
    if n.kind@ == "array_access"@ && n.children@.len() > 0 {
        let o = n.children@[0];
        assert(tree_ok(o, len));
        if o.kind@ == "expression"@ && o.children@.len() > 0 {
            assert(tree_ok(o.children@[0], len));
            lemma_array_base_ok(o.children@[0], len);
        } else {
            lemma_array_base_ok(o, len);
        }
    }
}

fn find_array_base(n: &SyntaxNode) -> (r: &SyntaxNode)
    ensures
        *r == array_base(*n),
    decreases n,
{
    if is_kind(n, "array_access") && n.children.len() > 0 {
        let o = &n.children[0];
        if is_kind(o, "expression") && o.children.len() > 0 {
            find_array_base(&o.children[0])
        } else {
            find_array_base(o)
        }
    } else {
        n
    }
}

fn extract_assignment_target(n: &SyntaxNode, source: &str) -> (r: Option<String>)
    requires
        tree_ok(*n, encode_utf8(source@).len() as int),
    ensures
        opt_chars(r) == assignment_target(*n, source@),
{
    let target = if is_kind(n, "expression") {
        if n.children.len() > 0 {
            assert(tree_ok(n.children@[0], encode_utf8(source@).len() as int));
            &n.children[0]
        } else {
            return None;
        }
    } else {
        n
    };
    if is_kind(target, "identifier") {
        text_of(target, source)
    } else if is_kind(target, "array_access") {
        let b = find_array_base(target);
        proof {
            lemma_array_base_ok(*target, encode_utf8(source@).len() as int);
        }
        if is_kind(b, "identifier") {
            text_of(b, source)
        } else {
            None
        }
    } else {
        None
    }
}

/// The assignments among the statements `stmts[i..]`: those without error
/// flags whose first child is an expression with a target.
pub open spec fn assignments_from(stmts: Seq<SyntaxNode>, source: Seq<char>, i: int) -> Seq<
    (Seq<char>, int, int),
>
    decreases stmts.len() - i,
{
    if i < 0 || i >= stmts.len() {
        seq![]
    } else {
        let n = stmts[i];
        (if !flagged(n) && n.children@.len() > 0 && n.children@[0].kind@ == "expression"@ {
            match assignment_target(n.children@[0], source) {
                Some(name) => seq![
                    (name, n.children@[0].start_row as int, n.children@[0].start_column as int),
                ],
                None => seq![],
            }
        } else {
            seq![]
        }) + assignments_from(stmts, source, i + 1)
    }
}

/// The assignments of a document: (variable, line, column) of each
/// assignment statement, then of each assignment without a semicolon.
pub open spec fn assignments_spec(root: SyntaxNode, source: Seq<char>) -> Seq<(Seq<char>, int, int)> {
    assignments_from(kind_nodes(root, "assignment_statement"@), source, 0) + assignments_from(
        kind_nodes(root, "assignment_statement_no_semi"@),
        source,
        0,
    )
}

/// The contents of a list of (name, line, column) triples.
pub open spec fn triple_views(v: Seq<(String, usize, usize)>) -> Seq<(Seq<char>, int, int)> {
    v.map_values(|e: (String, usize, usize)| (e.0@, e.1 as int, e.2 as int))
}

fn push_triple(out: &mut Vec<(String, usize, usize)>, e: (String, usize, usize))
    ensures
        triple_views(final(out)@) == triple_views(old(out)@).push((e.0@, e.1 as int, e.2 as int)),
{
    let ghost before = triple_views(out@);
    out.push(e);
    assert(triple_views(out@) =~= before.push((e.0@, e.1 as int, e.2 as int)));
}

fn collect_assignments(stmts: &Vec<&SyntaxNode>, source: &str, out: &mut Vec<(String, usize, usize)>)
    requires
        forall|t: int| 0 <= t < stmts@.len() ==> tree_ok(*#[trigger] stmts@[t], encode_utf8(source@).len() as int),
    ensures
        triple_views(final(out)@) == triple_views(old(out)@) + assignments_from(node_views(stmts@), source@, 0),
{
    let ghost sv = node_views(stmts@);
    let ghost base = triple_views(out@);
    let mut i: usize = 0;
    while i < stmts.len()
        invariant
            sv == node_views(stmts@),
            sv.len() == stmts@.len(),
            forall|t: int| 0 <= t < stmts@.len() ==> tree_ok(*#[trigger] stmts@[t], encode_utf8(source@).len() as int),
            base == triple_views(old(out)@),
            i <= stmts.len(),
            base + assignments_from(sv, source@, 0) == triple_views(out@) + assignments_from(sv, source@, i as int),
        decreases stmts.len() - i,
    {
        let n = stmts[i];
        assert(sv[i as int] == *n);
        let ghost before = triple_views(out@);
        if !(n.is_error || n.is_missing || n.has_error) && n.children.len() > 0 {
            let left = &n.children[0];
            assert(tree_ok(n.children@[0], encode_utf8(source@).len() as int));
            if is_kind(left, "expression") {
                match extract_assignment_target(left, source) {
                    Some(name) => push_triple(out, (name, left.start_row, left.start_column)),
                    None => {},
                }
            }
        }
        assert(triple_views(out@) + assignments_from(sv, source@, i + 1) =~= before + assignments_from(sv, source@, i as int));
        i = i + 1;
    }
    assert(triple_views(out@) + assignments_from(sv, source@, i as int) =~= triple_views(out@));
}

fn nodes_ok<'a>(root: &'a SyntaxNode, kind: &str, source: &str) -> (r: Vec<&'a SyntaxNode>)
    requires
        tree_ok(*root, encode_utf8(source@).len() as int),
    ensures
        node_views(r@) == kind_nodes(*root, kind@),
        forall|t: int| 0 <= t < r@.len() ==> tree_ok(*#[trigger] r@[t], encode_utf8(source@).len() as int),
{
    let r = find_by_kind(root, kind);
    proof {
        lemma_kind_nodes_ok(*root, kind@, encode_utf8(source@).len() as int);
        assert forall|t: int| 0 <= t < r@.len() implies tree_ok(*#[trigger] r@[t], encode_utf8(source@).len() as int) by {
            assert(node_views(r@)[t] == *r@[t]);
        }
    }
    r
}

/// The assignments of a parsed document: (variable, line, column) of the
/// left side of each assignment statement.
pub fn find_assignments(root: &SyntaxNode, source: &str) -> (r: Vec<(String, usize, usize)>)
    requires
        tree_ok(*root, encode_utf8(source@).len() as int),
    ensures
        triple_views(r@) == assignments_spec(*root, source@),
{
    let mut out: Vec<(String, usize, usize)> = Vec::new();
    assert(triple_views(out@) =~= Seq::<(Seq<char>, int, int)>::empty());
    let a = nodes_ok(root, "assignment_statement", source);
    collect_assignments(&a, source, &mut out);
    let b = nodes_ok(root, "assignment_statement_no_semi", source);
    collect_assignments(&b, source, &mut out);
    out
}

// ---------------------------------------------------------------------------
// Function calls
// ---------------------------------------------------------------------------

/// Where the name of each macro call among `calls[i..]` starts.
pub open spec fn macro_name_positions(calls: Seq<SyntaxNode>, i: int) -> Seq<(int, int)>
    decreases calls.len() - i,
{
    if i < 0 || i >= calls.len() {
        seq![]
    } else {
        (if calls[i].children@.len() > 0 {
            seq![(calls[i].children@[0].start_row as int, calls[i].children@[0].start_column as int)]
        } else {
            seq![]
        }) + macro_name_positions(calls, i + 1)
    }
}

/// The number of arguments of a call: the expressions in its first
/// argument list.
pub open spec fn arg_count(n: SyntaxNode) -> int {
    match child_of_kind(n, "argument_list"@) {
        Some(al) => children_of_kind(al, "expression"@).len() as int,
        None => 0,
    }
}

/// The node that names the function of a call expression.
pub open spec fn callee_of(n: SyntaxNode) -> Option<SyntaxNode> {
    if n.children@.len() == 0 {
        None
    } else {
        let c0 = n.children@[0];
        if c0.kind@ == "expression"@ {
            if c0.children@.len() > 0 {
                Some(c0.children@[0])
            } else {
                None
            }
        } else if c0.kind@ == "identifier"@ {
            Some(c0)
        } else {
            None
        }
    }
}

/// The calls among the call expressions `es[i..]`: those without error
/// flags whose function is a named identifier not in `macro_pos`.
pub open spec fn call_exprs_from(
    es: Seq<SyntaxNode>,
    source: Seq<char>,
    macro_pos: Seq<(int, int)>,
    i: int,
) -> Seq<(Seq<char>, int, int, int)>
    decreases es.len() - i,
{
    if i < 0 || i >= es.len() {
        seq![]
    } else {
        let n = es[i];
        (if flagged(n) {
            seq![]
        } else {
            match callee_of(n) {
                Some(f) => if f.kind@ == "identifier"@ {
                    match node_text(f, source) {
                        Some(name) => if macro_pos.contains((f.start_row as int, f.start_column as int)) {
                            seq![]
                        } else {
                            seq![(name, f.start_row as int, f.start_column as int, arg_count(n))]
                        },
                        None => seq![],
                    }
                } else {
                    seq![]
                },
                None => seq![],
            }
        }) + call_exprs_from(es, source, macro_pos, i + 1)
    }
}

/// The calls among the call statements `ss[i..]`: those without error
/// flags that have a named identifier.
pub open spec fn call_stmts_from(ss: Seq<SyntaxNode>, source: Seq<char>, i: int) -> Seq<
    (Seq<char>, int, int, int),
>
    decreases ss.len() - i,
{
    if i < 0 || i >= ss.len() {
        seq![]
    } else {
        let n = ss[i];
        (if flagged(n) {
            seq![]
        } else {
            match child_of_kind(n, "identifier"@) {
                Some(f) => match node_text(f, source) {
                    Some(name) => seq![(name, f.start_row as int, f.start_column as int, arg_count(n))],
                    None => seq![],
                },
                None => seq![],
            }
        }) + call_stmts_from(ss, source, i + 1)
    }
}

/// The function calls of a document: (name, line, column, number of
/// arguments) of each call expression that is not a macro call, then of
/// each call statement.
pub open spec fn function_calls_spec(root: SyntaxNode, source: Seq<char>) -> Seq<(Seq<char>, int, int, int)> {
    let mp = macro_name_positions(kind_nodes(root, "macro_call"@), 0);
    call_exprs_from(kind_nodes(root, "call_expression"@), source, mp, 0) + call_stmts_from(
        kind_nodes(root, "call_statement"@),
        source,
        0,
    )
}

/// The contents of a list of calls.
pub open spec fn call_views(v: Seq<(String, usize, usize, usize)>) -> Seq<(Seq<char>, int, int, int)> {
    v.map_values(|e: (String, usize, usize, usize)| (e.0@, e.1 as int, e.2 as int, e.3 as int))
}

fn push_call(out: &mut Vec<(String, usize, usize, usize)>, e: (String, usize, usize, usize))
    ensures
        call_views(final(out)@) == call_views(old(out)@).push((e.0@, e.1 as int, e.2 as int, e.3 as int)),
{
    let ghost before = call_views(out@);
    out.push(e);
    assert(call_views(out@) =~= before.push((e.0@, e.1 as int, e.2 as int, e.3 as int)));
}

fn count_args(n: &SyntaxNode) -> (r: usize)
    ensures
        r == arg_count(*n),
{
    match get_child_by_kind(n, "argument_list") {
        Some(al) => get_children_by_kind(al, "expression").len(),
        None => 0,
    }
}

fn macro_positions(calls: &Vec<&SyntaxNode>) -> (r: Vec<(usize, usize)>)
    ensures
        r@.map_values(|p: (usize, usize)| (p.0 as int, p.1 as int)) == macro_name_positions(node_views(calls@), 0),
{
    let ghost cv = node_views(calls@);
    let mut out: Vec<(usize, usize)> = Vec::new();
    let mut i: usize = 0;
    while i < calls.len()
        invariant
            cv == node_views(calls@),
            cv.len() == calls@.len(),
            i <= calls.len(),
            macro_name_positions(cv, 0) == out@.map_values(|p: (usize, usize)| (p.0 as int, p.1 as int))
                + macro_name_positions(cv, i as int),
        decreases calls.len() - i,
    {
        let n = calls[i];
        assert(cv[i as int] == *n);
        let ghost before = out@.map_values(|p: (usize, usize)| (p.0 as int, p.1 as int));
        if n.children.len() > 0 {
            out.push((n.children[0].start_row, n.children[0].start_column));
            assert(out@.map_values(|p: (usize, usize)| (p.0 as int, p.1 as int)) =~= before.push(
                (n.children@[0].start_row as int, n.children@[0].start_column as int),
            ));
        }
        assert(out@.map_values(|p: (usize, usize)| (p.0 as int, p.1 as int)) + macro_name_positions(cv, i + 1)
            =~= before + macro_name_positions(cv, i as int));
        i = i + 1;
    }
    assert(out@.map_values(|p: (usize, usize)| (p.0 as int, p.1 as int)) + macro_name_positions(cv, i as int)
        =~= out@.map_values(|p: (usize, usize)| (p.0 as int, p.1 as int)));
    out
}

fn has_position(ps: &Vec<(usize, usize)>, row: usize, col: usize) -> (r: bool)
    ensures
        r == ps@.map_values(|p: (usize, usize)| (p.0 as int, p.1 as int)).contains((row as int, col as int)),
{
    let ghost pv = ps@.map_values(|p: (usize, usize)| (p.0 as int, p.1 as int));
    let mut i: usize = 0;
    while i < ps.len()
        invariant
            pv == ps@.map_values(|p: (usize, usize)| (p.0 as int, p.1 as int)),
            i <= ps.len(),
            forall|j: int| 0 <= j < i ==> pv[j] != (row as int, col as int),
        decreases ps.len() - i,
    {
        if ps[i].0 == row && ps[i].1 == col {
            assert(pv[i as int] == (row as int, col as int));
            return true;
        }
        i = i + 1;
    }
    false
}

/// The function calls of a parsed document: (name, line, column, number of
/// arguments), call expressions first (macro calls left out), then call
/// statements.
pub fn find_function_calls(root: &SyntaxNode, source: &str) -> (r: Vec<(String, usize, usize, usize)>)
    requires
        tree_ok(*root, encode_utf8(source@).len() as int),
    ensures
        call_views(r@) == function_calls_spec(*root, source@),
{
    let exprs = nodes_ok(root, "call_expression", source);
    let stmts = nodes_ok(root, "call_statement", source);
    let macros = find_by_kind(root, "macro_call");
    let mpos = macro_positions(&macros);
    let ghost mp = mpos@.map_values(|p: (usize, usize)| (p.0 as int, p.1 as int));
    let ghost ev = node_views(exprs@);
    let ghost sv = node_views(stmts@);
    let mut out: Vec<(String, usize, usize, usize)> = Vec::new();
    assert(call_views(out@) =~= Seq::<(Seq<char>, int, int, int)>::empty());
    let mut i: usize = 0;
    while i < exprs.len()
        invariant
            ev == node_views(exprs@),
            ev.len() == exprs@.len(),
            mp == mpos@.map_values(|p: (usize, usize)| (p.0 as int, p.1 as int)),
            forall|t: int| 0 <= t < exprs@.len() ==> tree_ok(*#[trigger] exprs@[t], encode_utf8(source@).len() as int),
            i <= exprs.len(),
            call_exprs_from(ev, source@, mp, 0) == call_views(out@) + call_exprs_from(ev, source@, mp, i as int),
        decreases exprs.len() - i,
    {
        let n = exprs[i];
        assert(ev[i as int] == *n);
        let ghost before = call_views(out@);
        if !(n.is_error || n.is_missing || n.has_error) && n.children.len() > 0 {
            let c0 = &n.children[0];
            assert(tree_ok(n.children@[0], encode_utf8(source@).len() as int));
            let callee: Option<&SyntaxNode> = if is_kind(c0, "expression") {
                if c0.children.len() > 0 {
                    assert(tree_ok(c0.children@[0], encode_utf8(source@).len() as int));
                    Some(&c0.children[0])
                } else {
                    None
                }
            } else if is_kind(c0, "identifier") {
                Some(c0)
            } else {
                None
            };
            match callee {
                Some(f) => {
                    if is_kind(f, "identifier") {
                        match text_of(f, source) {
                            Some(name) => {
                                if !has_position(&mpos, f.start_row, f.start_column) {
                                    let argc = count_args(n);
                                    push_call(&mut out, (name, f.start_row, f.start_column, argc));
                                }
                            },
                            None => {},
                        }
                    }
                },
                None => {},
            }
        }
        assert(call_views(out@) + call_exprs_from(ev, source@, mp, i + 1) =~= before + call_exprs_from(ev, source@, mp, i as int));
        i = i + 1;
    }
    let ghost mid = call_views(out@);
    assert(mid + call_exprs_from(ev, source@, mp, i as int) =~= mid);
    let mut i: usize = 0;
    while i < stmts.len()
        invariant
            sv == node_views(stmts@),
            sv.len() == stmts@.len(),
            forall|t: int| 0 <= t < stmts@.len() ==> tree_ok(*#[trigger] stmts@[t], encode_utf8(source@).len() as int),
            i <= stmts.len(),
            mid + call_stmts_from(sv, source@, 0) == call_views(out@) + call_stmts_from(sv, source@, i as int),
        decreases stmts.len() - i,
    {
        let n = stmts[i];
        assert(sv[i as int] == *n);
        let ghost before = call_views(out@);
        if !(n.is_error || n.is_missing || n.has_error) {
            match get_child_by_kind(n, "identifier") {
                Some(f) => {
                    proof {
                        let j = choose|j: int| 0 <= j < n.children@.len() && n.children@[j] == *f;
                        assert(tree_ok(n.children@[j], encode_utf8(source@).len() as int));
                    }
                    match text_of(f, source) {
                        Some(name) => {
                            let argc = count_args(n);
                            push_call(&mut out, (name, f.start_row, f.start_column, argc));
                        },
                        None => {},
                    }
                },
                None => {},
            }
        }
        assert(call_views(out@) + call_stmts_from(sv, source@, i + 1) =~= before + call_stmts_from(sv, source@, i as int));
        i = i + 1;
    }
    assert(call_views(out@) + call_stmts_from(sv, source@, i as int) =~= call_views(out@));
    out
}

// ---------------------------------------------------------------------------
// Variable references
// ---------------------------------------------------------------------------

/// Kinds of node below which no identifier is a reference.
pub open spec fn is_declaration_kind(k: Seq<char>) -> bool {
    ||| k == "variable_declarator"@
    ||| k == "define_declaration"@
    ||| k == "enum_variant"@
    ||| k == "function_declaration"@
    ||| k == "macro_declaration"@
}

/// Where a node stands: its parent and its index among the parent's
/// children, with the same for the parent.
pub type NodeContext = Option<(SyntaxNode, int, Option<(SyntaxNode, int)>)>;

/// Whether an identifier at `ctx` names a function or a declared variable
/// rather than referring to a variable: the first child of a call
/// statement or a macro call, the expression that is the first child of a
/// call expression, or the name of a variable declarator.
pub open spec fn identifier_excluded(ctx: NodeContext) -> bool {
    match ctx {
        None => false,
        Some((p, idx, g)) => {
            ||| (p.kind@ == "call_statement"@ && idx == 0)
            ||| (p.kind@ == "macro_call"@ && idx == 0)
            ||| (p.kind@ == "expression"@ && (g matches Some((gp, pidx)) && gp.kind@
                == "call_expression"@ && pidx == 0))
            ||| (p.kind@ == "variable_declarator"@ && crate::syntax::first_of_kind_from(
                p.children@,
                "identifier"@,
                0,
            ) == Some(idx))
        },
    }
}

/// The variable references in the tree below and including `n`, in
/// pre-order: identifiers outside declarations that do not name a called
/// function or a declared variable.
pub open spec fn refs_in(n: SyntaxNode, ctx: NodeContext, source: Seq<char>) -> Seq<(Seq<char>, int, int)>
    decreases n,
{
    if is_declaration_kind(n.kind@) {
        seq![]
    } else if n.kind@ == "identifier"@ && identifier_excluded(ctx) {
        seq![]
    } else {
        (if n.kind@ == "identifier"@ {
            match node_text(n, source) {
                Some(t) => seq![(t, n.start_row as int, n.start_column as int)],
                None => seq![],
            }
        } else {
            seq![]
        }) + refs_in_list(
            n.children@,
            n,
            match ctx {
                Some((p, idx, _)) => Some((p, idx)),
                None => None,
            },
            source,
            0,
        )
    }
}

/// The variable references in the trees `l[i..]`, children of `parent`
/// (which stands at `pctx`).
pub open spec fn refs_in_list(
    l: Seq<SyntaxNode>,
    parent: SyntaxNode,
    pctx: Option<(SyntaxNode, int)>,
    source: Seq<char>,
    i: int,
) -> Seq<(Seq<char>, int, int)>
    decreases l, l.len() - i,
{
    if i < 0 || i >= l.len() {
        seq![]
    } else {
        refs_in(l[i], Some((parent, i, pctx)), source) + refs_in_list(l, parent, pctx, source, i + 1)
    }
}

fn is_declaration_node(n: &SyntaxNode) -> (r: bool)
    ensures
        r == is_declaration_kind(n.kind@),
{
    is_kind(n, "variable_declarator") || is_kind(n, "define_declaration") || is_kind(n, "enum_variant")
        || is_kind(n, "function_declaration") || is_kind(n, "macro_declaration")
}

fn first_identifier_index(p: &SyntaxNode) -> (r: Option<usize>)
    ensures
        match r {
            Some(k) => crate::syntax::first_of_kind_from(p.children@, "identifier"@, 0) == Some(k as int),
            None => crate::syntax::first_of_kind_from(p.children@, "identifier"@, 0) is None,
        },
{
    let mut i: usize = 0;
    while i < p.children.len()
        invariant
            i <= p.children.len(),
            crate::syntax::first_of_kind_from(p.children@, "identifier"@, i as int)
                == crate::syntax::first_of_kind_from(p.children@, "identifier"@, 0),
        decreases p.children.len() - i,
    {
        if is_kind(&p.children[i], "identifier") {
            return Some(i);
        }
        i = i + 1;
    }
    None
}

/// The context of a node as the spec functions take it.
pub open spec fn ctx_of(parent: Option<(&SyntaxNode, usize)>, grand: Option<(&SyntaxNode, usize)>) -> NodeContext {
    match parent {
        Some((p, idx)) => Some(
            (
                *p,
                idx as int,
                match grand {
                    Some((g, gi)) => Some((*g, gi as int)),
                    None => None,
                },
            ),
        ),
        None => None,
    }
}

fn excluded_identifier(parent: Option<(&SyntaxNode, usize)>, grand: Option<(&SyntaxNode, usize)>) -> (r: bool)
    ensures
        r == identifier_excluded(ctx_of(parent, grand)),
{
    match parent {
        None => false,
        Some((p, idx)) => {
            if is_kind(p, "call_statement") && idx == 0 {
                return true;
            }
            if is_kind(p, "macro_call") && idx == 0 {
                return true;
            }
            if is_kind(p, "expression") {
                match grand {
                    Some((g, gi)) => {
                        if is_kind(g, "call_expression") && gi == 0 {
                            return true;
                        }
                    },
                    None => {},
                }
            }
            if is_kind(p, "variable_declarator") {
                match first_identifier_index(p) {
                    Some(k) => {
                        if k == idx {
                            return true;
                        }
                    },
                    None => {},
                }
            }
            false
        },
    }
}

fn collect_variable_refs(
    n: &SyntaxNode,
    parent: Option<(&SyntaxNode, usize)>,
    grand: Option<(&SyntaxNode, usize)>,
    source: &str,
    refs: &mut Vec<(String, usize, usize)>,
)
    requires
        tree_ok(*n, encode_utf8(source@).len() as int),
    ensures
        triple_views(final(refs)@) == triple_views(old(refs)@) + refs_in(*n, ctx_of(parent, grand), source@),
    decreases n,
{
    let ghost ctx = ctx_of(parent, grand);
    let ghost base = triple_views(refs@);
    if is_declaration_node(n) {
        assert(triple_views(refs@) =~= base + refs_in(*n, ctx, source@));
        return ;
    }
    let ident = is_kind(n, "identifier");
    if ident && excluded_identifier(parent, grand) {
        assert(triple_views(refs@) =~= base + refs_in(*n, ctx, source@));
        return ;
    }
    if ident {
        match text_of(n, source) {
            Some(t) => push_triple(refs, (t, n.start_row, n.start_column)),
            None => {},
        }
    }
    let ghost mid = triple_views(refs@);
    let ghost pctx: Option<(SyntaxNode, int)> = match parent {
        Some((p, idx)) => Some((*p, idx as int)),
        None => None,
    };
    let mut i: usize = 0;
    while i < n.children.len()
        invariant
            i <= n.children.len(),
            tree_ok(*n, encode_utf8(source@).len() as int),
            pctx == (match parent {
                Some((p, idx)) => Some((*p, idx as int)),
                None => None::<(SyntaxNode, int)>,
            }),
            mid + refs_in_list(n.children@, *n, pctx, source@, 0) == triple_views(refs@) + refs_in_list(
                n.children@,
                *n,
                pctx,
                source@,
                i as int,
            ),
        decreases n.children.len() - i,
    {
        let ghost before = triple_views(refs@);
        assert(tree_ok(n.children@[i as int], encode_utf8(source@).len() as int));
        collect_variable_refs(&n.children[i], Some((n, i)), parent, source, refs);
        assert(ctx_of(Some((n, i)), parent) == Some((*n, i as int, pctx)));
        assert(triple_views(refs@) + refs_in_list(n.children@, *n, pctx, source@, i + 1) =~= before
            + refs_in_list(n.children@, *n, pctx, source@, i as int));
        i = i + 1;
    }
    assert(triple_views(refs@) + refs_in_list(n.children@, *n, pctx, source@, i as int) =~= triple_views(refs@));
    assert(triple_views(refs@) =~= base + refs_in(*n, ctx, source@));
}

/// The variable references of a parsed document: (name, line, column) of
/// each identifier that refers to a variable, in pre-order.
pub fn find_variable_references(root: &SyntaxNode, source: &str) -> (r: Vec<(String, usize, usize)>)
    requires
        tree_ok(*root, encode_utf8(source@).len() as int),
    ensures
        triple_views(r@) == refs_in(*root, None, source@),
{
    let mut refs: Vec<(String, usize, usize)> = Vec::new();
    assert(triple_views(refs@) =~= Seq::<(Seq<char>, int, int)>::empty());
    collect_variable_refs(root, None, None, source, &mut refs);
    refs
}

// ---------------------------------------------------------------------------
// Imports and macro calls
// ---------------------------------------------------------------------------

/// `s` without its leading `"` characters.
pub open spec fn strip_leading_quotes(s: Seq<char>) -> Seq<char>
    decreases s.len(),
{
    if s.len() > 0 && s[0] == '"' {
        strip_leading_quotes(s.drop_first())
    } else {
        s
    }
}

/// `s` without its trailing `"` characters.
pub open spec fn strip_trailing_quotes(s: Seq<char>) -> Seq<char>
    decreases s.len(),
{
    if s.len() > 0 && s.last() == '"' {
        strip_trailing_quotes(s.drop_last())
    } else {
        s
    }
}

/// The file an import path names: the path without surrounding quotes,
/// with `.gpc` added unless it already ends so.
pub open spec fn import_file(path: Seq<char>) -> Seq<char> {
    let p = strip_trailing_quotes(strip_leading_quotes(path));
    if crate::doc_comments::ends_with(p, ".gpc"@) {
        p
    } else {
        p + ".gpc"@
    }
}

/// The files that the imports `ns[i..]` without error flags name.
pub open spec fn imports_from(ns: Seq<SyntaxNode>, source: Seq<char>, i: int) -> Seq<Seq<char>>
    decreases ns.len() - i,
{
    if i < 0 || i >= ns.len() {
        seq![]
    } else {
        (if flagged(ns[i]) {
            seq![]
        } else {
            match child_text(ns[i], "import_identifier"@, source) {
                Some(p) => seq![import_file(p)],
                None => seq![],
            }
        }) + imports_from(ns, source, i + 1)
    }
}

/// The files a document imports, in order.
pub open spec fn imports_spec(root: SyntaxNode, source: Seq<char>) -> Seq<Seq<char>> {
    imports_from(kind_nodes(root, "import"@), source, 0)
}

fn import_file_of(path: &str) -> (r: String)
    ensures
        r@ == import_file(path@),
{
    let chars = chars_of(path);
    let mut a: usize = 0;
    assert(chars@.skip(0) =~= chars@);
    while a < chars.len() && chars[a] == '"'
        invariant
            a <= chars.len(),
            strip_leading_quotes(chars@.skip(a as int)) == strip_leading_quotes(chars@),
        decreases chars.len() - a,
    {
        assert(chars@.skip(a as int).drop_first() =~= chars@.skip(a + 1));
        a = a + 1;
    }
    let ghost front = chars@.skip(a as int);
    assert(strip_leading_quotes(front) == front);
    let mut b: usize = chars.len();
    while b > a && chars[b - 1] == '"'
        invariant
            a <= b <= chars.len(),
            strip_trailing_quotes(chars@.subrange(a as int, b as int)) == strip_trailing_quotes(front),
        decreases b,
    {
        assert(chars@.subrange(a as int, b as int).drop_last() =~= chars@.subrange(a as int, b - 1));
        b = b - 1;
    }
    assert(chars@.subrange(a as int, chars@.len() as int) =~= front);
    let p = crate::text::slice_chars(&chars, a, b);
    assert(strip_trailing_quotes(p@) == p@);
    let ext = ['.', 'g', 'p', 'c'];
    proof {
        reveal_strlit(".gpc");
        assert(ext@ == ".gpc"@);
    }
    let mut s = string_of(&p);
    if !crate::doc_comments::ends_with_chars(&p, ext.as_slice()) {
        crate::strings::push_str(&mut s, ".gpc");
    }
    s
}

/// The files a parsed document imports, in order: each import path
/// without quotes, with `.gpc` added unless it already ends so.
pub fn extract_imports(root: &SyntaxNode, source: &str) -> (r: Vec<String>)
    requires
        tree_ok(*root, encode_utf8(source@).len() as int),
    ensures
        strs(r@) == imports_spec(*root, source@),
{
    let ns = nodes_ok(root, "import", source);
    let ghost nv = node_views(ns@);
    let mut out: Vec<String> = Vec::new();
    let mut i: usize = 0;
    assert(strs(out@) =~= Seq::<Seq<char>>::empty());
    while i < ns.len()
        invariant
            nv == node_views(ns@),
            nv.len() == ns@.len(),
            forall|t: int| 0 <= t < ns@.len() ==> tree_ok(*#[trigger] ns@[t], encode_utf8(source@).len() as int),
            i <= ns.len(),
            imports_from(nv, source@, 0) == strs(out@) + imports_from(nv, source@, i as int),
        decreases ns.len() - i,
    {
        let n = ns[i];
        assert(nv[i as int] == *n);
        let ghost before = strs(out@);
        if !(n.is_error || n.is_missing || n.has_error) {
            match child_text_of(n, "import_identifier", source) {
                Some(p) => {
                    let f = import_file_of(p.as_str());
                    out.push(f);
                    assert(strs(out@) =~= before.push(f@));
                },
                None => {},
            }
        }
        assert(strs(out@) + imports_from(nv, source@, i + 1) =~= before + imports_from(nv, source@, i as int));
        i = i + 1;
    }
    assert(strs(out@) + imports_from(nv, source@, i as int) =~= strs(out@));
    out
}

/// The macro calls among `ns[i..]`: those without error flags whose first
/// child is a named identifier, with whether they have a `{` body.
pub open spec fn macro_calls_from(ns: Seq<SyntaxNode>, source: Seq<char>, i: int) -> Seq<(Seq<char>, int, int, bool)>
    decreases ns.len() - i,
{
    if i < 0 || i >= ns.len() {
        seq![]
    } else {
        let n = ns[i];
        (if !flagged(n) && n.children@.len() > 0 && n.children@[0].kind@ == "identifier"@ {
            match node_text(n.children@[0], source) {
                Some(name) => seq![
                    (
                        name,
                        n.children@[0].start_row as int,
                        n.children@[0].start_column as int,
                        crate::syntax::first_of_kind_from(n.children@, "{"@, 0) is Some,
                    ),
                ],
                None => seq![],
            }
        } else {
            seq![]
        }) + macro_calls_from(ns, source, i + 1)
    }
}

/// The macro calls of a document: (name, line, column, has a body).
pub open spec fn macro_calls_spec(root: SyntaxNode, source: Seq<char>) -> Seq<(Seq<char>, int, int, bool)> {
    macro_calls_from(kind_nodes(root, "macro_call"@), source, 0)
}

/// The contents of a list of macro calls.
pub open spec fn macro_call_views(v: Seq<(String, usize, usize, bool)>) -> Seq<(Seq<char>, int, int, bool)> {
    v.map_values(|e: (String, usize, usize, bool)| (e.0@, e.1 as int, e.2 as int, e.3))
}

/// The macro calls of a parsed document: (name, line, column, whether a
/// `{` body block follows).
pub fn find_macro_calls(root: &SyntaxNode, source: &str) -> (r: Vec<(String, usize, usize, bool)>)
    requires
        tree_ok(*root, encode_utf8(source@).len() as int),
    ensures
        macro_call_views(r@) == macro_calls_spec(*root, source@),
{
    let ns = nodes_ok(root, "macro_call", source);
    let ghost nv = node_views(ns@);
    let mut out: Vec<(String, usize, usize, bool)> = Vec::new();
    let mut i: usize = 0;
    assert(macro_call_views(out@) =~= Seq::<(Seq<char>, int, int, bool)>::empty());
    while i < ns.len()
        invariant
            nv == node_views(ns@),
            nv.len() == ns@.len(),
            forall|t: int| 0 <= t < ns@.len() ==> tree_ok(*#[trigger] ns@[t], encode_utf8(source@).len() as int),
            i <= ns.len(),
            macro_calls_from(nv, source@, 0) == macro_call_views(out@) + macro_calls_from(nv, source@, i as int),
        decreases ns.len() - i,
    {
        let n = ns[i];
        assert(nv[i as int] == *n);
        let ghost before = macro_call_views(out@);
        if !(n.is_error || n.is_missing || n.has_error) && n.children.len() > 0 && is_kind(&n.children[0], "identifier") {
            let c0 = &n.children[0];
            assert(tree_ok(n.children@[0], encode_utf8(source@).len() as int));
            match text_of(c0, source) {
                Some(name) => {
                    let has_body = get_child_by_kind(n, "{").is_some();
                    let e = (name, c0.start_row, c0.start_column, has_body);
                    out.push(e);
                    assert(macro_call_views(out@) =~= before.push((e.0@, e.1 as int, e.2 as int, e.3)));
                },
                None => {},
            }
        }
        assert(macro_call_views(out@) + macro_calls_from(nv, source@, i + 1) =~= before + macro_calls_from(nv, source@, i as int));
        i = i + 1;
    }
    assert(macro_call_views(out@) + macro_calls_from(nv, source@, i as int) =~= macro_call_views(out@));
    out
}

} // verus!
