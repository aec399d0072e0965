//! Answers to the editor's questions about a symbol: where it is defined,
//! what it is (hover), which call the cursor stands in (signature help),
//! where it occurs (references, highlights, renames), and the outline,
//! folds and reference counts of a document.
use vstd::prelude::*;
use crate::types::{
    Position, Range, Location, UserFunction, UserMacro, UserVariable, DataTypes, VariableKind,
    Features, DocumentState, opt_view,
};
use crate::data::BuiltinFunction;
use crate::text::{string_views, text_lines, lines_spec};
use crate::strings::push_str;
use crate::syntax::str_eq;
use vstd::string::StrSliceExecFns;
use crate::diagnostics::{func_names, var_names, count_outside, count_refs_outside};
use crate::search::{word_positions, word_search_ok, find_word_positions, search_allowed};
use crate::strings::{push_decimal, decimal};
use crate::text::{trim_spec, trim_chars, chars_of};
use crate::cursor::{
    Fault, cursor_word, cursor_word_spec, text_result_view, line_at, line_of, before_cursor,
    cursor_chars, byte_slice, byte_slice_spec,
};
use crate::search::{trailing_word, word_start_cuttable, word_start_is_cuttable, trailing_word_of};
use crate::utils::{split_arguments, split_arguments_spec};
use vstd::utf8::encode_utf8;

verus! {

// ---------------------------------------------------------------------------
// Names, joins and URLs
// ---------------------------------------------------------------------------

/// The index of the first of `names[i..]` equal to `w`.
pub open spec fn first_name_from(names: Seq<Seq<char>>, w: Seq<char>, i: int) -> Option<int>
    decreases names.len() - i,
{
    if i < 0 || i >= names.len() {
        None
    } else if names[i] == w {
        Some(i)
    } else {
        first_name_from(names, w, i + 1)
    }
}

/// The index of the first of `names` equal to `w`.
pub open spec fn first_name(names: Seq<Seq<char>>, w: Seq<char>) -> Option<int> {
    first_name_from(names, w, 0)
}

/// The names of a list of macros.
pub open spec fn macro_names(ms: Seq<UserMacro>) -> Seq<Seq<char>> {
    ms.map_values(|m: UserMacro| m.name@)
}

/// The names of a list of built-in functions.
pub open spec fn builtin_names(bs: Seq<BuiltinFunction>) -> Seq<Seq<char>> {
    bs.map_values(|b: BuiltinFunction| b.name@)
}

/// An index as a mathematical integer.
pub open spec fn opt_index(r: Option<usize>) -> Option<int> {
    match r {
        Some(i) => Some(i as int),
        None => None,
    }
}

proof fn lemma_first_name_bounds(names: Seq<Seq<char>>, w: Seq<char>, i: int)
    ensures
        first_name_from(names, w, i) matches Some(k) ==> i <= k < names.len() && names[k] == w,
    decreases names.len() - i,
{
    if 0 <= i < names.len() && names[i] != w {
        lemma_first_name_bounds(names, w, i + 1);
    }
}

fn find_function(fs: &Vec<UserFunction>, w: &str) -> (r: Option<usize>)
    ensures
        opt_index(r) == first_name(func_names(fs@), w@),
        r matches Some(i) ==> i < fs@.len(),
{
    let ghost names = func_names(fs@);
    let mut i: usize = 0;
    while i < fs.len()
        invariant
            names == func_names(fs@),
            i <= fs.len(),
            first_name_from(names, w@, i as int) == first_name(names, w@),
        decreases fs.len() - i,
    {
        if str_eq(fs[i].name.as_str(), w) {
            return Some(i);
        }
        i = i + 1;
    }
    None
}

fn find_macro(ms: &Vec<UserMacro>, w: &str) -> (r: Option<usize>)
    ensures
        opt_index(r) == first_name(macro_names(ms@), w@),
        r matches Some(i) ==> i < ms@.len(),
{
    let ghost names = macro_names(ms@);
    let mut i: usize = 0;
    while i < ms.len()
        invariant
            names == macro_names(ms@),
            i <= ms.len(),
            first_name_from(names, w@, i as int) == first_name(names, w@),
        decreases ms.len() - i,
    {
        if str_eq(ms[i].name.as_str(), w) {
            return Some(i);
        }
        i = i + 1;
    }
    None
}

fn find_variable(vs: &Vec<UserVariable>, w: &str) -> (r: Option<usize>)
    ensures
        opt_index(r) == first_name(var_names(vs@), w@),
        r matches Some(i) ==> i < vs@.len(),
{
    let ghost names = var_names(vs@);
    let mut i: usize = 0;
    while i < vs.len()
        invariant
            names == var_names(vs@),
            i <= vs.len(),
            first_name_from(names, w@, i as int) == first_name(names, w@),
        decreases vs.len() - i,
    {
        if str_eq(vs[i].name.as_str(), w) {
            return Some(i);
        }
        i = i + 1;
    }
    None
}

fn find_builtin(bs: &Vec<BuiltinFunction>, w: &str) -> (r: Option<usize>)
    ensures
        opt_index(r) == first_name(builtin_names(bs@), w@),
        r matches Some(i) ==> i < bs@.len(),
{
    let ghost names = builtin_names(bs@);
    let mut i: usize = 0;
    while i < bs.len()
        invariant
            names == builtin_names(bs@),
            i <= bs.len(),
            first_name_from(names, w@, i as int) == first_name(names, w@),
        decreases bs.len() - i,
    {
        if str_eq(bs[i].name.as_str(), w) {
            return Some(i);
        }
        i = i + 1;
    }
    None
}

/// The pieces joined with `sep` between them.
pub open spec fn join_with(parts: Seq<Seq<char>>, sep: Seq<char>) -> Seq<char>
    decreases parts.len(),
{
    if parts.len() == 0 {
        seq![]
    } else if parts.len() == 1 {
        parts[0]
    } else {
        join_with(parts.drop_last(), sep) + sep + parts.last()
    }
}

/// The strings joined with `sep` between them.
pub fn join_strings(parts: &Vec<String>, sep: &str) -> (r: String)
    ensures
        r@ == join_with(string_views(parts@), sep@),
{
    let ghost v = string_views(parts@);
    let mut s = String::new();
    let mut i: usize = 0;
    while i < parts.len()
        invariant
            v == string_views(parts@),
            i <= parts.len(),
            s@ == join_with(v.take(i as int), sep@),
        decreases parts.len() - i,
    {
        if i > 0 {
            push_str(&mut s, sep);
        }
        push_str(&mut s, parts[i].as_str());
        proof {
            assert(v.take(i + 1).drop_last() =~= v.take(i as int));
            assert(v.take(i + 1).last() == parts@[i as int]@);
            if i == 0 {
                assert(s@ =~= v.take(1)[0]);
            }
        }
        i = i + 1;
    }
    assert(v.take(parts.len() as int) =~= v);
    s
}

/// What `Url::parse` accepts.
pub uninterp spec fn url_parses(s: Seq<char>) -> bool;

/// `tower_lsp::lsp_types::Url::parse` (the `url` crate): whether the text
/// parses as a URL. The answer is named, not stated.
#[verifier::external_body]
pub(crate) fn uri_parses(uri: &str) -> (r: bool)
    ensures
        r == url_parses(uri@),
{
    tower_lsp::lsp_types::Url::parse(uri).is_ok()
}

fn copy_location(l: &Location) -> (r: Location)
    ensures
        r.uri@ == l.uri@,
        r.range == l.range,
{
    Location { uri: l.uri.clone(), range: l.range }
}

/// The contents of an optional location.
pub open spec fn loc_view(r: Option<Location>) -> Option<(Seq<char>, Range)> {
    match r {
        Some(l) => Some((l.uri@, l.range)),
        None => None,
    }
}

// ---------------------------------------------------------------------------
// Go to definition
// ---------------------------------------------------------------------------

/// The definition at `uri`, where it parses as a URL.
pub open spec fn valid_target(uri: Seq<char>, range: Range) -> Option<(Seq<char>, Range)> {
    if url_parses(uri) {
        Some((uri, range))
    } else {
        None
    }
}

/// The definition of the first function named `w`, if its URI parses.
pub open spec fn fn_target(fs: Seq<UserFunction>, w: Seq<char>) -> Option<(Seq<char>, Range)> {
    match first_name(func_names(fs), w) {
        Some(i) => valid_target(fs[i].definition.uri@, fs[i].definition.range),
        None => None,
    }
}

/// The definition of the first macro named `w`, if its URI parses.
pub open spec fn macro_target(ms: Seq<UserMacro>, w: Seq<char>) -> Option<(Seq<char>, Range)> {
    match first_name(macro_names(ms), w) {
        Some(i) => valid_target(ms[i].definition.uri@, ms[i].definition.range),
        None => None,
    }
}

/// The definition of the first variable named `w`, if its URI parses.
pub open spec fn var_target(vs: Seq<UserVariable>, w: Seq<char>) -> Option<(Seq<char>, Range)> {
    match first_name(var_names(vs), w) {
        Some(i) => valid_target(vs[i].definition.uri@, vs[i].definition.range),
        None => None,
    }
}

/// `a` if it is there, else `b`.
pub open spec fn or_else<T>(a: Option<T>, b: Option<T>) -> Option<T> {
    if a is Some {
        a
    } else {
        b
    }
}

/// Where the symbol named `w` is defined: the document's functions, macros
/// (with the macros feature) and variables in that order, then, with the
/// imports feature, the imported ones in the same order; a candidate whose
/// URI does not parse gives way to the next kind.
pub open spec fn definition_spec(d: DocumentState, f: Features, w: Seq<char>) -> Option<
    (Seq<char>, Range),
> {
    if w.len() == 0 {
        None
    } else {
        let own = or_else(
            fn_target(d.functions@, w),
            or_else(
                if f.macros {
                    macro_target(d.macros@, w)
                } else {
                    None
                },
                var_target(d.variables@, w),
            ),
        );
        let imported = if f.imports {
            or_else(
                fn_target(d.imported_functions@, w),
                or_else(
                    if f.macros {
                        macro_target(d.imported_macros@, w)
                    } else {
                        None
                    },
                    var_target(d.imported_variables@, w),
                ),
            )
        } else {
            None
        };
        or_else(own, imported)
    }
}

fn function_target(fs: &Vec<UserFunction>, w: &str) -> (r: Option<Location>)
    ensures
        loc_view(r) == fn_target(fs@, w@),
{
    match find_function(fs, w) {
        Some(i) => if uri_parses(fs[i].definition.uri.as_str()) {
            Some(copy_location(&fs[i].definition))
        } else {
            None
        },
        None => None,
    }
}

fn macro_location(ms: &Vec<UserMacro>, w: &str) -> (r: Option<Location>)
    ensures
        loc_view(r) == macro_target(ms@, w@),
{
    match find_macro(ms, w) {
        Some(i) => if uri_parses(ms[i].definition.uri.as_str()) {
            Some(copy_location(&ms[i].definition))
        } else {
            None
        },
        None => None,
    }
}

fn variable_location(vs: &Vec<UserVariable>, w: &str) -> (r: Option<Location>)
    ensures
        loc_view(r) == var_target(vs@, w@),
{
    match find_variable(vs, w) {
        Some(i) => if uri_parses(vs[i].definition.uri.as_str()) {
            Some(copy_location(&vs[i].definition))
        } else {
            None
        },
        None => None,
    }
}

/// Where the symbol named `word` is defined.
pub fn definition_of(doc: &DocumentState, features: Features, word: &str) -> (r: Option<Location>)
    ensures
        loc_view(r) == definition_spec(*doc, features, word@),
{
    if word.unicode_len() == 0 {
        return None;
    }
    let r = function_target(&doc.functions, word);
    if r.is_some() {
        return r;
    }
    if features.macros {
        let r = macro_location(&doc.macros, word);
        if r.is_some() {
            return r;
        }
    }
    let r = variable_location(&doc.variables, word);
    if r.is_some() {
        return r;
    }
    if features.imports {
        let r = function_target(&doc.imported_functions, word);
        if r.is_some() {
            return r;
        }
        if features.macros {
            let r = macro_location(&doc.imported_macros, word);
            if r.is_some() {
                return r;
            }
        }
        return variable_location(&doc.imported_variables, word);
    }
    None
}

/// A request's answer in terms of the word under the cursor.
pub open spec fn on_cursor_word<T>(c: Result<Option<Seq<char>>, Fault>, f: spec_fn(Seq<char>) -> Option<T>) -> Result<Option<T>, Fault> {
    match c {
        Err(e) => Err(e),
        Ok(None) => Ok(None),
        Ok(Some(w)) => Ok(f(w)),
    }
}

/// The contents of a result that may hold a location.
pub open spec fn loc_result_view(r: Result<Option<Location>, Fault>) -> Result<Option<(Seq<char>, Range)>, Fault> {
    match r {
        Ok(l) => Ok(loc_view(l)),
        Err(e) => Err(e),
    }
}

/// Where the symbol under the cursor at `pos` is defined.
pub fn handle_goto_definition(doc: &DocumentState, features: Features, pos: Position) -> (r: Result<Option<Location>, Fault>)
    ensures
        loc_result_view(r) == on_cursor_word(
            cursor_word_spec(doc.text@, pos),
            |w: Seq<char>| definition_spec(*doc, features, w),
        ),
{
    match cursor_word(doc.text.as_str(), pos) {
        Err(e) => Err(e),
        Ok(None) => Ok(None),
        Ok(Some(w)) => Ok(definition_of(doc, features, w.as_str())),
    }
}

// ---------------------------------------------------------------------------
// Hover
// ---------------------------------------------------------------------------

/// The name under which a data type is shown.
pub open spec fn data_type_label(dt: DataTypes) -> Seq<char> {
    match dt {
        DataTypes::Int8 => "Int8"@,
        DataTypes::Int16 => "Int16"@,
        DataTypes::Int32 => "Int32"@,
        DataTypes::Uint8 => "Uint8"@,
        DataTypes::Uint16 => "Uint16"@,
        DataTypes::Byte => "Byte"@,
        DataTypes::Char => "Char"@,
        DataTypes::String => "String"@,
        DataTypes::Image => "Image"@,
        DataTypes::Ps5adt => "Ps5adt"@,
    }
}

/// The name under which a data type is shown.
pub fn data_type_name(dt: DataTypes) -> (r: &'static str)
    ensures
        r@ == data_type_label(dt),
{
    match dt {
        DataTypes::Int8 => "Int8",
        DataTypes::Int16 => "Int16",
        DataTypes::Int32 => "Int32",
        DataTypes::Uint8 => "Uint8",
        DataTypes::Uint16 => "Uint16",
        DataTypes::Byte => "Byte",
        DataTypes::Char => "Char",
        DataTypes::String => "String",
        DataTypes::Image => "Image",
        DataTypes::Ps5adt => "Ps5adt",
    }
}

/// The documentation block that ends a hover text, if there is any.
pub open spec fn doc_suffix(doc: Option<Seq<char>>) -> Seq<char> {
    match doc {
        Some(d) => "\n\n"@ + d,
        None => seq![],
    }
}

/// The hover text of a function of the document.
pub open spec fn function_hover(f: UserFunction) -> Seq<char> {
    "```gpc\nfunction "@ + f.name@ + "("@ + join_with(string_views(f.parameters@), ", "@)
        + ")\n```"@ + doc_suffix(opt_view(f.documentation))
}

/// The hover text of a variable of the document.
pub open spec fn variable_hover(v: UserVariable) -> Seq<char> {
    "```gpc\n"@ + (match v.data_type {
        Some(dt) => data_type_label(dt),
        None => "unknown"@,
    }) + " "@ + v.name@ + "\n```"@ + doc_suffix(opt_view(v.documentation))
}

/// The hover text of a built-in function.
pub open spec fn builtin_hover(b: BuiltinFunction) -> Seq<char> {
    "```gpc\n"@ + b.name@ + "("@ + join_with(string_views(b.parameters@), ", "@) + ")\n```\n\n"@
        + b.description@
}

/// The hover text for the word `w`: from the first function of the document
/// with that name, else the first variable, else the first built-in
/// function.
pub open spec fn hover_spec(d: DocumentState, bs: Seq<BuiltinFunction>, w: Seq<char>) -> Option<Seq<char>> {
    if w.len() == 0 {
        None
    } else {
        match first_name(func_names(d.functions@), w) {
            Some(i) => Some(function_hover(d.functions@[i])),
            None => match first_name(var_names(d.variables@), w) {
                Some(i) => Some(variable_hover(d.variables@[i])),
                None => match first_name(builtin_names(bs), w) {
                    Some(i) => Some(builtin_hover(bs[i])),
                    None => None,
                },
            },
        }
    }
}

fn push_doc_suffix(s: &mut String, doc: &Option<String>)
    ensures
        final(s)@ == old(s)@ + doc_suffix(opt_view(*doc)),
{
    match doc {
        Some(d) => {
            push_str(s, "\n\n");
            push_str(s, d.as_str());
        },
        None => {},
    }
}

/// The hover text for the word `word`.
pub fn hover_text(doc: &DocumentState, builtins: &Vec<BuiltinFunction>, word: &str) -> (r: Option<String>)
    ensures
        opt_view(r) == hover_spec(*doc, builtins@, word@),
{
    if word.unicode_len() == 0 {
        return None;
    }
    if let Some(i) = find_function(&doc.functions, word) {
        let f = &doc.functions[i];
        let mut s = String::new();
        push_str(&mut s, "```gpc\nfunction ");
        push_str(&mut s, f.name.as_str());
        push_str(&mut s, "(");
        let params = join_strings(&f.parameters, ", ");
        push_str(&mut s, params.as_str());
        push_str(&mut s, ")\n```");
        push_doc_suffix(&mut s, &f.documentation);
        return Some(s);
    }
    if let Some(i) = find_variable(&doc.variables, word) {
        let v = &doc.variables[i];
        let mut s = String::new();
        push_str(&mut s, "```gpc\n");
        match v.data_type {
            Some(dt) => push_str(&mut s, data_type_name(dt)),
            None => push_str(&mut s, "unknown"),
        }
        push_str(&mut s, " ");
        push_str(&mut s, v.name.as_str());
        push_str(&mut s, "\n```");
        push_doc_suffix(&mut s, &v.documentation);
        return Some(s);
    }
    if let Some(i) = find_builtin(builtins, word) {
        let b = &builtins[i];
        let mut s = String::new();
        push_str(&mut s, "```gpc\n");
        push_str(&mut s, b.name.as_str());
        push_str(&mut s, "(");
        let params = join_strings(&b.parameters, ", ");
        push_str(&mut s, params.as_str());
        push_str(&mut s, ")\n```\n\n");
        push_str(&mut s, b.description.as_str());
        return Some(s);
    }
    None
}

/// The hover text for the word under the cursor at `pos`.
pub fn handle_hover(doc: &DocumentState, builtins: &Vec<BuiltinFunction>, pos: Position) -> (r: Result<Option<String>, Fault>)
    ensures
        text_result_view(r) == on_cursor_word(
            cursor_word_spec(doc.text@, pos),
            |w: Seq<char>| hover_spec(*doc, builtins@, w),
        ),
{
    match cursor_word(doc.text.as_str(), pos) {
        Err(e) => Err(e),
        Ok(None) => Ok(None),
        Ok(Some(w)) => Ok(hover_text(doc, builtins, w.as_str())),
    }
}

// ---------------------------------------------------------------------------
// Document outline
// ---------------------------------------------------------------------------

/// What kind of symbol an outline entry stands for.
#[derive(Clone, Copy, Debug, PartialEq, Eq, Structural)]
pub enum SymbolKind {
    Function,
    Variable,
    Constant,
    EnumMember,
}

/// An entry of a document's outline.
#[derive(Debug)]
pub struct DocumentSymbol {
    pub name: String,
    pub detail: Option<String>,
    pub kind: SymbolKind,
    pub range: Range,
}

/// The contents of an outline entry: name, detail, kind and range.
pub open spec fn symbol_view(s: DocumentSymbol) -> (Seq<char>, Option<Seq<char>>, SymbolKind, Range) {
    (s.name@, opt_view(s.detail), s.kind, s.range)
}

/// The contents of a list of outline entries.
pub open spec fn symbol_views(v: Seq<DocumentSymbol>) -> Seq<(Seq<char>, Option<Seq<char>>, SymbolKind, Range)> {
    v.map_values(|s: DocumentSymbol| symbol_view(s))
}

/// The outline kind of a variable of the given kind.
pub open spec fn variable_symbol_kind(k: VariableKind) -> SymbolKind {
    match k {
        VariableKind::EnumMember => SymbolKind::EnumMember,
        VariableKind::Define => SymbolKind::Constant,
        VariableKind::Regular => SymbolKind::Variable,
    }
}

/// The outline entry of a function: its parameter list as detail.
pub open spec fn function_symbol(f: UserFunction) -> (Seq<char>, Option<Seq<char>>, SymbolKind, Range) {
    (
        f.name@,
        Some("("@ + join_with(string_views(f.parameters@), ", "@) + ")"@),
        SymbolKind::Function,
        f.definition.range,
    )
}

/// The outline entry of a variable: its data type, if known, as detail.
pub open spec fn variable_symbol(v: UserVariable) -> (Seq<char>, Option<Seq<char>>, SymbolKind, Range) {
    (
        v.name@,
        match v.data_type {
            Some(dt) => Some(data_type_label(dt)),
            None => None,
        },
        variable_symbol_kind(v.kind),
        v.definition.range,
    )
}

/// The outline of a document: its functions, then its variables.
pub open spec fn outline_spec(d: DocumentState) -> Seq<(Seq<char>, Option<Seq<char>>, SymbolKind, Range)> {
    d.functions@.map_values(|f: UserFunction| function_symbol(f)) + d.variables@.map_values(
        |v: UserVariable| variable_symbol(v),
    )
}

/// The outline of a document, `None` where it is empty.
pub fn handle_document_symbol(doc: &DocumentState) -> (r: Option<Vec<DocumentSymbol>>)
    ensures
        match r {
            Some(v) => outline_spec(*doc).len() > 0 && symbol_views(v@) == outline_spec(*doc),
            None => outline_spec(*doc).len() == 0,
        },
{
    let ghost fs = doc.functions@.map_values(|f: UserFunction| function_symbol(f));
    let ghost vs = doc.variables@.map_values(|v: UserVariable| variable_symbol(v));
    let mut out: Vec<DocumentSymbol> = Vec::new();
    let mut i: usize = 0;
    while i < doc.functions.len()
        invariant
            fs == doc.functions@.map_values(|f: UserFunction| function_symbol(f)),
            i <= doc.functions.len(),
            symbol_views(out@) == fs.take(i as int),
        decreases doc.functions.len() - i,
    {
        let f = &doc.functions[i];
        let mut detail = String::new();
        push_str(&mut detail, "(");
        let params = join_strings(&f.parameters, ", ");
        push_str(&mut detail, params.as_str());
        push_str(&mut detail, ")");
        let sym = DocumentSymbol {
            name: f.name.clone(),
            detail: Some(detail),
            kind: SymbolKind::Function,
            range: f.definition.range,
        };
        let ghost before = symbol_views(out@);
        out.push(sym);
        assert(symbol_views(out@) =~= before.push(symbol_view(sym)));
        i = i + 1;
        assert(fs.take(i as int) =~= fs.take(i - 1 as int).push(fs[i - 1 as int]));
    }
    assert(fs.take(doc.functions.len() as int) =~= fs);
    let mut j: usize = 0;
    while j < doc.variables.len()
        invariant
            vs == doc.variables@.map_values(|v: UserVariable| variable_symbol(v)),
            j <= doc.variables.len(),
            symbol_views(out@) == fs + vs.take(j as int),
        decreases doc.variables.len() - j,
    {
        let v = &doc.variables[j];
        let detail = match v.data_type {
            Some(dt) => {
                let mut d = String::new();
                push_str(&mut d, data_type_name(dt));
                Some(d)
            },
            None => None,
        };
        let kind = match v.kind {
            VariableKind::EnumMember => SymbolKind::EnumMember,
            VariableKind::Define => SymbolKind::Constant,
            VariableKind::Regular => SymbolKind::Variable,
        };
        let sym = DocumentSymbol { name: v.name.clone(), detail, kind, range: v.definition.range };
        let ghost before = symbol_views(out@);
        out.push(sym);
        assert(symbol_views(out@) =~= before.push(symbol_view(sym)));
        j = j + 1;
        assert(vs.take(j as int) =~= vs.take(j - 1 as int).push(vs[j - 1 as int]));
    }
    assert(vs.take(doc.variables.len() as int) =~= vs);
    if out.len() == 0 {
        None
    } else {
        Some(out)
    }
}

// ---------------------------------------------------------------------------
// Signature help
// ---------------------------------------------------------------------------

/// A signature shown while the cursor stands in a call.
#[derive(Debug)]
pub struct SignatureInfo {
    /// The function's name with its parameter list.
    pub label: String,
    pub documentation: Option<String>,
    pub parameters: Vec<String>,
    /// The index of the argument the cursor is in.
    pub active_parameter: u32,
}

/// The contents of a signature: label, documentation, parameters and the
/// active parameter.
pub open spec fn signature_view(s: SignatureInfo) -> (Seq<char>, Option<Seq<char>>, Seq<Seq<char>>, u32) {
    (s.label@, opt_view(s.documentation), string_views(s.parameters@), s.active_parameter)
}

/// Scanning `cs` from its end, `i` characters already passed and `depth`
/// closing parentheses still to be matched: how many characters stand after
/// the `(` that no `)` closes.
pub open spec fn open_paren_back(cs: Seq<char>, i: int, depth: int) -> Option<int>
    decreases cs.len() - i,
{
    if i < 0 || i >= cs.len() {
        None
    } else {
        let c = cs[cs.len() - 1 - i];
        if c == ')' {
            open_paren_back(cs, i + 1, depth + 1)
        } else if c == '(' {
            if depth == 0 {
                Some(i)
            } else {
                open_paren_back(cs, i + 1, depth - 1)
            }
        } else {
            open_paren_back(cs, i + 1, depth)
        }
    }
}

/// The call that the text `before` the cursor ends inside: the name before
/// its unclosed `(` and the index of the argument being written. The `(` is
/// found by characters, and its byte offset taken as the byte length of
/// `before` less the characters after it, less one; the text is cut there.
/// `Err` where a cut falls inside a character.
pub open spec fn call_at_cursor(before: Seq<char>) -> Result<Option<(Seq<char>, int)>, Fault> {
    match open_paren_back(before, 0, 0) {
        None => Ok(None),
        Some(i) => {
            let blen = encode_utf8(before).len() as int;
            let e = blen - i - 1;
            match byte_slice_spec(before, 0, e) {
                None => Err(Fault::BadSlice),
                Some(bp) => if !word_start_cuttable(bp) {
                    Err(Fault::BadSlice)
                } else if trailing_word(bp).len() == 0 {
                    Ok(None)
                } else {
                    match byte_slice_spec(before, e + 1, blen) {
                        None => Err(Fault::BadSlice),
                        Some(args) => {
                            let n = split_arguments_spec(args).len() as int;
                            Ok(Some((trailing_word(bp), if n > 0 { n - 1 } else { 0 })))
                        },
                    }
                },
            }
        },
    }
}

/// A function's name with its parameter list.
pub open spec fn signature_label(name: Seq<char>, params: Seq<String>) -> Seq<char> {
    name + "("@ + join_with(string_views(params), ", "@) + ")"@
}

/// The signature for a call of `name` with argument `active` being
/// written: from the first built-in function of that name, else the first
/// function of the document.
pub open spec fn signature_for(d: DocumentState, bs: Seq<BuiltinFunction>, name: Seq<char>, active: int) -> Option<
    (Seq<char>, Option<Seq<char>>, Seq<Seq<char>>, u32),
> {
    match first_name(builtin_names(bs), name) {
        Some(i) => Some(
            (
                signature_label(bs[i].name@, bs[i].parameters@),
                Some(bs[i].description@),
                string_views(bs[i].parameters@),
                active as u32,
            ),
        ),
        None => match first_name(func_names(d.functions@), name) {
            Some(i) => Some(
                (
                    signature_label(d.functions@[i].name@, d.functions@[i].parameters@),
                    opt_view(d.functions@[i].documentation),
                    string_views(d.functions@[i].parameters@),
                    active as u32,
                ),
            ),
            None => None,
        },
    }
}

/// The signature help for the cursor at `pos`.
pub open spec fn signature_help_spec(d: DocumentState, bs: Seq<BuiltinFunction>, pos: Position) -> Result<
    Option<(Seq<char>, Option<Seq<char>>, Seq<Seq<char>>, u32)>,
    Fault,
> {
    match line_at(d.text@, pos.line as int) {
        None => Ok(None),
        Some(l) => match call_at_cursor(before_cursor(l, pos.character as int)) {
            Err(e) => Err(e),
            Ok(None) => Ok(None),
            Ok(Some((name, active))) => Ok(signature_for(d, bs, name, active)),
        },
    }
}

/// The contents of a signature-help answer.
pub open spec fn signature_result_view(r: Result<Option<SignatureInfo>, Fault>) -> Result<
    Option<(Seq<char>, Option<Seq<char>>, Seq<Seq<char>>, u32)>,
    Fault,
> {
    match r {
        Ok(Some(s)) => Ok(Some(signature_view(s))),
        Ok(None) => Ok(None),
        Err(e) => Err(e),
    }
}

proof fn lemma_encode_len(s: Seq<char>)
    ensures
        encode_utf8(s).len() >= s.len(),
    decreases s.len(),
{
    if s.len() > 0 {
        lemma_encode_len(s.drop_first());
    }
}

fn find_open_paren_back(cs: &Vec<char>) -> (r: Option<usize>)
    ensures
        opt_index(r) == open_paren_back(cs@, 0, 0),
        r matches Some(i) ==> i < cs@.len(),
{
    let n = cs.len();
    let mut i: usize = 0;
    let mut depth: usize = 0;
    while i < n
        invariant
            n == cs@.len(),
            i <= n,
            depth <= i,
            open_paren_back(cs@, i as int, depth as int) == open_paren_back(cs@, 0, 0),
        decreases n - i,
    {
        let c = cs[n - 1 - i];
        if c == ')' {
            depth = depth + 1;
        } else if c == '(' {
            if depth == 0 {
                return Some(i);
            }
            depth = depth - 1;
        }
        i = i + 1;
    }
    None
}

fn copy_strings(v: &Vec<String>) -> (r: Vec<String>)
    ensures
        string_views(r@) == string_views(v@),
{
    let mut out: Vec<String> = Vec::new();
    let mut i: usize = 0;
    while i < v.len()
        invariant
            i <= v.len(),
            string_views(out@) == string_views(v@).take(i as int),
        decreases v.len() - i,
    {
        let ghost before = string_views(out@);
        out.push(v[i].clone());
        assert(string_views(out@) =~= before.push(v@[i as int]@));
        i = i + 1;
        assert(string_views(v@).take(i as int) =~= string_views(v@).take(i - 1 as int).push(
            v@[i - 1 as int]@,
        ));
    }
    assert(string_views(v@).take(v.len() as int) =~= string_views(v@));
    out
}

fn label_of(name: &String, params: &Vec<String>) -> (r: String)
    ensures
        r@ == signature_label(name@, params@),
{
    let mut s = String::new();
    push_str(&mut s, name.as_str());
    push_str(&mut s, "(");
    let p = join_strings(params, ", ");
    push_str(&mut s, p.as_str());
    push_str(&mut s, ")");
    s
}

fn signature_of(doc: &DocumentState, builtins: &Vec<BuiltinFunction>, name: &str, active: usize) -> (r: Option<SignatureInfo>)
    ensures
        match r {
            Some(s) => signature_for(*doc, builtins@, name@, active as int) == Some(signature_view(s)),
            None => signature_for(*doc, builtins@, name@, active as int) is None,
        },
{
    if let Some(i) = find_builtin(builtins, name) {
        let b = &builtins[i];
        return Some(
            SignatureInfo {
                label: label_of(&b.name, &b.parameters),
                documentation: Some(b.description.clone()),
                parameters: copy_strings(&b.parameters),
                active_parameter: active as u32,
            },
        );
    }
    if let Some(i) = find_function(&doc.functions, name) {
        let f = &doc.functions[i];
        let documentation = match &f.documentation {
            Some(d) => Some(d.clone()),
            None => None,
        };
        return Some(
            SignatureInfo {
                label: label_of(&f.name, &f.parameters),
                documentation,
                parameters: copy_strings(&f.parameters),
                active_parameter: active as u32,
            },
        );
    }
    None
}

/// The signature of the call that the cursor at `pos` stands in.
pub fn handle_signature_help(doc: &DocumentState, builtins: &Vec<BuiltinFunction>, pos: Position) -> (r: Result<Option<SignatureInfo>, Fault>)
    ensures
        signature_result_view(r) == signature_help_spec(*doc, builtins@, pos),
{
    let line = match line_of(doc.text.as_str(), pos.line) {
        None => {
            return Ok(None);
        },
        Some(l) => l,
    };
    let before = cursor_chars(&line, pos.character);
    let i = match find_open_paren_back(&before) {
        None => {
            return Ok(None);
        },
        Some(i) => i,
    };
    let before_s = crate::text::string_of(&before);
    let blen = before_s.as_str().as_bytes().len();
    proof {
        lemma_encode_len(before@);
    }
    assert(blen == encode_utf8(before@).len());
    let e = blen - i - 1;
    let bp = match byte_slice(before_s.as_str(), 0, e) {
        None => {
            return Err(Fault::BadSlice);
        },
        Some(bp) => bp,
    };
    let bp_chars = crate::text::chars_of(bp.as_str());
    if !word_start_is_cuttable(&bp_chars) {
        return Err(Fault::BadSlice);
    }
    let name = trailing_word_of(&bp_chars);
    if name.len() == 0 {
        return Ok(None);
    }
    let args = match byte_slice(before_s.as_str(), e + 1, blen) {
        None => {
            return Err(Fault::BadSlice);
        },
        Some(a) => a,
    };
    let pieces = split_arguments(args.as_str());
    assert(pieces@.len() == split_arguments_spec(args@).len()) by {
        assert(crate::utils::str_views(pieces@).len() == pieces@.len());
    }
    let active = if pieces.len() > 0 {
        pieces.len() - 1
    } else {
        0
    };
    let name_s = crate::text::string_of(&name);
    Ok(signature_of(doc, builtins, name_s.as_str(), active))
}

// ---------------------------------------------------------------------------
// Occurrences: references, highlights and renames
// ---------------------------------------------------------------------------

/// A request's answer that goes through the word under the cursor.
pub open spec fn with_cursor_word<T>(
    c: Result<Option<Seq<char>>, Fault>,
    f: spec_fn(Seq<char>) -> Result<Option<T>, Fault>,
) -> Result<Option<T>, Fault> {
    match c {
        Err(e) => Err(e),
        Ok(None) => Ok(None),
        Ok(Some(w)) => f(w),
    }
}

/// The whole-word occurrences of `w` in the document's text: `Ok(None)` for
/// an empty word or one that does not occur, `Err` where the search would
/// cut a line inside a character.
pub open spec fn occurrences_spec(d: DocumentState, w: Seq<char>) -> Result<Option<Seq<Range>>, Fault> {
    let ls = lines_spec(d.text@);
    if w.len() == 0 {
        Ok(None)
    } else if !word_search_ok(ls, w) {
        Err(Fault::BadSlice)
    } else if word_positions(ls, w).len() == 0 {
        Ok(None)
    } else {
        Ok(Some(word_positions(ls, w)))
    }
}

fn occurrences(doc: &DocumentState, word: &str) -> (r: Result<Option<Vec<Range>>, Fault>)
    ensures
        match r {
            Ok(Some(v)) => occurrences_spec(*doc, word@) == Ok::<Option<Seq<Range>>, Fault>(Some(v@)),
            Ok(None) => occurrences_spec(*doc, word@) == Ok::<Option<Seq<Range>>, Fault>(None),
            Err(e) => occurrences_spec(*doc, word@) == Err::<Option<Seq<Range>>, Fault>(e),
        },
{
    if word.unicode_len() == 0 {
        return Ok(None);
    }
    let lines = text_lines(doc.text.as_str());
    if !search_allowed(&lines, word) {
        return Err(Fault::BadSlice);
    }
    let rs = find_word_positions(&lines, word);
    if rs.len() == 0 {
        Ok(None)
    } else {
        Ok(Some(rs))
    }
}

/// The references answer: each occurrence as a location in the document.
pub open spec fn references_spec(d: DocumentState, w: Seq<char>) -> Result<Option<Seq<(Seq<char>, Range)>>, Fault> {
    match occurrences_spec(d, w) {
        Err(e) => Err(e),
        Ok(None) => Ok(None),
        Ok(Some(rs)) => Ok(Some(rs.map_values(|r: Range| (d.uri@, r)))),
    }
}

/// The contents of a list of locations.
pub open spec fn locs_view(v: Seq<Location>) -> Seq<(Seq<char>, Range)> {
    v.map_values(|l: Location| (l.uri@, l.range))
}

/// The contents of a references answer.
pub open spec fn locs_result_view(r: Result<Option<Vec<Location>>, Fault>) -> Result<Option<Seq<(Seq<char>, Range)>>, Fault> {
    match r {
        Ok(Some(v)) => Ok(Some(locs_view(v@))),
        Ok(None) => Ok(None),
        Err(e) => Err(e),
    }
}

/// Every whole-word occurrence in the document of the word under the
/// cursor at `pos`.
pub fn handle_references(doc: &DocumentState, pos: Position) -> (r: Result<Option<Vec<Location>>, Fault>)
    ensures
        locs_result_view(r) == with_cursor_word(
            cursor_word_spec(doc.text@, pos),
            |w: Seq<char>| references_spec(*doc, w),
        ),
{
    let w = match cursor_word(doc.text.as_str(), pos) {
        Err(e) => {
            return Err(e);
        },
        Ok(None) => {
            return Ok(None);
        },
        Ok(Some(w)) => w,
    };
    match occurrences(doc, w.as_str()) {
        Err(e) => Err(e),
        Ok(None) => Ok(None),
        Ok(Some(rs)) => {
            let ghost target = rs@.map_values(|r: Range| (doc.uri@, r));
            let mut out: Vec<Location> = Vec::new();
            let mut i: usize = 0;
            while i < rs.len()
                invariant
                    target == rs@.map_values(|r: Range| (doc.uri@, r)),
                    i <= rs.len(),
                    locs_view(out@) == target.take(i as int),
                decreases rs.len() - i,
            {
                let l = Location { uri: doc.uri.clone(), range: rs[i] };
                let ghost before = locs_view(out@);
                out.push(l);
                assert(locs_view(out@) =~= before.push((l.uri@, l.range)));
                i = i + 1;
                assert(target.take(i as int) =~= target.take(i - 1 as int).push(target[i - 1 as int]));
            }
            assert(target.take(rs.len() as int) =~= target);
            Ok(Some(out))
        },
    }
}

/// How an occurrence is highlighted.
#[derive(Clone, Copy, Debug, PartialEq, Eq, Structural)]
pub enum HighlightKind {
    Read,
    Write,
}

/// An occurrence to highlight.
#[derive(Clone, Copy, Debug, PartialEq, Eq, Structural)]
pub struct Highlight {
    pub range: Range,
    pub kind: HighlightKind,
}

/// Whether a function or variable of the document named `w` is defined on
/// line `line`.
pub open spec fn defined_on_line(d: DocumentState, w: Seq<char>, line: u32) -> bool {
    ||| exists|k: int|
        0 <= k < d.functions@.len() && #[trigger] d.functions@[k].name@ == w
            && d.functions@[k].definition.range.start.line == line
    ||| exists|k: int|
        0 <= k < d.variables@.len() && #[trigger] d.variables@[k].name@ == w
            && d.variables@[k].definition.range.start.line == line
}

/// The highlight of an occurrence: a write on a line where the name is
/// defined, a read elsewhere.
pub open spec fn highlight_of(d: DocumentState, w: Seq<char>, r: Range) -> Highlight {
    Highlight {
        range: r,
        kind: if defined_on_line(d, w, r.start.line) {
            HighlightKind::Write
        } else {
            HighlightKind::Read
        },
    }
}

/// The highlights answer for the word `w`.
pub open spec fn highlights_spec(d: DocumentState, w: Seq<char>) -> Result<Option<Seq<Highlight>>, Fault> {
    match occurrences_spec(d, w) {
        Err(e) => Err(e),
        Ok(None) => Ok(None),
        Ok(Some(rs)) => Ok(Some(rs.map_values(|r: Range| highlight_of(d, w, r)))),
    }
}

/// The contents of a highlights answer.
pub open spec fn highlights_result_view(r: Result<Option<Vec<Highlight>>, Fault>) -> Result<Option<Seq<Highlight>>, Fault> {
    match r {
        Ok(Some(v)) => Ok(Some(v@)),
        Ok(None) => Ok(None),
        Err(e) => Err(e),
    }
}

fn is_defined_on_line(doc: &DocumentState, w: &str, line: u32) -> (r: bool)
    ensures
        r == defined_on_line(*doc, w@, line),
{
    let mut k: usize = 0;
    while k < doc.functions.len()
        invariant
            k <= doc.functions.len(),
            forall|j: int|
                0 <= j < k ==> !(#[trigger] doc.functions@[j].name@ == w@
                    && doc.functions@[j].definition.range.start.line == line),
        decreases doc.functions.len() - k,
    {
        if str_eq(doc.functions[k].name.as_str(), w) && doc.functions[k].definition.range.start.line == line {
            return true;
        }
        k = k + 1;
    }
    let mut k: usize = 0;
    while k < doc.variables.len()
        invariant
            k <= doc.variables.len(),
            forall|j: int|
                0 <= j < doc.functions@.len() ==> !(#[trigger] doc.functions@[j].name@ == w@
                    && doc.functions@[j].definition.range.start.line == line),
            forall|j: int|
                0 <= j < k ==> !(#[trigger] doc.variables@[j].name@ == w@
                    && doc.variables@[j].definition.range.start.line == line),
        decreases doc.variables.len() - k,
    {
        if str_eq(doc.variables[k].name.as_str(), w) && doc.variables[k].definition.range.start.line == line {
            return true;
        }
        k = k + 1;
    }
    false
}

/// The occurrences of the word under the cursor at `pos`, each marked as a
/// write where the name is defined on its line and a read elsewhere.
pub fn handle_document_highlight(doc: &DocumentState, pos: Position) -> (r: Result<Option<Vec<Highlight>>, Fault>)
    ensures
        highlights_result_view(r) == with_cursor_word(
            cursor_word_spec(doc.text@, pos),
            |w: Seq<char>| highlights_spec(*doc, w),
        ),
{
    let w = match cursor_word(doc.text.as_str(), pos) {
        Err(e) => {
            return Err(e);
        },
        Ok(None) => {
            return Ok(None);
        },
        Ok(Some(w)) => w,
    };
    match occurrences(doc, w.as_str()) {
        Err(e) => Err(e),
        Ok(None) => Ok(None),
        Ok(Some(rs)) => {
            let ghost target = rs@.map_values(|r: Range| highlight_of(*doc, w@, r));
            let mut out: Vec<Highlight> = Vec::new();
            let mut i: usize = 0;
            while i < rs.len()
                invariant
                    target == rs@.map_values(|r: Range| highlight_of(*doc, w@, r)),
                    i <= rs.len(),
                    out@ == target.take(i as int),
                decreases rs.len() - i,
            {
                let r = rs[i];
                let kind = if is_defined_on_line(doc, w.as_str(), r.start.line) {
                    HighlightKind::Write
                } else {
                    HighlightKind::Read
                };
                out.push(Highlight { range: r, kind });
                i = i + 1;
                assert(target.take(i as int) =~= target.take(i - 1 as int).push(target[i - 1 as int]));
            }
            assert(target.take(rs.len() as int) =~= target);
            Ok(Some(out))
        },
    }
}

/// A replacement of the text in a range.
#[derive(Debug)]
pub struct TextEdit {
    pub range: Range,
    pub new_text: String,
}

/// The contents of a list of edits.
pub open spec fn edits_view(v: Seq<TextEdit>) -> Seq<(Range, Seq<char>)> {
    v.map_values(|e: TextEdit| (e.range, e.new_text@))
}

/// The rename answer for the word `w`: each occurrence replaced by
/// `new_name`.
pub open spec fn rename_spec(d: DocumentState, w: Seq<char>, new_name: Seq<char>) -> Result<Option<Seq<(Range, Seq<char>)>>, Fault> {
    match occurrences_spec(d, w) {
        Err(e) => Err(e),
        Ok(None) => Ok(None),
        Ok(Some(rs)) => Ok(Some(rs.map_values(|r: Range| (r, new_name)))),
    }
}

/// The contents of a rename answer.
pub open spec fn edits_result_view(r: Result<Option<Vec<TextEdit>>, Fault>) -> Result<Option<Seq<(Range, Seq<char>)>>, Fault> {
    match r {
        Ok(Some(v)) => Ok(Some(edits_view(v@))),
        Ok(None) => Ok(None),
        Err(e) => Err(e),
    }
}

/// The edits that rename every whole-word occurrence of the word under the
/// cursor at `pos` to `new_name`.
pub fn handle_rename(doc: &DocumentState, pos: Position, new_name: &str) -> (r: Result<Option<Vec<TextEdit>>, Fault>)
    ensures
        edits_result_view(r) == with_cursor_word(
            cursor_word_spec(doc.text@, pos),
            |w: Seq<char>| rename_spec(*doc, w, new_name@),
        ),
{
    let w = match cursor_word(doc.text.as_str(), pos) {
        Err(e) => {
            return Err(e);
        },
        Ok(None) => {
            return Ok(None);
        },
        Ok(Some(w)) => w,
    };
    match occurrences(doc, w.as_str()) {
        Err(e) => Err(e),
        Ok(None) => Ok(None),
        Ok(Some(rs)) => {
            let ghost target = rs@.map_values(|r: Range| (r, new_name@));
            let mut out: Vec<TextEdit> = Vec::new();
            let mut i: usize = 0;
            while i < rs.len()
                invariant
                    target == rs@.map_values(|r: Range| (r, new_name@)),
                    i <= rs.len(),
                    edits_view(out@) == target.take(i as int),
                decreases rs.len() - i,
            {
                let e = TextEdit { range: rs[i], new_text: new_name.to_owned() };
                let ghost before = edits_view(out@);
                out.push(e);
                assert(edits_view(out@) =~= before.push((e.range, e.new_text@)));
                i = i + 1;
                assert(target.take(i as int) =~= target.take(i - 1 as int).push(target[i - 1 as int]));
            }
            assert(target.take(rs.len() as int) =~= target);
            Ok(Some(out))
        },
    }
}

// ---------------------------------------------------------------------------
// Folding ranges
// ---------------------------------------------------------------------------

/// What a fold covers.
#[derive(Clone, Copy, Debug, PartialEq, Eq, Structural)]
pub enum FoldKind {
    Region,
    Comment,
}

/// A range of lines that the editor may fold.
#[derive(Debug)]
pub struct Fold {
    pub start_line: u32,
    pub start_character: Option<u32>,
    pub end_line: u32,
    pub end_character: Option<u32>,
    pub kind: FoldKind,
    pub collapsed_text: String,
}

/// The contents of a fold.
pub open spec fn fold_view(f: Fold) -> (u32, Option<u32>, u32, Option<u32>, FoldKind, Seq<char>) {
    (f.start_line, f.start_character, f.end_line, f.end_character, f.kind, f.collapsed_text@)
}

/// The contents of a list of folds.
pub open spec fn folds_view(v: Seq<Fold>) -> Seq<(u32, Option<u32>, u32, Option<u32>, FoldKind, Seq<char>)> {
    v.map_values(|f: Fold| fold_view(f))
}

/// The folds of the functions among `fs[i..]` whose definition spans more
/// than one line.
pub open spec fn function_folds(fs: Seq<UserFunction>, i: int) -> Seq<
    (u32, Option<u32>, u32, Option<u32>, FoldKind, Seq<char>),
>
    decreases fs.len() - i,
{
    if i < 0 || i >= fs.len() {
        seq![]
    } else {
        let r = fs[i].definition.range;
        (if r.start.line < r.end.line {
            seq![
                (
                    r.start.line,
                    Some(r.start.character),
                    r.end.line,
                    Some(r.end.character),
                    FoldKind::Region,
                    fs[i].name@ + "..."@,
                ),
            ]
        } else {
            seq![]
        }) + function_folds(fs, i + 1)
    }
}

/// Whether a line is a line comment once trimmed.
pub open spec fn is_comment_line(l: Seq<char>) -> bool {
    let t = trim_spec(l);
    t.len() >= 2 && t[0] == '/' && t[1] == '/'
}

/// The folds of the runs of comment lines among `lines[i..]`, `start`
/// being where the run that reaches line `i` began: a run of two lines or
/// more that a code line ends is folded.
pub open spec fn comment_folds(lines: Seq<Seq<char>>, i: int, start: Option<int>) -> Seq<
    (u32, Option<u32>, u32, Option<u32>, FoldKind, Seq<char>),
>
    decreases lines.len() - i,
{
    if i < 0 || i >= lines.len() {
        seq![]
    } else if is_comment_line(lines[i]) {
        comment_folds(lines, i + 1, if start is None { Some(i) } else { start })
    } else {
        match start {
            Some(s) => (if i - s > 1 {
                seq![(s as u32, None, (i - 1) as u32, None, FoldKind::Comment, "/* ... */"@)]
            } else {
                seq![]
            }) + comment_folds(lines, i + 1, None),
            None => comment_folds(lines, i + 1, None),
        }
    }
}

/// The folds of a document: its functions that span lines, then its runs
/// of comment lines.
pub open spec fn folds_spec(d: DocumentState) -> Seq<(u32, Option<u32>, u32, Option<u32>, FoldKind, Seq<char>)> {
    function_folds(d.functions@, 0) + comment_folds(lines_spec(d.text@), 0, None)
}

fn is_comment(line: &String) -> (r: bool)
    ensures
        r == is_comment_line(line@),
{
    let chars = chars_of(line.as_str());
    let t = trim_chars(&chars);
    t.len() >= 2 && t[0] == '/' && t[1] == '/'
}

/// The folding ranges of a document, `None` where it has none.
pub fn handle_folding_range(doc: &DocumentState) -> (r: Option<Vec<Fold>>)
    requires
        lines_spec(doc.text@).len() <= u32::MAX,
    ensures
        match r {
            Some(v) => folds_spec(*doc).len() > 0 && folds_view(v@) == folds_spec(*doc),
            None => folds_spec(*doc).len() == 0,
        },
{
    let mut out: Vec<Fold> = Vec::new();
    let mut i: usize = 0;
    while i < doc.functions.len()
        invariant
            i <= doc.functions.len(),
            folds_view(out@) + function_folds(doc.functions@, i as int) == function_folds(doc.functions@, 0),
        decreases doc.functions.len() - i,
    {
        let f = &doc.functions[i];
        let r = f.definition.range;
        if r.start.line < r.end.line {
            let mut text = f.name.clone();
            push_str(&mut text, "...");
            let fold = Fold {
                start_line: r.start.line,
                start_character: Some(r.start.character),
                end_line: r.end.line,
                end_character: Some(r.end.character),
                kind: FoldKind::Region,
                collapsed_text: text,
            };
            let ghost before = folds_view(out@);
            out.push(fold);
            assert(folds_view(out@) =~= before.push(fold_view(fold)));
        }
        i = i + 1;
    }
    let ghost funcs_part = folds_view(out@);
    assert(funcs_part =~= function_folds(doc.functions@, 0));
    let lines = text_lines(doc.text.as_str());
    let ghost ls = lines_spec(doc.text@);
    let mut start: Option<usize> = None;
    let mut k: usize = 0;
    while k < lines.len()
        invariant
            ls == lines_spec(doc.text@),
            string_views(lines@) == ls,
            ls.len() <= u32::MAX,
            k <= lines.len(),
            start matches Some(s) ==> s < k,
            folds_view(out@) + comment_folds(ls, k as int, opt_index(start)) == funcs_part
                + comment_folds(ls, 0, None),
        decreases lines.len() - k,
    {
        assert(lines@[k as int]@ == ls[k as int]);
        if is_comment(&lines[k]) {
            if start.is_none() {
                start = Some(k);
            }
        } else {
            match start {
                Some(s) => {
                    if k - s > 1 {
                        let fold = Fold {
                            start_line: s as u32,
                            start_character: None,
                            end_line: (k - 1) as u32,
                            end_character: None,
                            kind: FoldKind::Comment,
                            collapsed_text: "/* ... */".to_owned(),
                        };
                        let ghost before = folds_view(out@);
                        out.push(fold);
                        assert(folds_view(out@) =~= before.push(fold_view(fold)));
                    }
                },
                None => {},
            }
            start = None;
        }
        k = k + 1;
    }
    assert(folds_view(out@) =~= folds_view(out@) + comment_folds(ls, k as int, opt_index(start)));
    if out.len() == 0 {
        None
    } else {
        Some(out)
    }
}

// ---------------------------------------------------------------------------
// Reference counts
// ---------------------------------------------------------------------------

/// A reference count shown above a definition.
#[derive(Debug)]
pub struct Lens {
    pub range: Range,
    pub title: String,
    /// The editor command that shows the references.
    pub command: String,
}

/// The contents of a lens: range, title and command.
pub open spec fn lens_view(l: Lens) -> (Range, Seq<char>, Seq<char>) {
    (l.range, l.title@, l.command@)
}

/// The contents of a list of lenses.
pub open spec fn lenses_view(v: Seq<Lens>) -> Seq<(Range, Seq<char>, Seq<char>)> {
    v.map_values(|l: Lens| lens_view(l))
}

/// The title for `n` references.
pub open spec fn reference_title(n: nat) -> Seq<char> {
    if n == 1 {
        "1 reference"@
    } else {
        decimal(n) + " references"@
    }
}

/// The lens of a definition at `def` with the name `name`: the number of
/// its whole-word occurrences that start outside the definition.
pub open spec fn lens_of(lines: Seq<Seq<char>>, name: Seq<char>, def: Range) -> (Range, Seq<char>, Seq<char>) {
    (
        Range { start: Position { line: def.start.line, character: 0 }, end: def.start },
        reference_title(count_outside(word_positions(lines, name), def)),
        "editor.action.showReferences"@,
    )
}

/// Whether the occurrences of every function and variable name of the
/// document can be searched for.
pub open spec fn names_searchable(d: DocumentState) -> bool {
    &&& forall|i: int|
        0 <= i < d.functions@.len() ==> word_search_ok(lines_spec(d.text@), #[trigger] d.functions@[i].name@)
    &&& forall|i: int|
        0 <= i < d.variables@.len() ==> word_search_ok(lines_spec(d.text@), #[trigger] d.variables@[i].name@)
}

/// The lenses of a document: one for each function, then each variable.
pub open spec fn lenses_spec(d: DocumentState) -> Seq<(Range, Seq<char>, Seq<char>)> {
    let ls = lines_spec(d.text@);
    d.functions@.map_values(|f: UserFunction| lens_of(ls, f.name@, f.definition.range))
        + d.variables@.map_values(|v: UserVariable| lens_of(ls, v.name@, v.definition.range))
}

/// The contents of a lenses answer.
pub open spec fn lenses_result_view(r: Result<Option<Vec<Lens>>, Fault>) -> Result<Option<Seq<(Range, Seq<char>, Seq<char>)>>, Fault> {
    match r {
        Ok(Some(v)) => Ok(Some(lenses_view(v@))),
        Ok(None) => Ok(None),
        Err(e) => Err(e),
    }
}

/// The lenses answer: `Err` where some name cannot be searched for,
/// `None` for a document without symbols.
pub open spec fn code_lens_spec(d: DocumentState) -> Result<Option<Seq<(Range, Seq<char>, Seq<char>)>>, Fault> {
    if !names_searchable(d) {
        Err(Fault::BadSlice)
    } else if lenses_spec(d).len() == 0 {
        Ok(None)
    } else {
        Ok(Some(lenses_spec(d)))
    }
}

fn make_lens(lines: &Vec<String>, name: &String, def: Range) -> (r: Lens)
    requires
        word_search_ok(string_views(lines@), name@),
    ensures
        lens_view(r) == lens_of(string_views(lines@), name@, def),
{
    let positions = find_word_positions(lines, name.as_str());
    let n = count_refs_outside(&positions, &def);
    let mut title = String::new();
    if n == 1 {
        push_str(&mut title, "1 reference");
    } else {
        push_decimal(&mut title, n as u64);
        push_str(&mut title, " references");
    }
    Lens {
        range: Range { start: Position { line: def.start.line, character: 0 }, end: def.start },
        title,
        command: "editor.action.showReferences".to_owned(),
    }
}

/// A lens above each function and each variable of the document with the
/// number of its references.
pub fn handle_code_lens(doc: &DocumentState) -> (r: Result<Option<Vec<Lens>>, Fault>)
    ensures
        lenses_result_view(r) == code_lens_spec(*doc),
{
    let lines = text_lines(doc.text.as_str());
    let ghost ls = lines_spec(doc.text@);
    let ghost fl = doc.functions@.map_values(|f: UserFunction| lens_of(ls, f.name@, f.definition.range));
    let ghost vl = doc.variables@.map_values(|v: UserVariable| lens_of(ls, v.name@, v.definition.range));
    let mut out: Vec<Lens> = Vec::new();
    let mut i: usize = 0;
    while i < doc.functions.len()
        invariant
            string_views(lines@) == ls,
            ls == lines_spec(doc.text@),
            fl == doc.functions@.map_values(|f: UserFunction| lens_of(ls, f.name@, f.definition.range)),
            i <= doc.functions.len(),
            forall|j: int| 0 <= j < i ==> word_search_ok(ls, #[trigger] doc.functions@[j].name@),
            lenses_view(out@) == fl.take(i as int),
        decreases doc.functions.len() - i,
    {
        let f = &doc.functions[i];
        if !search_allowed(&lines, f.name.as_str()) {
            return Err(Fault::BadSlice);
        }
        let l = make_lens(&lines, &f.name, f.definition.range);
        let ghost before = lenses_view(out@);
        out.push(l);
        assert(lenses_view(out@) =~= before.push(lens_view(l)));
        i = i + 1;
        assert(fl.take(i as int) =~= fl.take(i - 1 as int).push(fl[i - 1 as int]));
    }
    assert(fl.take(doc.functions.len() as int) =~= fl);
    let mut j: usize = 0;
    while j < doc.variables.len()
        invariant
            string_views(lines@) == ls,
            ls == lines_spec(doc.text@),
            vl == doc.variables@.map_values(|v: UserVariable| lens_of(ls, v.name@, v.definition.range)),
            j <= doc.variables.len(),
            forall|t: int| 0 <= t < doc.functions@.len() ==> word_search_ok(ls, #[trigger] doc.functions@[t].name@),
            forall|t: int| 0 <= t < j ==> word_search_ok(ls, #[trigger] doc.variables@[t].name@),
            lenses_view(out@) == fl + vl.take(j as int),
        decreases doc.variables.len() - j,
    {
        let v = &doc.variables[j];
        if !search_allowed(&lines, v.name.as_str()) {
            return Err(Fault::BadSlice);
        }
        let l = make_lens(&lines, &v.name, v.definition.range);
        let ghost before = lenses_view(out@);
        out.push(l);
        assert(lenses_view(out@) =~= before.push(lens_view(l)));
        j = j + 1;
        assert(vl.take(j as int) =~= vl.take(j - 1 as int).push(vl[j - 1 as int]));
    }
    assert(vl.take(doc.variables.len() as int) =~= vl);
    if out.len() == 0 {
        Ok(None)
    } else {
        Ok(Some(out))
    }
}

// ---------------------------------------------------------------------------
// Formatting
// ---------------------------------------------------------------------------

/// The formatting answer for `text`: nothing where it is already formatted,
/// else one edit that replaces everything from the start up to the end of
/// its last line (its line count and the byte length of its last line).
pub open spec fn formatting_spec(text: Seq<char>) -> Option<(Range, Seq<char>)> {
    let f = crate::formatter::format_spec(text);
    let ls = lines_spec(text);
    if f == text {
        None
    } else {
        Some(
            (
                Range {
                    start: Position { line: 0, character: 0 },
                    end: Position {
                        line: ls.len() as u32,
                        character: if ls.len() > 0 {
                            encode_utf8(ls.last()).len() as u32
                        } else {
                            0
                        },
                    },
                },
                f,
            ),
        )
    }
}

/// The edit that formats the whole document, if it changes anything.
pub fn handle_formatting(text: &str) -> (r: Option<TextEdit>)
    ensures
        match r {
            Some(e) => formatting_spec(text@) == Some((e.range, e.new_text@)),
            None => formatting_spec(text@) is None,
        },
{
    let formatted = crate::formatter::format_source(text);
    if str_eq(formatted.as_str(), text) {
        return None;
    }
    let lines = text_lines(text);
    let count = lines.len();
    let last_len = if count > 0 {
        lines[count - 1].as_str().as_bytes().len()
    } else {
        0
    };
    proof {
        if count > 0 {
            assert(lines@[count - 1]@ == lines_spec(text@).last());
        }
    }
    Some(
        TextEdit {
            range: Range {
                start: Position { line: 0, character: 0 },
                end: Position { line: count as u32, character: last_len as u32 },
            },
            new_text: formatted,
        },
    )
}

// ---------------------------------------------------------------------------
// Laws across requests
// ---------------------------------------------------------------------------

/// A rename edits exactly the places that the references request lists:
/// both fail together or answer nothing together, and otherwise the edits
/// are the references' ranges, in order, each replaced by the new name.
pub proof fn law_rename_edits_references(d: DocumentState, pos: Position, new_name: Seq<char>)
    ensures
        ({
            let refs = with_cursor_word(cursor_word_spec(d.text@, pos), |w: Seq<char>| references_spec(d, w));
            let edits = with_cursor_word(cursor_word_spec(d.text@, pos), |w: Seq<char>| rename_spec(d, w, new_name));
            &&& refs is Err <==> edits is Err
            &&& refs == Ok::<Option<Seq<(Seq<char>, Range)>>, Fault>(None) <==> edits == Ok::<Option<Seq<(Range, Seq<char>)>>, Fault>(None)
            &&& refs matches Ok(Some(ls)) ==> (edits matches Ok(Some(es)) && es.len() == ls.len() && forall|k: int|
                0 <= k < es.len() ==> #[trigger] es[k].0 == ls[k].1 && es[k].1 == new_name && ls[k].0 == d.uri@)
        }),
{
}

/// The highlights of a word are its references: the same ranges in the
/// same order.
pub proof fn law_highlights_are_references(d: DocumentState, pos: Position)
    ensures
        ({
            let refs = with_cursor_word(cursor_word_spec(d.text@, pos), |w: Seq<char>| references_spec(d, w));
            let hs = with_cursor_word(cursor_word_spec(d.text@, pos), |w: Seq<char>| highlights_spec(d, w));
            &&& refs is Err <==> hs is Err
            &&& refs matches Ok(Some(ls)) ==> (hs matches Ok(Some(h)) && h.len() == ls.len() && forall|k: int|
                0 <= k < h.len() ==> #[trigger] h[k].range == ls[k].1)
            &&& refs == Ok::<Option<Seq<(Seq<char>, Range)>>, Fault>(None) <==> hs == Ok::<Option<Seq<Highlight>>, Fault>(None)
        }),
{
}


// ---------------------------------------------------------------------------
// What the answers hold
// ---------------------------------------------------------------------------

proof fn lemma_first_name_from(names: Seq<Seq<char>>, w: Seq<char>, i: int)
    requires
        0 <= i,
    ensures
        first_name_from(names, w, i) matches Some(k) ==> i <= k < names.len() && names[k] == w
            && forall|j: int| i <= j < k ==> names[j] != w,
        first_name_from(names, w, i) is None ==> forall|j: int| i <= j < names.len() ==> names[j] != w,
    decreases names.len() - i,
{
    if i < names.len() && names[i] != w {
        lemma_first_name_from(names, w, i + 1);
    }
}

/// The first of `names` equal to `w` is at `k` exactly where `names[k]` is
/// `w` and no earlier name is.
proof fn lemma_first_name(names: Seq<Seq<char>>, w: Seq<char>)
    ensures
        first_name(names, w) matches Some(k) ==> 0 <= k < names.len() && names[k] == w
            && forall|j: int| 0 <= j < k ==> names[j] != w,
        first_name(names, w) is None ==> forall|j: int| 0 <= j < names.len() ==> names[j] != w,
{
    lemma_first_name_from(names, w, 0);
}

proof fn lemma_first_name_at(names: Seq<Seq<char>>, w: Seq<char>, i: int)
    requires
        0 <= i < names.len(),
        names[i] == w,
        forall|j: int| 0 <= j < i ==> names[j] != w,
    ensures
        first_name(names, w) == Some(i),
{
    lemma_first_name(names, w);
    match first_name(names, w) {
        Some(k) => {
            if k < i {
                assert(names[k] != w);
            }
            if k > i {
                assert(names[i] != w);
            }
        },
        None => {
            assert(names[i] != w);
        },
    }
}

proof fn lemma_no_name(names: Seq<Seq<char>>, w: Seq<char>)
    requires
        forall|j: int| 0 <= j < names.len() ==> names[j] != w,
    ensures
        first_name(names, w) is None,
{
    lemma_first_name(names, w);
    if first_name(names, w) is Some {
        let k = first_name(names, w)->0;
        assert(names[k] == w);
    }
}

/// Go to definition on the name of a function of the document leads to the
/// first function of that name, where its URI parses.
pub proof fn law_definition_of_function(d: DocumentState, f: Features, w: Seq<char>, i: int)
    requires
        w.len() > 0,
        0 <= i < d.functions@.len(),
        d.functions@[i].name@ == w,
        forall|j: int| 0 <= j < i ==> #[trigger] d.functions@[j].name@ != w,
        url_parses(d.functions@[i].definition.uri@),
    ensures
        definition_spec(d, f, w) == Some((d.functions@[i].definition.uri@, d.functions@[i].definition.range)),
{
    let names = func_names(d.functions@);
    assert forall|j: int| 0 <= j < i implies names[j] != w by {
        assert(names[j] == d.functions@[j].name@);
    }
    lemma_first_name_at(names, w, i);
}

/// Go to definition on a word that names no function (nor macro, with the
/// macros feature) of the document but names a variable of it leads to the
/// first variable of that name, where its URI parses.
pub proof fn law_definition_of_variable(d: DocumentState, f: Features, w: Seq<char>, i: int)
    requires
        w.len() > 0,
        0 <= i < d.variables@.len(),
        d.variables@[i].name@ == w,
        forall|j: int| 0 <= j < i ==> #[trigger] d.variables@[j].name@ != w,
        forall|k: int| 0 <= k < d.functions@.len() ==> #[trigger] d.functions@[k].name@ != w,
        f.macros ==> forall|k: int| 0 <= k < d.macros@.len() ==> #[trigger] d.macros@[k].name@ != w,
        url_parses(d.variables@[i].definition.uri@),
    ensures
        definition_spec(d, f, w) == Some((d.variables@[i].definition.uri@, d.variables@[i].definition.range)),
{
    let fnames = func_names(d.functions@);
    assert forall|j: int| 0 <= j < fnames.len() implies fnames[j] != w by {
        assert(fnames[j] == d.functions@[j].name@);
    }
    lemma_no_name(fnames, w);
    if f.macros {
        let mnames = macro_names(d.macros@);
        assert forall|j: int| 0 <= j < mnames.len() implies mnames[j] != w by {
            assert(mnames[j] == d.macros@[j].name@);
        }
        lemma_no_name(mnames, w);
    }
    let vnames = var_names(d.variables@);
    assert forall|j: int| 0 <= j < i implies vnames[j] != w by {
        assert(vnames[j] == d.variables@[j].name@);
    }
    lemma_first_name_at(vnames, w, i);
}

/// Whether `h` ends with a blank line followed by `doc`.
pub open spec fn ends_with_doc(h: Seq<char>, doc: Seq<char>) -> bool {
    h.len() >= doc.len() + 2 && h.subrange(h.len() - doc.len() - 2, h.len() as int) == "\n\n"@ + doc
}

proof fn lemma_ends_with_doc(a: Seq<char>, doc: Seq<char>)
    ensures
        ends_with_doc(a + ("\n\n"@ + doc), doc),
{
    reveal_strlit("\n\n");
    let h = a + ("\n\n"@ + doc);
    assert(h.subrange(h.len() - doc.len() - 2, h.len() as int) =~= "\n\n"@ + doc);
}

/// The hover text of a function of the document ends with its
/// documentation, after a blank line.
pub proof fn law_hover_shows_function_doc(d: DocumentState, bs: Seq<BuiltinFunction>, w: Seq<char>, i: int, doc: Seq<char>)
    requires
        w.len() > 0,
        0 <= i < d.functions@.len(),
        d.functions@[i].name@ == w,
        forall|j: int| 0 <= j < i ==> #[trigger] d.functions@[j].name@ != w,
        opt_view(d.functions@[i].documentation) == Some(doc),
    ensures
        hover_spec(d, bs, w) matches Some(h) && ends_with_doc(h, doc),
{
    let names = func_names(d.functions@);
    assert forall|j: int| 0 <= j < i implies names[j] != w by {
        assert(names[j] == d.functions@[j].name@);
    }
    lemma_first_name_at(names, w, i);
    let fx = d.functions@[i];
    lemma_ends_with_doc(
        "```gpc\nfunction "@ + fx.name@ + "("@ + join_with(string_views(fx.parameters@), ", "@) + ")\n```"@,
        doc,
    );
}

/// The hover text of a word that names a variable of the document and no
/// function of it ends with the variable's documentation, after a blank
/// line.
pub proof fn law_hover_shows_variable_doc(d: DocumentState, bs: Seq<BuiltinFunction>, w: Seq<char>, i: int, doc: Seq<char>)
    requires
        w.len() > 0,
        0 <= i < d.variables@.len(),
        d.variables@[i].name@ == w,
        forall|j: int| 0 <= j < i ==> #[trigger] d.variables@[j].name@ != w,
        forall|k: int| 0 <= k < d.functions@.len() ==> #[trigger] d.functions@[k].name@ != w,
        opt_view(d.variables@[i].documentation) == Some(doc),
    ensures
        hover_spec(d, bs, w) matches Some(h) && ends_with_doc(h, doc),
{
    let fnames = func_names(d.functions@);
    assert forall|j: int| 0 <= j < fnames.len() implies fnames[j] != w by {
        assert(fnames[j] == d.functions@[j].name@);
    }
    lemma_no_name(fnames, w);
    let vnames = var_names(d.variables@);
    assert forall|j: int| 0 <= j < i implies vnames[j] != w by {
        assert(vnames[j] == d.variables@[j].name@);
    }
    lemma_first_name_at(vnames, w, i);
    let v = d.variables@[i];
    lemma_ends_with_doc(
        "```gpc\n"@ + (match v.data_type {
            Some(dt) => data_type_label(dt),
            None => "unknown"@,
        }) + " "@ + v.name@ + "\n```"@,
        doc,
    );
}

/// Signature help for a call of a name that no built-in has but a function
/// of the document has shows the first such function: its name first, its
/// parameters, its documentation, and the argument being written.
pub proof fn law_signature_of_function(d: DocumentState, bs: Seq<BuiltinFunction>, name: Seq<char>, active: int, i: int)
    requires
        forall|k: int| 0 <= k < bs.len() ==> #[trigger] bs[k].name@ != name,
        0 <= i < d.functions@.len(),
        d.functions@[i].name@ == name,
        forall|j: int| 0 <= j < i ==> #[trigger] d.functions@[j].name@ != name,
    ensures
        signature_for(d, bs, name, active) matches Some(s) && s.0.take(name.len() as int) == name
            && s.1 == opt_view(d.functions@[i].documentation) && s.2 == string_views(d.functions@[i].parameters@)
            && s.3 == active as u32,
{
    let bnames = builtin_names(bs);
    assert forall|j: int| 0 <= j < bnames.len() implies bnames[j] != name by {
        assert(bnames[j] == bs[j].name@);
    }
    lemma_no_name(bnames, name);
    let names = func_names(d.functions@);
    assert forall|j: int| 0 <= j < i implies names[j] != name by {
        assert(names[j] == d.functions@[j].name@);
    }
    lemma_first_name_at(names, name, i);
    let fx = d.functions@[i];
    let label = signature_label(fx.name@, fx.parameters@);
    assert(label.take(name.len() as int) =~= name);
}

/// Signature help for a call of a built-in shows the first built-in of that
/// name: its name first, its parameters, its description as the
/// documentation, and the argument being written.
pub proof fn law_signature_of_builtin(d: DocumentState, bs: Seq<BuiltinFunction>, name: Seq<char>, active: int, i: int)
    requires
        0 <= i < bs.len(),
        bs[i].name@ == name,
        forall|j: int| 0 <= j < i ==> #[trigger] bs[j].name@ != name,
    ensures
        signature_for(d, bs, name, active) matches Some(s) && s.0.take(name.len() as int) == name
            && s.1 == Some(bs[i].description@) && s.2 == string_views(bs[i].parameters@) && s.3 == active as u32,
{
    let bnames = builtin_names(bs);
    assert forall|j: int| 0 <= j < i implies bnames[j] != name by {
        assert(bnames[j] == bs[j].name@);
    }
    lemma_first_name_at(bnames, name, i);
    let label = signature_label(bs[i].name@, bs[i].parameters@);
    assert(label.take(name.len() as int) =~= name);
}

/// A signature that signature help shows belongs to a built-in or to a
/// function of the document: its documentation and parameters are that
/// built-in's description and parameters, or that function's documentation
/// and parameters.
pub proof fn law_signature_belongs(d: DocumentState, bs: Seq<BuiltinFunction>, pos: Position)
    ensures
        signature_help_spec(d, bs, pos) matches Ok(Some(s)) ==> (exists|k: int|
            0 <= k < bs.len() && s.1 == Some((#[trigger] bs[k]).description@) && s.2 == string_views(bs[k].parameters@))
            || (exists|k: int|
            0 <= k < d.functions@.len() && s.1 == opt_view((#[trigger] d.functions@[k]).documentation) && s.2
                == string_views(d.functions@[k].parameters@)),
{
    match line_at(d.text@, pos.line as int) {
        None => {},
        Some(l) => match call_at_cursor(before_cursor(l, pos.character as int)) {
            Ok(Some((name, active))) => {
                lemma_first_name(builtin_names(bs), name);
                lemma_first_name(func_names(d.functions@), name);
                match first_name(builtin_names(bs), name) {
                    Some(k) => {
                        assert(bs[k] == bs[k]);
                    },
                    None => match first_name(func_names(d.functions@), name) {
                        Some(k) => {
                            assert(d.functions@[k] == d.functions@[k]);
                        },
                        None => {},
                    },
                }
            },
            _ => {},
        },
    }
}

/// Whether a line, trimmed, starts with `//`.
pub open spec fn starts_with_comment(l: Seq<char>) -> bool {
    let t = trim_spec(l);
    t.len() >= 2 && t[0] == '/' && t[1] == '/'
}

proof fn lemma_folds_reach(lines: Seq<Seq<char>>, i: int, start: Option<int>, s: int) -> (x: Seq<(u32, Option<u32>, u32, Option<u32>, FoldKind, Seq<char>)>)
    requires
        0 <= i <= s <= lines.len(),
        i == s ==> start is None,
        s > 0 ==> !starts_with_comment(lines[s - 1]),
    ensures
        comment_folds(lines, i, start) == x + comment_folds(lines, s, None),
    decreases s - i,
{
    if i == s {
        seq![]
    } else if starts_with_comment(lines[i]) {
        assert(i + 1 < s);
        lemma_folds_reach(lines, i + 1, if start is None { Some(i) } else { start }, s)
    } else {
        let head: Seq<(u32, Option<u32>, u32, Option<u32>, FoldKind, Seq<char>)> = match start {
            Some(st) => if i - st > 1 {
                seq![(st as u32, None, (i - 1) as u32, None, FoldKind::Comment, "/* ... */"@)]
            } else {
                seq![]
            },
            None => seq![],
        };
        let x2 = lemma_folds_reach(lines, i + 1, None, s);
        assert(comment_folds(lines, i, start) == head + comment_folds(lines, i + 1, None));
        assert(head + (x2 + comment_folds(lines, s, None)) =~= (head + x2) + comment_folds(lines, s, None));
        head + x2
    }
}

proof fn lemma_folds_run(lines: Seq<Seq<char>>, k: int, s: int, e: int)
    requires
        0 <= s < k <= e < lines.len(),
        e - s > 1,
        forall|q: int| k <= q < e ==> #[trigger] starts_with_comment(lines[q]),
        !starts_with_comment(lines[e]),
    ensures
        comment_folds(lines, k, Some(s)) == seq![(s as u32, None::<u32>, (e - 1) as u32, None::<u32>, FoldKind::Comment, "/* ... */"@)]
            + comment_folds(lines, e + 1, None),
    decreases e - k,
{
    if k < e {
        assert(starts_with_comment(lines[k]));
        lemma_folds_run(lines, k + 1, s, e);
    }
}

/// A run of two or more lines that, trimmed, start with `//` (indented or
/// not), with a line before it (if any) and a line after it that do not,
/// is folded as a comment from its first line to its last.
pub proof fn law_comment_runs_fold(d: DocumentState, s: int, e: int)
    requires
        0 <= s,
        s + 2 <= e < lines_spec(d.text@).len(),
        forall|q: int| s <= q < e ==> #[trigger] starts_with_comment(lines_spec(d.text@)[q]),
        !starts_with_comment(lines_spec(d.text@)[e]),
        s > 0 ==> !starts_with_comment(lines_spec(d.text@)[s - 1]),
    ensures
        exists|j: int|
            0 <= j < folds_spec(d).len() && #[trigger] folds_spec(d)[j] == (s as u32, None::<u32>, (e - 1) as u32, None::<u32>, FoldKind::Comment, "/* ... */"@),
{
    let lines = lines_spec(d.text@);
    let x = lemma_folds_reach(lines, 0, None, s);
    assert(starts_with_comment(lines[s]));
    assert(comment_folds(lines, s, None) == comment_folds(lines, s + 1, Some(s)));
    lemma_folds_run(lines, s + 1, s, e);
    let ff = function_folds(d.functions@, 0);
    let fold = (s as u32, None::<u32>, (e - 1) as u32, None::<u32>, FoldKind::Comment, "/* ... */"@);
    let j: int = ff.len() as int + x.len() as int;
    assert(folds_spec(d) == ff + (x + (seq![fold] + comment_folds(lines, e + 1, None))));
    assert(folds_spec(d)[j] == fold);
}

proof fn lemma_folds_same_trim(l1: Seq<Seq<char>>, l2: Seq<Seq<char>>, i: int, start: Option<int>)
    requires
        0 <= i,
        l1.len() == l2.len(),
        forall|q: int| 0 <= q < l1.len() ==> #[trigger] trim_spec(l1[q]) == trim_spec(l2[q]),
    ensures
        comment_folds(l1, i, start) == comment_folds(l2, i, start),
    decreases l1.len() - i,
{
    if i < l1.len() {
        assert(trim_spec(l1[i]) == trim_spec(l2[i]));
        let ns = if is_comment_line(l1[i]) {
            if start is None { Some(i) } else { start }
        } else {
            None
        };
        lemma_folds_same_trim(l1, l2, i + 1, ns);
        lemma_folds_same_trim(l1, l2, i + 1, None);
    }
}

/// Comment folds depend only on the lines with their surrounding
/// whitespace trimmed: two documents with the same functions whose lines
/// trim to the same texts get the same folds, so indenting a comment does
/// not change them.
pub proof fn law_folds_ignore_indentation(d1: DocumentState, d2: DocumentState)
    requires
        d1.functions@ == d2.functions@,
        lines_spec(d1.text@).len() == lines_spec(d2.text@).len(),
        forall|q: int| 0 <= q < lines_spec(d1.text@).len() ==> #[trigger] trim_spec(lines_spec(d1.text@)[q])
            == trim_spec(lines_spec(d2.text@)[q]),
    ensures
        folds_spec(d1) == folds_spec(d2),
{
    lemma_folds_same_trim(lines_spec(d1.text@), lines_spec(d2.text@), 0, None);
}

} // verus!
