//! The problems the language server reports for a document: syntax errors,
//! duplicate and unused definitions, naming hints, assignments to immutable
//! names, shadowed parameters, undefined names, wrong argument counts and
//! macro calls that lack a body.
use vstd::prelude::*;
use vstd::utf8::encode_utf8;
use crate::types::{Position, Range, Location, UserFunction, UserMacro, UserVariable, VariableKind, Mutability, Features, DocumentState};
use crate::strings::{push_str, push_decimal, decimal};
use crate::search::{is_upper_snake_case, is_upper_snake_spec, find_word_positions, word_positions, in_range_spec, is_position_in_range, word_search_ok, search_allowed, ScanEnd, scan_lines, scan_for_word};
use crate::text::{lines_spec, text_lines, string_views};
use crate::data::BuiltinFunction;
use crate::parser::{error_views, triple_views, call_views, macro_call_views};

verus! {

/// How serious a reported problem is.
#[derive(Clone, Copy, Debug, PartialEq, Eq, Structural)]
pub enum Severity {
    Error,
    Warning,
    Hint,
}

/// A second place that a problem refers to.
#[derive(Debug)]
pub struct RelatedInformation {
    pub location: Location,
    pub message: String,
}

/// A problem found in a document.
#[derive(Debug)]
pub struct Diagnostic {
    pub range: Range,
    pub severity: Severity,
    pub code: String,
    pub message: String,
    pub related_information: Option<RelatedInformation>,
    /// Marks code that is never used.
    pub unnecessary: bool,
}

/// The contents of a [`RelatedInformation`].
pub struct RelatedView {
    pub uri: Seq<char>,
    pub range: Range,
    pub message: Seq<char>,
}

/// The contents of a [`Diagnostic`].
pub struct DiagView {
    pub range: Range,
    pub severity: Severity,
    pub code: Seq<char>,
    pub message: Seq<char>,
    pub related: Option<RelatedView>,
    pub unnecessary: bool,
}

impl View for Diagnostic {
    type V = DiagView;

    open spec fn view(&self) -> DiagView {
        DiagView {
            range: self.range,
            severity: self.severity,
            code: self.code@,
            message: self.message@,
            related: match self.related_information {
                Some(r) => Some(
                    RelatedView { uri: r.location.uri@, range: r.location.range, message: r.message@ },
                ),
                None => None,
            },
            unnecessary: self.unnecessary,
        }
    }
}

/// The contents of a list of diagnostics.
pub open spec fn diag_views(d: Seq<Diagnostic>) -> Seq<DiagView> {
    d.map_values(|x: Diagnostic| x@)
}

/// A diagnostic with no related information.
pub open spec fn plain_diag(range: Range, severity: Severity, code: Seq<char>, message: Seq<char>) -> DiagView {
    DiagView { range, severity, code, message, related: None, unnecessary: false }
}

fn diag(range: Range, severity: Severity, code: &str, message: String) -> (d: Diagnostic)
    ensures
        d@ == plain_diag(range, severity, code@, message@),
{
    let mut c = String::new();
    push_str(&mut c, code);
    Diagnostic { range, severity, code: c, message, related_information: None, unnecessary: false }
}

fn push_diag(out: &mut Vec<Diagnostic>, d: Diagnostic)
    ensures
        diag_views(final(out)@) == diag_views(old(out)@).push(d@),
{
    let ghost before = diag_views(out@);
    out.push(d);
    assert(diag_views(out@) =~= before.push(d@));
}

fn copy_string(s: &String) -> (r: String)
    ensures
        r@ == s@,
{
    s.clone()
}

/// The range that starts at (`line`, `col`) and spans `len` characters.
pub open spec fn span(line: int, col: int, len: int) -> Range {
    Range {
        start: Position { line: line as u32, character: col as u32 },
        end: Position { line: line as u32, character: (col + len) as u32 },
    }
}

fn make_span(line: usize, col: usize, len: usize) -> (r: Range)
    ensures
        r == span(line as int, col as int, len as int),
{
    let end = (col as u128 + len as u128) as u32;
    Range {
        start: Position { line: line as u32, character: col as u32 },
        end: Position { line: line as u32, character: end },
    }
}

/// The byte length of a name.
pub open spec fn byte_len(s: Seq<char>) -> int {
    encode_utf8(s).len() as int
}

fn name_byte_len(s: &String) -> (n: usize)
    ensures
        n == byte_len(s@),
{
    s.as_str().as_bytes().len()
}

// ---------------------------------------------------------------------------
// Syntax errors
// ---------------------------------------------------------------------------

/// The diagnostic for a syntax error reported at (`line`, `col`).
pub open spec fn syntax_error_diag(line: int, col: int, message: Seq<char>) -> DiagView {
    plain_diag(span(line, col, 1), Severity::Error, "syntax-error"@, message)
}

/// The diagnostics for the syntax errors that the parser found.
pub open spec fn syntax_error_diags(errors: Seq<(int, int, Seq<char>)>) -> Seq<DiagView> {
    errors.map_values(|e: (int, int, Seq<char>)| syntax_error_diag(e.0, e.1, e.2))
}

/// The diagnostics for the syntax errors that the parser found.
pub fn syntax_errors_to_diagnostics(errors: Vec<(usize, usize, String)>) -> (r: Vec<Diagnostic>)
    ensures
        diag_views(r@) == syntax_error_diags(error_views(errors@)),
{
    let mut out: Vec<Diagnostic> = Vec::new();
    let mut i: usize = 0;
    let n = errors.len();
    let ghost raw = errors@;
    let ghost all = error_views(errors@);
    let mut errors = errors;
    while i < n
        invariant
            n == all.len(),
            i <= n,
            errors@ == raw,
            all == error_views(raw),
            diag_views(out@) == syntax_error_diags(all).take(i as int),
        decreases n - i,
    {
        let (line, col, ref message) = errors[i];
        let m = copy_string(message);
        let d = diag(make_span(line, col, 1), Severity::Error, "syntax-error", m);
        push_diag(&mut out, d);
        i = i + 1;
        assert(syntax_error_diags(all).take(i as int) =~= syntax_error_diags(all).take(
            i - 1 as int,
        ).push(syntax_error_diag(all[i - 1].0, all[i - 1].1, all[i - 1].2)));
    }
    assert(syntax_error_diags(all).take(n as int) =~= syntax_error_diags(all));
    out
}

// ---------------------------------------------------------------------------
// Naming convention of constants
// ---------------------------------------------------------------------------

/// The naming hint for an enum member whose name is not in
/// UPPER_SNAKE_CASE.
pub open spec fn enum_case_diag(v: UserVariable) -> DiagView {
    plain_diag(
        v.definition.range,
        Severity::Hint,
        "enum-case"@,
        "Constant '"@ + v.name@ + "' should use UPPER_SNAKE_CASE naming convention"@,
    )
}

/// The naming hints for `vars[i..]`.
pub open spec fn enum_case_from(vars: Seq<UserVariable>, i: int) -> Seq<DiagView>
    decreases vars.len() - i,
{
    if i < 0 || i >= vars.len() {
        seq![]
    } else {
        (if vars[i].kind == VariableKind::EnumMember && !is_upper_snake_spec(vars[i].name@) {
            seq![enum_case_diag(vars[i])]
        } else {
            seq![]
        }) + enum_case_from(vars, i + 1)
    }
}

/// A hint for each enum member whose name is not in UPPER_SNAKE_CASE.
pub fn check_enum_case(vars: &Vec<UserVariable>) -> (r: Vec<Diagnostic>)
    ensures
        diag_views(r@) == enum_case_from(vars@, 0),
{
    let mut out: Vec<Diagnostic> = Vec::new();
    let mut i: usize = 0;
    while i < vars.len()
        invariant
            i <= vars.len(),
            enum_case_from(vars@, 0) == diag_views(out@) + enum_case_from(vars@, i as int),
        decreases vars.len() - i,
    {
        let v = &vars[i];
        let ghost before = diag_views(out@);
        let is_member = match v.kind {
            VariableKind::EnumMember => true,
            _ => false,
        };
        if is_member && !is_upper_snake_case(v.name.as_str()) {
            let mut m = String::new();
            push_str(&mut m, "Constant '");
            push_str(&mut m, v.name.as_str());
            push_str(&mut m, "' should use UPPER_SNAKE_CASE naming convention");
            let d = diag(v.definition.range, Severity::Hint, "enum-case", m);
            push_diag(&mut out, d);
        }
        assert(diag_views(out@) + enum_case_from(vars@, i + 1) =~= before + enum_case_from(
            vars@,
            i as int,
        ));
        i = i + 1;
    }
    assert(diag_views(out@) + enum_case_from(vars@, i as int) =~= diag_views(out@));
    out
}

// ---------------------------------------------------------------------------
// Looking names up
// ---------------------------------------------------------------------------

/// The index of the last of `vars[..n]` named `name`.
pub open spec fn last_var_named(vars: Seq<UserVariable>, name: Seq<char>, n: int) -> Option<int>
    decreases n,
{
    if n <= 0 || n > vars.len() {
        None
    } else if vars[n - 1].name@ == name {
        Some(n - 1)
    } else {
        last_var_named(vars, name, n - 1)
    }
}

proof fn lemma_last_var_named(vars: Seq<UserVariable>, name: Seq<char>, n: int)
    ensures
        last_var_named(vars, name, n) matches Some(k) ==> 0 <= k < n && k < vars.len()
            && vars[k].name@ == name,
    decreases n,
{
    if 0 < n <= vars.len() && vars[n - 1].name@ != name {
        lemma_last_var_named(vars, name, n - 1);
    }
}

/// The index of the last variable named `name`.
fn find_last_var(vars: &Vec<UserVariable>, name: &String) -> (r: Option<usize>)
    ensures
        r matches Some(k) ==> last_var_named(vars@, name@, vars@.len() as int) == Some(k as int)
            && k < vars.len(),
        r is None ==> last_var_named(vars@, name@, vars@.len() as int) is None,
{
    let mut n = vars.len();
    while n > 0
        invariant
            n <= vars.len(),
            last_var_named(vars@, name@, n as int) == last_var_named(
                vars@,
                name@,
                vars@.len() as int,
            ),
        decreases n,
    {
        if vars[n - 1].name == *name {
            return Some(n - 1);
        }
        n = n - 1;
    }
    None
}

/// How a variable kind is named in messages.
pub open spec fn kind_word(k: VariableKind) -> Seq<char> {
    match k {
        VariableKind::EnumMember => "enum member"@,
        VariableKind::Define => "define"@,
        VariableKind::Regular => "variable"@,
    }
}

fn kind_word_str(k: VariableKind) -> (r: &'static str)
    ensures
        r@ == kind_word(k),
{
    match k {
        VariableKind::EnumMember => "enum member",
        VariableKind::Define => "define",
        VariableKind::Regular => "variable",
    }
}

// ---------------------------------------------------------------------------
// Parameters shadowed by globals
// ---------------------------------------------------------------------------

/// The warning for parameter `param` of `f`, shadowed by the global `g`.
pub open spec fn shadow_diag(f: UserFunction, param: Seq<char>, g: UserVariable) -> DiagView {
    DiagView {
        range: f.definition.range,
        severity: Severity::Warning,
        code: "parameter-shadowing"@,
        message: "Parameter '"@ + param + "' is shadowing the variable "@ + kind_word(g.kind)
            + ", and wont be used."@,
        related: Some(
            RelatedView {
                uri: g.definition.uri@,
                range: g.definition.range,
                message: "Global "@ + kind_word(g.kind) + " '"@ + param
                    + "' declared here - this will be used in the function"@,
            },
        ),
        unnecessary: false,
    }
}

/// The warnings for the parameters `f.parameters[j..]`.
pub open spec fn shadow_params_from(f: UserFunction, vars: Seq<UserVariable>, j: int) -> Seq<
    DiagView,
>
    decreases f.parameters@.len() - j,
{
    if j < 0 || j >= f.parameters@.len() {
        seq![]
    } else {
        let p = f.parameters@[j]@;
        (match last_var_named(vars, p, vars.len() as int) {
            Some(k) => seq![shadow_diag(f, p, vars[k])],
            None => seq![],
        }) + shadow_params_from(f, vars, j + 1)
    }
}

/// The warnings for the functions `funcs[i..]`.
pub open spec fn shadow_from(funcs: Seq<UserFunction>, vars: Seq<UserVariable>, i: int) -> Seq<
    DiagView,
>
    decreases funcs.len() - i,
{
    if i < 0 || i >= funcs.len() {
        seq![]
    } else {
        shadow_params_from(funcs[i], vars, 0) + shadow_from(funcs, vars, i + 1)
    }
}

fn related(uri: &String, range: Range, message: String) -> (r: RelatedInformation)
    ensures
        r.location.uri@ == uri@,
        r.location.range == range,
        r.message@ == message@,
{
    RelatedInformation { location: Location { uri: copy_string(uri), range }, message }
}

/// A warning for each function parameter that has the name of a global
/// variable (the last one declared with that name), which the function
/// will use in its place.
pub fn check_parameter_shadowing(funcs: &Vec<UserFunction>, vars: &Vec<UserVariable>) -> (r: Vec<
    Diagnostic,
>)
    ensures
        diag_views(r@) == shadow_from(funcs@, vars@, 0),
{
    let mut out: Vec<Diagnostic> = Vec::new();
    let mut i: usize = 0;
    while i < funcs.len()
        invariant
            i <= funcs.len(),
            shadow_from(funcs@, vars@, 0) == diag_views(out@) + shadow_from(funcs@, vars@, i as int),
        decreases funcs.len() - i,
    {
        let f = &funcs[i];
        let ghost before = diag_views(out@);
        let mut j: usize = 0;
        while j < f.parameters.len()
            invariant
                j <= f.parameters.len(),
                before + shadow_params_from(*f, vars@, 0) == diag_views(out@) + shadow_params_from(
                    *f,
                    vars@,
                    j as int,
                ),
            decreases f.parameters.len() - j,
        {
            let p = &f.parameters[j];
            let ghost mid = diag_views(out@);
            match find_last_var(vars, p) {
                Some(k) => {
                    proof {
                        lemma_last_var_named(vars@, p@, vars@.len() as int);
                    }
                    let g = &vars[k];
                    let word = kind_word_str(g.kind);
                    let mut m = String::new();
                    push_str(&mut m, "Parameter '");
                    push_str(&mut m, p.as_str());
                    push_str(&mut m, "' is shadowing the variable ");
                    push_str(&mut m, word);
                    push_str(&mut m, ", and wont be used.");
                    let mut rm = String::new();
                    push_str(&mut rm, "Global ");
                    push_str(&mut rm, word);
                    push_str(&mut rm, " '");
                    push_str(&mut rm, p.as_str());
                    push_str(&mut rm, "' declared here - this will be used in the function");
                    let mut c = String::new();
                    push_str(&mut c, "parameter-shadowing");
                    let d = Diagnostic {
                        range: f.definition.range,
                        severity: Severity::Warning,
                        code: c,
                        message: m,
                        related_information: Some(related(&g.definition.uri, g.definition.range, rm)),
                        unnecessary: false,
                    };
                    assert(d@ == shadow_diag(*f, p@, vars@[k as int]));
                    push_diag(&mut out, d);
                },
                None => {},
            }
            assert(diag_views(out@) + shadow_params_from(*f, vars@, j + 1) =~= mid
                + shadow_params_from(*f, vars@, j as int));
            j = j + 1;
        }
        assert(diag_views(out@) + shadow_params_from(*f, vars@, j as int) =~= diag_views(out@));
        assert(diag_views(out@) + shadow_from(funcs@, vars@, i + 1) =~= before + shadow_from(
            funcs@,
            vars@,
            i as int,
        ));
        i = i + 1;
    }
    assert(diag_views(out@) + shadow_from(funcs@, vars@, i as int) =~= diag_views(out@));
    out
}

// ---------------------------------------------------------------------------
// Macro calls
// ---------------------------------------------------------------------------

/// The index of the last of `ms[..n]` named `name`.
pub open spec fn last_macro_named(ms: Seq<UserMacro>, name: Seq<char>, n: int) -> Option<int>
    decreases n,
{
    if n <= 0 || n > ms.len() {
        None
    } else if ms[n - 1].name@ == name {
        Some(n - 1)
    } else {
        last_macro_named(ms, name, n - 1)
    }
}

proof fn lemma_last_macro_named(ms: Seq<UserMacro>, name: Seq<char>, n: int)
    ensures
        last_macro_named(ms, name, n) matches Some(k) ==> 0 <= k < n && k < ms.len(),
    decreases n,
{
    if 0 < n <= ms.len() && ms[n - 1].name@ != name {
        lemma_last_macro_named(ms, name, n - 1);
    }
}

fn find_last_macro(ms: &Vec<UserMacro>, name: &String) -> (r: Option<usize>)
    ensures
        r matches Some(k) ==> last_macro_named(ms@, name@, ms@.len() as int) == Some(k as int)
            && k < ms.len(),
        r is None ==> last_macro_named(ms@, name@, ms@.len() as int) is None,
{
    let mut n = ms.len();
    while n > 0
        invariant
            n <= ms.len(),
            last_macro_named(ms@, name@, n as int) == last_macro_named(ms@, name@, ms@.len() as int),
        decreases n,
    {
        if ms[n - 1].name == *name {
            return Some(n - 1);
        }
        n = n - 1;
    }
    None
}

/// Whether the macro that `name` calls needs a body: an imported macro of
/// that name decides first, then one of the document (the last declared
/// wins); `None` for a name no macro has.
pub open spec fn macro_needs_body(
    macros: Seq<UserMacro>,
    imported: Seq<UserMacro>,
    name: Seq<char>,
) -> Option<bool> {
    match last_macro_named(imported, name, imported.len() as int) {
        Some(k) => Some(imported[k].has_placeholder),
        None => match last_macro_named(macros, name, macros.len() as int) {
            Some(k) => Some(macros[k].has_placeholder),
            None => None,
        },
    }
}

/// The error for a call of a placeholder macro without a body.
pub open spec fn macro_body_diag(name: Seq<char>, line: int, col: int) -> DiagView {
    plain_diag(
        span(line, col, byte_len(name)),
        Severity::Error,
        "missing-macro-body"@,
        "Macro '"@ + name + "' requires a body block because it contains a %0 placeholder"@,
    )
}

/// The errors for the macro calls `calls[i..]`.
pub open spec fn macro_calls_from(
    macros: Seq<UserMacro>,
    imported: Seq<UserMacro>,
    calls: Seq<(Seq<char>, int, int, bool)>,
    i: int,
) -> Seq<DiagView>
    decreases calls.len() - i,
{
    if i < 0 || i >= calls.len() {
        seq![]
    } else {
        let c = calls[i];
        (if macro_needs_body(macros, imported, c.0) == Some(true) && !c.3 {
            seq![macro_body_diag(c.0, c.1, c.2)]
        } else {
            seq![]
        }) + macro_calls_from(macros, imported, calls, i + 1)
    }
}

/// An error for each call, given as (name, line, column, has a body), of a
/// macro whose body holds a `%0` placeholder, made without a body block.
pub fn check_macro_calls(
    macros: &Vec<UserMacro>,
    imported: &Vec<UserMacro>,
    calls: &Vec<(String, usize, usize, bool)>,
) -> (r: Vec<Diagnostic>)
    ensures
        diag_views(r@) == macro_calls_from(macros@, imported@, macro_call_views(calls@), 0),
{
    let mut out: Vec<Diagnostic> = Vec::new();
    let mut i: usize = 0;
    while i < calls.len()
        invariant
            i <= calls.len(),
            macro_calls_from(macros@, imported@, macro_call_views(calls@), 0) == diag_views(out@) + macro_calls_from(
                macros@,
                imported@,
                macro_call_views(calls@),
                i as int,
            ),
        decreases calls.len() - i,
    {
        let (ref name, line, col, has_body) = calls[i];
        let ghost before = diag_views(out@);
        let needs = match find_last_macro(imported, name) {
            Some(k) => Some(imported[k].has_placeholder),
            None => match find_last_macro(macros, name) {
                Some(k) => Some(macros[k].has_placeholder),
                None => None,
            },
        };
        assert(needs == macro_needs_body(macros@, imported@, name@));
        if needs == Some(true) && !has_body {
            let mut m = String::new();
            push_str(&mut m, "Macro '");
            push_str(&mut m, name.as_str());
            push_str(&mut m, "' requires a body block because it contains a %0 placeholder");
            let d = diag(
                make_span(line, col, name_byte_len(name)),
                Severity::Error,
                "missing-macro-body",
                m,
            );
            push_diag(&mut out, d);
        }
        assert(diag_views(out@) + macro_calls_from(macros@, imported@, macro_call_views(calls@), i + 1)
            =~= before + macro_calls_from(macros@, imported@, macro_call_views(calls@), i as int));
        i = i + 1;
    }
    assert(diag_views(out@) + macro_calls_from(macros@, imported@, macro_call_views(calls@), i as int) =~= diag_views(
        out@,
    ));
    out
}

// ---------------------------------------------------------------------------
// Undefined functions and argument counts
// ---------------------------------------------------------------------------

/// The index of the last of `fs[..n]` named `name`.
pub open spec fn last_func_named(fs: Seq<UserFunction>, name: Seq<char>, n: int) -> Option<int>
    decreases n,
{
    if n <= 0 || n > fs.len() {
        None
    } else if fs[n - 1].name@ == name {
        Some(n - 1)
    } else {
        last_func_named(fs, name, n - 1)
    }
}

proof fn lemma_last_func_named(fs: Seq<UserFunction>, name: Seq<char>, n: int)
    ensures
        last_func_named(fs, name, n) matches Some(k) ==> 0 <= k < n && k < fs.len()
            && fs[k].name@ == name,
    decreases n,
{
    if 0 < n <= fs.len() && fs[n - 1].name@ != name {
        lemma_last_func_named(fs, name, n - 1);
    }
}

fn find_last_func(fs: &Vec<UserFunction>, name: &String) -> (r: Option<usize>)
    ensures
        r matches Some(k) ==> last_func_named(fs@, name@, fs@.len() as int) == Some(k as int)
            && k < fs.len(),
        r is None ==> last_func_named(fs@, name@, fs@.len() as int) is None,
{
    let mut n = fs.len();
    while n > 0
        invariant
            n <= fs.len(),
            last_func_named(fs@, name@, n as int) == last_func_named(fs@, name@, fs@.len() as int),
        decreases n,
    {
        if fs[n - 1].name == *name {
            return Some(n - 1);
        }
        n = n - 1;
    }
    None
}

/// The index of the last of `bs[..n]` named `name`.
pub open spec fn last_builtin_named(bs: Seq<BuiltinFunction>, name: Seq<char>, n: int) -> Option<
    int,
>
    decreases n,
{
    if n <= 0 || n > bs.len() {
        None
    } else if bs[n - 1].name@ == name {
        Some(n - 1)
    } else {
        last_builtin_named(bs, name, n - 1)
    }
}

proof fn lemma_last_builtin_named(bs: Seq<BuiltinFunction>, name: Seq<char>, n: int)
    ensures
        last_builtin_named(bs, name, n) matches Some(k) ==> 0 <= k < n && k < bs.len()
            && bs[k].name@ == name,
    decreases n,
{
    if 0 < n <= bs.len() && bs[n - 1].name@ != name {
        lemma_last_builtin_named(bs, name, n - 1);
    }
}

fn find_last_builtin(bs: &Vec<BuiltinFunction>, name: &String) -> (r: Option<usize>)
    ensures
        r matches Some(k) ==> last_builtin_named(bs@, name@, bs@.len() as int) == Some(k as int)
            && k < bs.len(),
        r is None ==> last_builtin_named(bs@, name@, bs@.len() as int) is None,
{
    let mut n = bs.len();
    while n > 0
        invariant
            n <= bs.len(),
            last_builtin_named(bs@, name@, n as int) == last_builtin_named(
                bs@,
                name@,
                bs@.len() as int,
            ),
        decreases n,
    {
        if bs[n - 1].name == *name {
            return Some(n - 1);
        }
        n = n - 1;
    }
    None
}

/// The number of parameters of the function that `name` calls: a built-in
/// decides first, then an imported function (the imports feature on), then
/// one of the document (the last declared wins); `None` for an unknown
/// name.
pub open spec fn expected_params(
    funcs: Seq<UserFunction>,
    imported: Seq<UserFunction>,
    builtins: Seq<BuiltinFunction>,
    imports: bool,
    name: Seq<char>,
) -> Option<int> {
    match last_builtin_named(builtins, name, builtins.len() as int) {
        Some(k) => Some(builtins[k].parameters@.len() as int),
        None => match (if imports {
            last_func_named(imported, name, imported.len() as int)
        } else {
            None
        }) {
            Some(k) => Some(imported[k].parameters@.len() as int),
            None => match last_func_named(funcs, name, funcs.len() as int) {
                Some(k) => Some(funcs[k].parameters@.len() as int),
                None => None,
            },
        },
    }
}

/// The error for a call with the wrong number of arguments.
pub open spec fn arg_count_diag(name: Seq<char>, line: int, col: int, expected: nat, got: nat) -> DiagView {
    plain_diag(
        span(line, col, byte_len(name)),
        Severity::Error,
        "wrong-argument-count"@,
        "Function '"@ + name + "' expects "@ + decimal(expected) + " argument"@ + (if expected == 1 {
            ""@
        } else {
            "s"@
        }) + " but got "@ + decimal(got),
    )
}

/// The error for a call of an unknown function.
pub open spec fn undefined_function_diag(name: Seq<char>, line: int, col: int) -> DiagView {
    plain_diag(
        span(line, col, byte_len(name)),
        Severity::Error,
        "undefined-function"@,
        "Undefined function '"@ + name + "'"@,
    )
}

/// The errors for the calls `calls[i..]`, `reported` holding the unknown
/// names already reported.
pub open spec fn calls_from(
    funcs: Seq<UserFunction>,
    imported: Seq<UserFunction>,
    builtins: Seq<BuiltinFunction>,
    imports: bool,
    calls: Seq<(Seq<char>, int, int, int)>,
    i: int,
    reported: Set<Seq<char>>,
) -> Seq<DiagView>
    decreases calls.len() - i,
{
    if i < 0 || i >= calls.len() {
        seq![]
    } else {
        let c = calls[i];
        match expected_params(funcs, imported, builtins, imports, c.0) {
            Some(e) => (if c.3 != e {
                seq![arg_count_diag(c.0, c.1, c.2, e as nat, c.3 as nat)]
            } else {
                seq![]
            }) + calls_from(funcs, imported, builtins, imports, calls, i + 1, reported),
            None => if reported.contains(c.0) {
                calls_from(funcs, imported, builtins, imports, calls, i + 1, reported)
            } else {
                seq![undefined_function_diag(c.0, c.1, c.2)] + calls_from(
                    funcs,
                    imported,
                    builtins,
                    imports,
                    calls,
                    i + 1,
                    reported.insert(c.0),
                )
            },
        }
    }
}

fn contains_name(names: &Vec<String>, name: &String) -> (r: bool)
    ensures
        r == names@.map_values(|s: String| s@).contains(name@),
{
    let ghost views = names@.map_values(|s: String| s@);
    let mut i: usize = 0;
    while i < names.len()
        invariant
            views == names@.map_values(|s: String| s@),
            i <= names.len(),
            forall|j: int| 0 <= j < i ==> views[j] != name@,
        decreases names.len() - i,
    {
        if names[i] == *name {
            assert(views[i as int] == name@);
            return true;
        }
        i = i + 1;
    }
    false
}

/// For each call, given as (name, line, column, number of arguments): an
/// error where the called function is known and takes another number of
/// parameters, or, once per name, where no function of that name is known.
pub fn check_undefined_functions(
    funcs: &Vec<UserFunction>,
    imported: &Vec<UserFunction>,
    builtins: &Vec<BuiltinFunction>,
    features: Features,
    calls: &Vec<(String, usize, usize, usize)>,
) -> (r: Vec<Diagnostic>)
    ensures
        diag_views(r@) == calls_from(
            funcs@,
            imported@,
            builtins@,
            features.imports,
            call_views(calls@),
            0,
            Set::empty(),
        ),
{
    let mut out: Vec<Diagnostic> = Vec::new();
    let mut reported: Vec<String> = Vec::new();
    let mut i: usize = 0;
    assert(reported@.map_values(|s: String| s@).to_set() =~= Set::<Seq<char>>::empty());
    while i < calls.len()
        invariant
            i <= calls.len(),
            calls_from(funcs@, imported@, builtins@, features.imports, call_views(calls@), 0, Set::empty())
                == diag_views(out@) + calls_from(
                funcs@,
                imported@,
                builtins@,
                features.imports,
                call_views(calls@),
                i as int,
                reported@.map_values(|s: String| s@).to_set(),
            ),
        decreases calls.len() - i,
    {
        let (ref name, line, col, argc) = calls[i];
        let ghost before = diag_views(out@);
        let ghost rep = reported@.map_values(|s: String| s@).to_set();
        let expected: Option<usize> = match find_last_builtin(builtins, name) {
            Some(k) => Some(builtins[k].parameters.len()),
            None => match (if features.imports {
                find_last_func(imported, name)
            } else {
                None
            }) {
                Some(k) => Some(imported[k].parameters.len()),
                None => match find_last_func(funcs, name) {
                    Some(k) => Some(funcs[k].parameters.len()),
                    None => None,
                },
            },
        };
        assert(match expected {
            Some(e) => expected_params(funcs@, imported@, builtins@, features.imports, name@) == Some(
                e as int,
            ),
            None => expected_params(funcs@, imported@, builtins@, features.imports, name@) is None,
        });
        match expected {
            Some(e) => {
                if argc != e {
                    let mut m = String::new();
                    push_str(&mut m, "Function '");
                    push_str(&mut m, name.as_str());
                    push_str(&mut m, "' expects ");
                    push_decimal(&mut m, e as u64);
                    push_str(&mut m, " argument");
                    if e == 1 {
                        push_str(&mut m, "");
                    } else {
                        push_str(&mut m, "s");
                    }
                    push_str(&mut m, " but got ");
                    push_decimal(&mut m, argc as u64);
                    let d = diag(
                        make_span(line, col, name_byte_len(name)),
                        Severity::Error,
                        "wrong-argument-count",
                        m,
                    );
                    push_diag(&mut out, d);
                }
            },
            None => {
                if !contains_name(&reported, name) {
                    assert(!rep.contains(name@));
                    let mut m = String::new();
                    push_str(&mut m, "Undefined function '");
                    push_str(&mut m, name.as_str());
                    push_str(&mut m, "'");
                    let d = diag(
                        make_span(line, col, name_byte_len(name)),
                        Severity::Error,
                        "undefined-function",
                        m,
                    );
                    push_diag(&mut out, d);
                    let ghost old_rep = reported@;
                    let cp = copy_string(name);
                    reported.push(cp);
                    assert(reported@.map_values(|s: String| s@).to_set() =~= rep.insert(name@)) by {
                        let before_names = old_rep.map_values(|s: String| s@);
                        assert(reported@ == old_rep.push(cp));
                        assert(reported@.map_values(|s: String| s@) =~= before_names.push(name@));
                        before_names.lemma_push_to_set_commute(name@);
                    }
                } else {
                    assert(rep.contains(name@));
                }
            },
        }
        assert(diag_views(out@) + calls_from(
            funcs@,
            imported@,
            builtins@,
            features.imports,
            call_views(calls@),
            i + 1,
            reported@.map_values(|s: String| s@).to_set(),
        ) =~= before + calls_from(
            funcs@,
            imported@,
            builtins@,
            features.imports,
            call_views(calls@),
            i as int,
            rep,
        ));
        i = i + 1;
    }
    assert(diag_views(out@) + calls_from(
        funcs@,
        imported@,
        builtins@,
        features.imports,
        call_views(calls@),
        i as int,
        reported@.map_values(|s: String| s@).to_set(),
    ) =~= diag_views(out@));
    out
}

/// Whether some function that a call could mean is named `name`: a
/// built-in, an imported function (the imports feature on) or a function of
/// the document.
pub open spec fn function_known(
    funcs: Seq<UserFunction>,
    imported: Seq<UserFunction>,
    builtins: Seq<BuiltinFunction>,
    imports: bool,
    name: Seq<char>,
) -> bool {
    ||| exists|k: int| 0 <= k < builtins.len() && #[trigger] builtins[k].name@ == name
    ||| imports && exists|k: int| 0 <= k < imported.len() && #[trigger] imported[k].name@ == name
    ||| exists|k: int| 0 <= k < funcs.len() && #[trigger] funcs[k].name@ == name
}

/// Whether every function that a call of `name` could mean takes `argc`
/// parameters.
pub open spec fn all_take(
    funcs: Seq<UserFunction>,
    imported: Seq<UserFunction>,
    builtins: Seq<BuiltinFunction>,
    imports: bool,
    name: Seq<char>,
    argc: int,
) -> bool {
    &&& forall|k: int| 0 <= k < builtins.len() && #[trigger] builtins[k].name@ == name ==> builtins[k].parameters@.len() == argc
    &&& imports ==> forall|k: int| 0 <= k < imported.len() && #[trigger] imported[k].name@ == name ==> imported[k].parameters@.len() == argc
    &&& forall|k: int| 0 <= k < funcs.len() && #[trigger] funcs[k].name@ == name ==> funcs[k].parameters@.len() == argc
}

proof fn lemma_last_func_none(fs: Seq<UserFunction>, name: Seq<char>, n: int)
    requires
        0 <= n <= fs.len(),
        last_func_named(fs, name, n) is None,
    ensures
        forall|k: int| 0 <= k < n ==> #[trigger] fs[k].name@ != name,
    decreases n,
{
    if n > 0 {
        lemma_last_func_none(fs, name, n - 1);
    }
}

proof fn lemma_last_builtin_none(bs: Seq<BuiltinFunction>, name: Seq<char>, n: int)
    requires
        0 <= n <= bs.len(),
        last_builtin_named(bs, name, n) is None,
    ensures
        forall|k: int| 0 <= k < n ==> #[trigger] bs[k].name@ != name,
    decreases n,
{
    if n > 0 {
        lemma_last_builtin_none(bs, name, n - 1);
    }
}

/// A known name has an expected parameter count, and where every function
/// it could mean takes `argc` parameters, that count is `argc`.
proof fn lemma_expected_params(
    funcs: Seq<UserFunction>,
    imported: Seq<UserFunction>,
    builtins: Seq<BuiltinFunction>,
    imports: bool,
    name: Seq<char>,
    argc: int,
)
    ensures
        expected_params(funcs, imported, builtins, imports, name) is None <==> !function_known(funcs, imported, builtins, imports, name),
        function_known(funcs, imported, builtins, imports, name) && all_take(funcs, imported, builtins, imports, name, argc)
            ==> expected_params(funcs, imported, builtins, imports, name) == Some(argc),
{
    lemma_last_builtin_named(builtins, name, builtins.len() as int);
    lemma_last_func_named(imported, name, imported.len() as int);
    lemma_last_func_named(funcs, name, funcs.len() as int);
    match last_builtin_named(builtins, name, builtins.len() as int) {
        Some(k) => {},
        None => {
            lemma_last_builtin_none(builtins, name, builtins.len() as int);
            if imports && last_func_named(imported, name, imported.len() as int) is Some {
            } else {
                if imports {
                    lemma_last_func_none(imported, name, imported.len() as int);
                }
                if last_func_named(funcs, name, funcs.len() as int) is None {
                    lemma_last_func_none(funcs, name, funcs.len() as int);
                }
            }
        },
    }
}

proof fn lemma_calls_undefined(
    funcs: Seq<UserFunction>,
    imported: Seq<UserFunction>,
    builtins: Seq<BuiltinFunction>,
    imports: bool,
    calls: Seq<(Seq<char>, int, int, int)>,
    i: int,
    reported: Set<Seq<char>>,
)
    requires
        0 <= i,
    ensures
        forall|j: int|
            0 <= j < calls_from(funcs, imported, builtins, imports, calls, i, reported).len()
                && (#[trigger] calls_from(funcs, imported, builtins, imports, calls, i, reported)[j]).code == "undefined-function"@
                ==> exists|m: int|
                i <= m < calls.len() && calls_from(funcs, imported, builtins, imports, calls, i, reported)[j].message
                    == "Undefined function '"@ + (#[trigger] calls[m]).0 + "'"@ && !function_known(
                    funcs,
                    imported,
                    builtins,
                    imports,
                    calls[m].0,
                ),
    decreases calls.len() - i,
{
    reveal_strlit("undefined-function");
    reveal_strlit("wrong-argument-count");
    if i < calls.len() {
        let c = calls[i];
        let r = calls_from(funcs, imported, builtins, imports, calls, i, reported);
        lemma_expected_params(funcs, imported, builtins, imports, c.0, c.3);
        match expected_params(funcs, imported, builtins, imports, c.0) {
            Some(e) => {
                let head: Seq<DiagView> = if c.3 != e {
                    seq![arg_count_diag(c.0, c.1, c.2, e as nat, c.3 as nat)]
                } else {
                    seq![]
                };
                let rest = calls_from(funcs, imported, builtins, imports, calls, i + 1, reported);
                lemma_calls_undefined(funcs, imported, builtins, imports, calls, i + 1, reported);
                assert(r == head + rest);
                assert forall|j: int| 0 <= j < r.len() && (#[trigger] r[j]).code == "undefined-function"@ implies exists|m: int|
                    i <= m < calls.len() && r[j].message == "Undefined function '"@ + (#[trigger] calls[m]).0 + "'"@
                        && !function_known(funcs, imported, builtins, imports, calls[m].0) by {
                    if j < head.len() {
                        assert(r[j] == head[j]);
                        assert(head[j].code == "wrong-argument-count"@);
                        assert(false);
                    } else {
                        assert(r[j] == rest[j - head.len()]);
                        let m = choose|m: int| i + 1 <= m < calls.len() && rest[j - head.len()].message
                            == "Undefined function '"@ + (#[trigger] calls[m]).0 + "'"@ && !function_known(
                            funcs,
                            imported,
                            builtins,
                            imports,
                            calls[m].0,
                        );
                        assert(i <= m);
                    }
                }
            },
            None => {
                let nr = if reported.contains(c.0) { reported } else { reported.insert(c.0) };
                let head: Seq<DiagView> = if reported.contains(c.0) {
                    seq![]
                } else {
                    seq![undefined_function_diag(c.0, c.1, c.2)]
                };
                let rest = calls_from(funcs, imported, builtins, imports, calls, i + 1, nr);
                lemma_calls_undefined(funcs, imported, builtins, imports, calls, i + 1, nr);
                assert(r == head + rest);
                assert forall|j: int| 0 <= j < r.len() && (#[trigger] r[j]).code == "undefined-function"@ implies exists|m: int|
                    i <= m < calls.len() && r[j].message == "Undefined function '"@ + (#[trigger] calls[m]).0 + "'"@
                        && !function_known(funcs, imported, builtins, imports, calls[m].0) by {
                    if j < head.len() {
                        assert(r[j] == head[j]);
                        assert(calls[i] == c);
                    } else {
                        assert(r[j] == rest[j - head.len()]);
                        let m = choose|m: int| i + 1 <= m < calls.len() && rest[j - head.len()].message
                            == "Undefined function '"@ + (#[trigger] calls[m]).0 + "'"@ && !function_known(
                            funcs,
                            imported,
                            builtins,
                            imports,
                            calls[m].0,
                        );
                        assert(i <= m);
                    }
                }
            },
        }
    }
}

/// An undefined-function error is only ever given for the name of a call
/// that no function can mean: no built-in, no imported function (the
/// imports feature on) and no function of the document has that name.
pub proof fn law_undefined_only_for_unknown_names(
    funcs: Seq<UserFunction>,
    imported: Seq<UserFunction>,
    builtins: Seq<BuiltinFunction>,
    features: Features,
    calls: Seq<(String, usize, usize, usize)>,
)
    ensures
        forall|j: int|
            0 <= j < calls_from(funcs, imported, builtins, features.imports, call_views(calls), 0, Set::empty()).len()
                && (#[trigger] calls_from(funcs, imported, builtins, features.imports, call_views(calls), 0, Set::empty())[j]).code
                == "undefined-function"@ ==> exists|m: int|
                0 <= m < calls.len() && calls_from(funcs, imported, builtins, features.imports, call_views(calls), 0, Set::empty())[j].message
                    == "Undefined function '"@ + (#[trigger] calls[m]).0@ + "'"@
                    && (forall|k: int| 0 <= k < builtins.len() ==> #[trigger] builtins[k].name@ != calls[m].0@)
                    && (features.imports ==> forall|k: int| 0 <= k < imported.len() ==> #[trigger] imported[k].name@ != calls[m].0@)
                    && (forall|k: int| 0 <= k < funcs.len() ==> #[trigger] funcs[k].name@ != calls[m].0@),
{
    let cv = call_views(calls);
    lemma_calls_undefined(funcs, imported, builtins, features.imports, cv, 0, Set::empty());
    let r = calls_from(funcs, imported, builtins, features.imports, cv, 0, Set::empty());
    assert forall|j: int| 0 <= j < r.len() && (#[trigger] r[j]).code == "undefined-function"@ implies exists|m: int|
        0 <= m < calls.len() && r[j].message == "Undefined function '"@ + (#[trigger] calls[m]).0@ + "'"@
            && (forall|k: int| 0 <= k < builtins.len() ==> #[trigger] builtins[k].name@ != calls[m].0@)
            && (features.imports ==> forall|k: int| 0 <= k < imported.len() ==> #[trigger] imported[k].name@ != calls[m].0@)
            && (forall|k: int| 0 <= k < funcs.len() ==> #[trigger] funcs[k].name@ != calls[m].0@) by {
        let m = choose|m: int| 0 <= m < cv.len() && r[j].message == "Undefined function '"@ + (#[trigger] cv[m]).0 + "'"@
            && !function_known(funcs, imported, builtins, features.imports, cv[m].0);
        assert(cv[m].0 == calls[m].0@);
        assert forall|k: int| 0 <= k < builtins.len() implies #[trigger] builtins[k].name@ != calls[m].0@ by {
            if builtins[k].name@ == calls[m].0@ {
                assert(function_known(funcs, imported, builtins, features.imports, cv[m].0));
            }
        }
        assert forall|k: int| features.imports && 0 <= k < imported.len() implies #[trigger] imported[k].name@ != calls[m].0@ by {
            if imported[k].name@ == calls[m].0@ {
                assert(function_known(funcs, imported, builtins, features.imports, cv[m].0));
            }
        }
        assert forall|k: int| 0 <= k < funcs.len() implies #[trigger] funcs[k].name@ != calls[m].0@ by {
            if funcs[k].name@ == calls[m].0@ {
                assert(function_known(funcs, imported, builtins, features.imports, cv[m].0));
            }
        }
    }
}

proof fn lemma_calls_all_fit(
    funcs: Seq<UserFunction>,
    imported: Seq<UserFunction>,
    builtins: Seq<BuiltinFunction>,
    imports: bool,
    calls: Seq<(Seq<char>, int, int, int)>,
    i: int,
    reported: Set<Seq<char>>,
)
    requires
        0 <= i,
        forall|m: int|
            i <= m < calls.len() ==> function_known(funcs, imported, builtins, imports, (#[trigger] calls[m]).0)
                && all_take(funcs, imported, builtins, imports, calls[m].0, calls[m].3),
    ensures
        calls_from(funcs, imported, builtins, imports, calls, i, reported) == Seq::<DiagView>::empty(),
    decreases calls.len() - i,
{
    if i < calls.len() {
        let c = calls[i];
        lemma_expected_params(funcs, imported, builtins, imports, c.0, c.3);
        lemma_calls_all_fit(funcs, imported, builtins, imports, calls, i + 1, reported);
        assert(calls_from(funcs, imported, builtins, imports, calls, i, reported) =~= Seq::<DiagView>::empty());
    }
}

/// Calls that all name a known function (a built-in, an imported function
/// with the imports feature on, or a function of the document), each with
/// as many arguments as every function of its name takes parameters, give
/// no diagnostic at all.
pub proof fn law_fitting_calls_give_nothing(
    funcs: Seq<UserFunction>,
    imported: Seq<UserFunction>,
    builtins: Seq<BuiltinFunction>,
    features: Features,
    calls: Seq<(String, usize, usize, usize)>,
)
    requires
        forall|m: int|
            0 <= m < calls.len() ==> function_known(funcs, imported, builtins, features.imports, (#[trigger] calls[m]).0@)
                && all_take(funcs, imported, builtins, features.imports, calls[m].0@, calls[m].3 as int),
    ensures
        calls_from(funcs, imported, builtins, features.imports, call_views(calls), 0, Set::empty()).len() == 0,
{
    let cv = call_views(calls);
    assert forall|m: int| 0 <= m < cv.len() implies function_known(funcs, imported, builtins, features.imports, (#[trigger] cv[m]).0)
        && all_take(funcs, imported, builtins, features.imports, cv[m].0, cv[m].3) by {
        assert(cv[m].0 == calls[m].0@ && cv[m].3 == calls[m].3 as int);
    }
    lemma_calls_all_fit(funcs, imported, builtins, features.imports, cv, 0, Set::empty());
}

// ---------------------------------------------------------------------------
// Undefined variables
// ---------------------------------------------------------------------------

/// Whether `name` is defined: a variable of the document, an imported one
/// (the imports feature on) or a built-in constant.
pub open spec fn var_defined(
    vars: Seq<UserVariable>,
    imported: Seq<UserVariable>,
    constants: Seq<String>,
    imports: bool,
    name: Seq<char>,
) -> bool {
    ||| exists|k: int| 0 <= k < vars.len() && #[trigger] vars[k].name@ == name
    ||| imports && exists|k: int| 0 <= k < imported.len() && #[trigger] imported[k].name@ == name
    ||| exists|k: int| 0 <= k < constants.len() && #[trigger] constants[k]@ == name
}

/// The error for a use of an undefined name, `prefix` opening the message.
pub open spec fn undefined_var_diag(prefix: Seq<char>, name: Seq<char>, line: int, col: int) -> DiagView {
    plain_diag(
        span(line, col, byte_len(name)),
        Severity::Error,
        "undefined-variable"@,
        prefix + name + "'"@,
    )
}

/// The errors for the undefined names among `uses[i..]`, once per name not
/// in `reported`, and the reported names afterwards.
pub open spec fn undefined_from(
    vars: Seq<UserVariable>,
    imported: Seq<UserVariable>,
    constants: Seq<String>,
    imports: bool,
    uses: Seq<(Seq<char>, int, int)>,
    prefix: Seq<char>,
    i: int,
    reported: Set<Seq<char>>,
) -> (Seq<DiagView>, Set<Seq<char>>)
    decreases uses.len() - i,
{
    if i < 0 || i >= uses.len() {
        (seq![], reported)
    } else {
        let u = uses[i];
        if !var_defined(vars, imported, constants, imports, u.0) && !reported.contains(u.0) {
            let rest = undefined_from(
                vars,
                imported,
                constants,
                imports,
                uses,
                prefix,
                i + 1,
                reported.insert(u.0),
            );
            (seq![undefined_var_diag(prefix, u.0, u.1, u.2)] + rest.0, rest.1)
        } else {
            undefined_from(vars, imported, constants, imports, uses, prefix, i + 1, reported)
        }
    }
}

/// The errors for undefined variables: first for the references, then for
/// the assignments, each name reported once.
pub open spec fn undefined_vars_spec(
    vars: Seq<UserVariable>,
    imported: Seq<UserVariable>,
    constants: Seq<String>,
    imports: bool,
    refs: Seq<(Seq<char>, int, int)>,
    assignments: Seq<(Seq<char>, int, int)>,
) -> Seq<DiagView> {
    let first = undefined_from(
        vars,
        imported,
        constants,
        imports,
        refs,
        "Undefined variable '"@,
        0,
        Set::empty(),
    );
    let second = undefined_from(
        vars,
        imported,
        constants,
        imports,
        assignments,
        "Cannot assign to undefined variable '"@,
        0,
        first.1,
    );
    first.0 + second.0
}

fn var_is_defined(
    vars: &Vec<UserVariable>,
    imported: &Vec<UserVariable>,
    constants: &Vec<String>,
    imports: bool,
    name: &String,
) -> (r: bool)
    ensures
        r == var_defined(vars@, imported@, constants@, imports, name@),
{
    let mut k: usize = 0;
    while k < vars.len()
        invariant
            k <= vars.len(),
            forall|j: int| 0 <= j < k ==> vars@[j].name@ != name@,
        decreases vars.len() - k,
    {
        if vars[k].name == *name {
            assert(vars@[k as int].name@ == name@);
            return true;
        }
        k = k + 1;
    }
    if imports {
        let mut k: usize = 0;
        while k < imported.len()
            invariant
                imports,
                k <= imported.len(),
                forall|j: int| 0 <= j < k ==> imported@[j].name@ != name@,
            decreases imported.len() - k,
        {
            if imported[k].name == *name {
                assert(imported@[k as int].name@ == name@);
                return true;
            }
            k = k + 1;
        }
    }
    let mut k: usize = 0;
    while k < constants.len()
        invariant
            k <= constants.len(),
            forall|j: int| 0 <= j < k ==> constants@[j]@ != name@,
        decreases constants.len() - k,
    {
        if constants[k] == *name {
            return true;
        }
        k = k + 1;
    }
    false
}

fn report_undefined(
    vars: &Vec<UserVariable>,
    imported: &Vec<UserVariable>,
    constants: &Vec<String>,
    imports: bool,
    uses: &Vec<(String, usize, usize)>,
    prefix: &str,
    reported: &mut Vec<String>,
    out: &mut Vec<Diagnostic>,
)
    ensures
        diag_views(final(out)@) == diag_views(old(out)@) + undefined_from(
            vars@,
            imported@,
            constants@,
            imports,
            triple_views(uses@),
            prefix@,
            0,
            old(reported)@.map_values(|s: String| s@).to_set(),
        ).0,
        final(reported)@.map_values(|s: String| s@).to_set() == undefined_from(
            vars@,
            imported@,
            constants@,
            imports,
            triple_views(uses@),
            prefix@,
            0,
            old(reported)@.map_values(|s: String| s@).to_set(),
        ).1,
{
    let ghost start_set = reported@.map_values(|s: String| s@).to_set();
    let ghost base = diag_views(out@);
    let mut i: usize = 0;
    while i < uses.len()
        invariant
            i <= uses.len(),
            start_set == old(reported)@.map_values(|s: String| s@).to_set(),
            base == diag_views(old(out)@),
            undefined_from(vars@, imported@, constants@, imports, triple_views(uses@), prefix@, 0, start_set).0
                == diag_views(out@).subrange(base.len() as int, diag_views(out@).len() as int)
                + undefined_from(
                vars@,
                imported@,
                constants@,
                imports,
                triple_views(uses@),
                prefix@,
                i as int,
                reported@.map_values(|s: String| s@).to_set(),
            ).0,
            undefined_from(vars@, imported@, constants@, imports, triple_views(uses@), prefix@, 0, start_set).1
                == undefined_from(
                vars@,
                imported@,
                constants@,
                imports,
                triple_views(uses@),
                prefix@,
                i as int,
                reported@.map_values(|s: String| s@).to_set(),
            ).1,
            diag_views(out@).len() >= base.len(),
            diag_views(out@).subrange(0, base.len() as int) == base,
        decreases uses.len() - i,
    {
        let (ref name, line, col) = uses[i];
        let ghost rep = reported@.map_values(|s: String| s@).to_set();
        let ghost before = diag_views(out@);
        if !var_is_defined(vars, imported, constants, imports, name) && !contains_name(reported, name) {
            let mut m = String::new();
            push_str(&mut m, prefix);
            push_str(&mut m, name.as_str());
            push_str(&mut m, "'");
            let d = diag(make_span(line, col, name_byte_len(name)), Severity::Error, "undefined-variable", m);
            push_diag(out, d);
            let ghost old_rep = reported@;
            let cp = copy_string(name);
            reported.push(cp);
            assert(reported@.map_values(|s: String| s@).to_set() =~= rep.insert(name@)) by {
                let before_names = old_rep.map_values(|s: String| s@);
                assert(reported@ == old_rep.push(cp));
                assert(reported@.map_values(|s: String| s@) =~= before_names.push(name@));
                before_names.lemma_push_to_set_commute(name@);
            }
            assert(diag_views(out@).subrange(base.len() as int, diag_views(out@).len() as int) =~= before.subrange(base.len() as int, before.len() as int).push(undefined_var_diag(prefix@, name@, line as int, col as int)));
        }
        assert(diag_views(out@).subrange(base.len() as int, diag_views(out@).len() as int) + undefined_from(
            vars@,
            imported@,
            constants@,
            imports,
            triple_views(uses@),
            prefix@,
            i + 1,
            reported@.map_values(|s: String| s@).to_set(),
        ).0 =~= before.subrange(base.len() as int, before.len() as int) + undefined_from(
            vars@,
            imported@,
            constants@,
            imports,
            triple_views(uses@),
            prefix@,
            i as int,
            rep,
        ).0);
        i = i + 1;
    }
    assert(diag_views(out@) =~= base + diag_views(out@).subrange(base.len() as int, diag_views(out@).len() as int));
}

/// An error, once per name, for each reference and then each assignment,
/// given as (name, line, column), of a name that is neither a variable of
/// the document, nor an imported one (the imports feature on), nor a
/// built-in constant.
pub fn check_undefined_variables(
    vars: &Vec<UserVariable>,
    imported: &Vec<UserVariable>,
    constants: &Vec<String>,
    features: Features,
    refs: &Vec<(String, usize, usize)>,
    assignments: &Vec<(String, usize, usize)>,
) -> (r: Vec<Diagnostic>)
    ensures
        diag_views(r@) == undefined_vars_spec(
            vars@,
            imported@,
            constants@,
            features.imports,
            triple_views(refs@),
            triple_views(assignments@),
        ),
{
    let mut out: Vec<Diagnostic> = Vec::new();
    let mut reported: Vec<String> = Vec::new();
    assert(reported@.map_values(|s: String| s@).to_set() =~= Set::<Seq<char>>::empty());
    assert(diag_views(out@) =~= Seq::<DiagView>::empty());
    report_undefined(vars, imported, constants, features.imports, refs, "Undefined variable '", &mut reported, &mut out);
    report_undefined(
        vars,
        imported,
        constants,
        features.imports,
        assignments,
        "Cannot assign to undefined variable '",
        &mut reported,
        &mut out,
    );
    out
}

// ---------------------------------------------------------------------------
// Assignments to immutable names
// ---------------------------------------------------------------------------

/// Whether a variable is declared immutable.
pub open spec fn is_immutable(v: UserVariable) -> bool {
    v.var_type matches Some(t) && t.mutability == Mutability::Immutable
}

/// The index of the last immutable variable of `vars[..n]` named `name`.
pub open spec fn last_immutable_named(vars: Seq<UserVariable>, name: Seq<char>, n: int) -> Option<int>
    decreases n,
{
    if n <= 0 || n > vars.len() {
        None
    } else if vars[n - 1].name@ == name && is_immutable(vars[n - 1]) {
        Some(n - 1)
    } else {
        last_immutable_named(vars, name, n - 1)
    }
}

proof fn lemma_last_immutable_named(vars: Seq<UserVariable>, name: Seq<char>, n: int)
    ensures
        last_immutable_named(vars, name, n) matches Some(k) ==> 0 <= k < n && k < vars.len(),
    decreases n,
{
    if 0 < n <= vars.len() && !(vars[n - 1].name@ == name && is_immutable(vars[n - 1])) {
        lemma_last_immutable_named(vars, name, n - 1);
    }
}

/// Whether `name` is a built-in constant.
pub open spec fn is_constant(constants: Seq<String>, name: Seq<char>) -> bool {
    exists|k: int| 0 <= k < constants.len() && #[trigger] constants[k]@ == name
}

/// How an immutable variable is named in messages.
pub open spec fn immutable_kind(v: UserVariable) -> Seq<char> {
    match v.kind {
        VariableKind::Define => "define"@,
        VariableKind::EnumMember => "enum member"@,
        VariableKind::Regular => if (match v.var_type {
            Some(t) => t.array_dims,
            None => 0u8,
        }) > 0 {
            "const array"@
        } else {
            "const variable"@
        },
    }
}

/// The error for an assignment to an immutable variable or constant.
pub open spec fn immutable_diag(
    uri: Seq<char>,
    kind: Seq<char>,
    related: Option<RelatedView>,
    name: Seq<char>,
    line: int,
    col: int,
) -> DiagView {
    DiagView {
        range: span(line, col, byte_len(name)),
        severity: Severity::Error,
        code: "immutable-assignment"@,
        message: "Cannot assign to "@ + kind + " '"@ + name + "' because it is immutable"@,
        related,
        unnecessary: false,
    }
}

/// The errors for the assignments `assignments[i..]`: a built-in constant
/// decides first, then the last immutable variable of that name.
pub open spec fn immutable_from(
    uri: Seq<char>,
    vars: Seq<UserVariable>,
    constants: Seq<String>,
    assignments: Seq<(Seq<char>, int, int)>,
    i: int,
) -> Seq<DiagView>
    decreases assignments.len() - i,
{
    if i < 0 || i >= assignments.len() {
        seq![]
    } else {
        let a = assignments[i];
        let name = a.0;
        (if is_constant(constants, name) {
            seq![immutable_diag(uri, "built-in constant"@, None, name, a.1, a.2)]
        } else {
            match last_immutable_named(vars, name, vars.len() as int) {
                Some(k) => seq![
                    immutable_diag(
                        uri,
                        immutable_kind(vars[k]),
                        Some(
                            RelatedView {
                                uri,
                                range: vars[k].definition.range,
                                message: "Defined here as immutable"@,
                            },
                        ),
                        name,
                        a.1,
                        a.2,
                    ),
                ],
                None => seq![],
            }
        }) + immutable_from(uri, vars, constants, assignments, i + 1)
    }
}

fn find_last_immutable(vars: &Vec<UserVariable>, name: &String) -> (r: Option<usize>)
    ensures
        r matches Some(k) ==> last_immutable_named(vars@, name@, vars@.len() as int) == Some(
            k as int,
        ) && k < vars.len(),
        r is None ==> last_immutable_named(vars@, name@, vars@.len() as int) is None,
{
    let mut n = vars.len();
    while n > 0
        invariant
            n <= vars.len(),
            last_immutable_named(vars@, name@, n as int) == last_immutable_named(
                vars@,
                name@,
                vars@.len() as int,
            ),
        decreases n,
    {
        let v = &vars[n - 1];
        let imm = match v.var_type {
            Some(t) => match t.mutability {
                Mutability::Immutable => true,
                Mutability::Mutable => false,
            },
            None => false,
        };
        if v.name == *name && imm {
            return Some(n - 1);
        }
        n = n - 1;
    }
    None
}

fn is_constant_name(constants: &Vec<String>, name: &String) -> (r: bool)
    ensures
        r == is_constant(constants@, name@),
{
    let mut k: usize = 0;
    while k < constants.len()
        invariant
            k <= constants.len(),
            forall|j: int| 0 <= j < k ==> constants@[j]@ != name@,
        decreases constants.len() - k,
    {
        if constants[k] == *name {
            return true;
        }
        k = k + 1;
    }
    false
}

fn immutable_kind_str(v: &UserVariable) -> (r: &'static str)
    ensures
        r@ == immutable_kind(*v),
{
    match v.kind {
        VariableKind::Define => "define",
        VariableKind::EnumMember => "enum member",
        VariableKind::Regular => {
            let dims = match v.var_type {
                Some(t) => t.array_dims,
                None => 0u8,
            };
            if dims > 0 {
                "const array"
            } else {
                "const variable"
            }
        },
    }
}

/// An error for each assignment, given as (name, line, column), to a
/// built-in constant or to an immutable variable of the document (a
/// `const`, `define` or enum member), the latter pointing at its
/// declaration in `uri`.
pub fn check_immutable_assignments(
    uri: &String,
    vars: &Vec<UserVariable>,
    constants: &Vec<String>,
    assignments: &Vec<(String, usize, usize)>,
) -> (r: Vec<Diagnostic>)
    ensures
        diag_views(r@) == immutable_from(uri@, vars@, constants@, triple_views(assignments@), 0),
{
    let mut out: Vec<Diagnostic> = Vec::new();
    let mut i: usize = 0;
    while i < assignments.len()
        invariant
            i <= assignments.len(),
            immutable_from(uri@, vars@, constants@, triple_views(assignments@), 0) == diag_views(out@)
                + immutable_from(uri@, vars@, constants@, triple_views(assignments@), i as int),
        decreases assignments.len() - i,
    {
        let (ref name, line, col) = assignments[i];
        let ghost before = diag_views(out@);
        let range = make_span(line, col, name_byte_len(name));
        if is_constant_name(constants, name) {
            let mut m = String::new();
            push_str(&mut m, "Cannot assign to ");
            push_str(&mut m, "built-in constant");
            push_str(&mut m, " '");
            push_str(&mut m, name.as_str());
            push_str(&mut m, "' because it is immutable");
            let d = diag(range, Severity::Error, "immutable-assignment", m);
            assert(d@ == immutable_diag(uri@, "built-in constant"@, None, name@, line as int, col as int));
            push_diag(&mut out, d);
        } else {
            match find_last_immutable(vars, name) {
                Some(k) => {
                    proof {
                        lemma_last_immutable_named(vars@, name@, vars@.len() as int);
                    }
                    let v = &vars[k];
                    let kind = immutable_kind_str(v);
                    let mut m = String::new();
                    push_str(&mut m, "Cannot assign to ");
                    push_str(&mut m, kind);
                    push_str(&mut m, " '");
                    push_str(&mut m, name.as_str());
                    push_str(&mut m, "' because it is immutable");
                    let mut rm = String::new();
                    push_str(&mut rm, "Defined here as immutable");
                    let mut c = String::new();
                    push_str(&mut c, "immutable-assignment");
                    let d = Diagnostic {
                        range,
                        severity: Severity::Error,
                        code: c,
                        message: m,
                        related_information: Some(related(uri, v.definition.range, rm)),
                        unnecessary: false,
                    };
                    assert(d@ == immutable_diag(
                        uri@,
                        immutable_kind(vars@[k as int]),
                        Some(
                            RelatedView {
                                uri: uri@,
                                range: vars@[k as int].definition.range,
                                message: "Defined here as immutable"@,
                            },
                        ),
                        name@,
                        line as int,
                        col as int,
                    ));
                    push_diag(&mut out, d);
                },
                None => {},
            }
        }
        assert(diag_views(out@) + immutable_from(uri@, vars@, constants@, triple_views(assignments@), i + 1)
            =~= before + immutable_from(uri@, vars@, constants@, triple_views(assignments@), i as int));
        i = i + 1;
    }
    assert(diag_views(out@) + immutable_from(uri@, vars@, constants@, triple_views(assignments@), i as int)
        =~= diag_views(out@));
    out
}

// ---------------------------------------------------------------------------
// Unused definitions
// ---------------------------------------------------------------------------

/// Whether document `d` imports a symbol named `name` defined in `uri`.
pub open spec fn imports_symbol(d: DocumentState, uri: Seq<char>, name: Seq<char>) -> bool {
    ||| exists|k: int|
        0 <= k < d.imported_functions@.len() && #[trigger] d.imported_functions@[k].definition.uri@
            == uri && d.imported_functions@[k].name@ == name
    ||| exists|k: int|
        0 <= k < d.imported_variables@.len() && #[trigger] d.imported_variables@[k].definition.uri@
            == uri && d.imported_variables@[k].name@ == name
    ||| exists|k: int|
        0 <= k < d.imported_macros@.len() && #[trigger] d.imported_macros@[k].definition.uri@ == uri
            && d.imported_macros@[k].name@ == name
}

/// The search of the documents among `docs[j..]` that import `name` from
/// `uri`, one after the other, for a whole-word use of `name`; it ends at
/// the first.
pub open spec fn importers_scan(docs: Seq<DocumentState>, uri: Seq<char>, name: Seq<char>, j: int) -> ScanEnd
    decreases docs.len() - j,
{
    if j < 0 || j >= docs.len() {
        ScanEnd::Clear
    } else if imports_symbol(docs[j], uri, name) {
        match scan_lines(lines_spec(docs[j].text@), name, 0) {
            ScanEnd::Clear => importers_scan(docs, uri, name, j + 1),
            other => other,
        }
    } else {
        importers_scan(docs, uri, name, j + 1)
    }
}

/// Whether some open document imports `name` from `uri` and uses it as a
/// whole word: the search of the importing documents ends at such a use.
pub open spec fn used_in_importers(docs: Seq<DocumentState>, uri: Seq<char>, name: Seq<char>) -> bool {
    importers_scan(docs, uri, name, 0) == ScanEnd::Hit
}

/// Whether the search of the importing documents goes through up to its
/// first whole-word use of `name`, or to its end.
pub open spec fn importers_searchable(docs: Seq<DocumentState>, uri: Seq<char>, name: Seq<char>) -> bool {
    importers_scan(docs, uri, name, 0) != ScanEnd::Stuck
}

fn doc_imports_symbol(d: &DocumentState, uri: &String, name: &String) -> (r: bool)
    ensures
        r == imports_symbol(*d, uri@, name@),
{
    let mut k: usize = 0;
    while k < d.imported_functions.len()
        invariant
            k <= d.imported_functions.len(),
            forall|j: int|
                0 <= j < k ==> !(d.imported_functions@[j].definition.uri@ == uri@
                    && d.imported_functions@[j].name@ == name@),
        decreases d.imported_functions.len() - k,
    {
        if d.imported_functions[k].definition.uri == *uri && d.imported_functions[k].name == *name {
            assert(d.imported_functions@[k as int].definition.uri@ == uri@);
            return true;
        }
        k = k + 1;
    }
    let mut k: usize = 0;
    while k < d.imported_variables.len()
        invariant
            k <= d.imported_variables.len(),
            forall|j: int|
                0 <= j < k ==> !(d.imported_variables@[j].definition.uri@ == uri@
                    && d.imported_variables@[j].name@ == name@),
        decreases d.imported_variables.len() - k,
    {
        if d.imported_variables[k].definition.uri == *uri && d.imported_variables[k].name == *name {
            assert(d.imported_variables@[k as int].definition.uri@ == uri@);
            return true;
        }
        k = k + 1;
    }
    let mut k: usize = 0;
    while k < d.imported_macros.len()
        invariant
            k <= d.imported_macros.len(),
            forall|j: int|
                0 <= j < k ==> !(d.imported_macros@[j].definition.uri@ == uri@
                    && d.imported_macros@[j].name@ == name@),
        decreases d.imported_macros.len() - k,
    {
        if d.imported_macros[k].definition.uri == *uri && d.imported_macros[k].name == *name {
            assert(d.imported_macros@[k as int].definition.uri@ == uri@);
            return true;
        }
        k = k + 1;
    }
    false
}

/// Whether some open document imports `symbol_name` from `uri` and uses it
/// as a whole word.
pub fn is_symbol_used_in_importing_files(
    docs: &Vec<DocumentState>,
    uri: &String,
    symbol_name: &String,
) -> (r: bool)
    requires
        importers_searchable(docs@, uri@, symbol_name@),
    ensures
        r == used_in_importers(docs@, uri@, symbol_name@),
{
    let mut j: usize = 0;
    while j < docs.len()
        invariant
            j <= docs.len(),
            importers_scan(docs@, uri@, symbol_name@, 0) == importers_scan(docs@, uri@, symbol_name@, j as int),
        decreases docs.len() - j,
    {
        let d = &docs[j];
        if doc_imports_symbol(d, uri, symbol_name) {
            let lines = text_lines(d.text.as_str());
            match scan_for_word(&lines, symbol_name.as_str()) {
                ScanEnd::Clear => {},
                ScanEnd::Hit => {
                    return true;
                },
                ScanEnd::Stuck => {
                    return false;
                },
            }
        }
        j = j + 1;
    }
    false
}

/// The number of `positions` whose start lies outside `range`.
pub open spec fn count_outside(positions: Seq<Range>, range: Range) -> nat
    decreases positions.len(),
{
    if positions.len() == 0 {
        0
    } else {
        (if in_range_spec(positions[0].start, range) {
            0nat
        } else {
            1nat
        }) + count_outside(positions.drop_first(), range)
    }
}

pub(crate) fn count_refs_outside(positions: &Vec<Range>, range: &Range) -> (n: usize)
    ensures
        n == count_outside(positions@, *range),
{
    let mut n: usize = 0;
    let mut i: usize = positions.len();
    assert(positions@.take(i as int) =~= positions@);
    while i > 0
        invariant
            i <= positions.len(),
            n + count_outside(positions@.take(i as int), *range) == count_outside(positions@, *range),
            n <= positions.len() - i,
        decreases i,
    {
        proof {
            lemma_count_outside_take(positions@, *range, i as int);
        }
        if !is_position_in_range(positions[i - 1].start, range) {
            n = n + 1;
        }
        i = i - 1;
    }
    assert(positions@.take(0) =~= Seq::<Range>::empty());
    n
}

proof fn lemma_count_outside_take(positions: Seq<Range>, range: Range, i: int)
    requires
        0 < i <= positions.len(),
    ensures
        count_outside(positions.take(i), range) == count_outside(positions.take(i - 1), range)
            + (if in_range_spec(positions[i - 1].start, range) {
            0nat
        } else {
            1nat
        }),
    decreases i,
{
    let t = positions.take(i);
    if i == 1 {
        assert(t.drop_first() =~= Seq::<Range>::empty());
        assert(positions.take(0) =~= Seq::<Range>::empty());
    } else {
        lemma_count_outside_take(positions.drop_first(), range, i - 1);
        assert(t.drop_first() =~= positions.drop_first().take(i - 1));
        assert(positions.take(i - 1).drop_first() =~= positions.drop_first().take(i - 2));
    }
}

/// The warning for a function that is never used.
pub open spec fn unused_function_diag(f: UserFunction) -> DiagView {
    DiagView {
        range: f.definition.range,
        severity: Severity::Warning,
        code: "unused-function"@,
        message: "Function '"@ + f.name@ + "' is never used"@,
        related: None,
        unnecessary: true,
    }
}

/// How a variable kind starts a message.
pub open spec fn kind_title(k: VariableKind) -> Seq<char> {
    match k {
        VariableKind::EnumMember => "Enum member"@,
        VariableKind::Define => "Define"@,
        VariableKind::Regular => "Variable"@,
    }
}

/// The warning for a variable that is never used.
pub open spec fn unused_variable_diag(v: UserVariable) -> DiagView {
    DiagView {
        range: v.definition.range,
        severity: Severity::Warning,
        code: "unused-variable"@,
        message: kind_title(v.kind) + " '"@ + v.name@ + "' is never used"@,
        related: None,
        unnecessary: true,
    }
}

/// Whether a symbol is unused: no whole-word occurrence in the document's
/// lines outside its own definition, and no use in a document importing it.
pub open spec fn symbol_unused(
    lines: Seq<Seq<char>>,
    docs: Seq<DocumentState>,
    uri: Seq<char>,
    name: Seq<char>,
    def: Range,
) -> bool {
    count_outside(word_positions(lines, name), def) == 0 && !used_in_importers(docs, uri, name)
}

/// The warnings for the unused functions among `funcs[i..]`.
pub open spec fn unused_funcs_from(
    lines: Seq<Seq<char>>,
    docs: Seq<DocumentState>,
    uri: Seq<char>,
    funcs: Seq<UserFunction>,
    i: int,
) -> Seq<DiagView>
    decreases funcs.len() - i,
{
    if i < 0 || i >= funcs.len() {
        seq![]
    } else {
        (if symbol_unused(lines, docs, uri, funcs[i].name@, funcs[i].definition.range) {
            seq![unused_function_diag(funcs[i])]
        } else {
            seq![]
        }) + unused_funcs_from(lines, docs, uri, funcs, i + 1)
    }
}

/// The warnings for the unused variables among `vars[i..]`.
pub open spec fn unused_vars_from(
    lines: Seq<Seq<char>>,
    docs: Seq<DocumentState>,
    uri: Seq<char>,
    vars: Seq<UserVariable>,
    i: int,
) -> Seq<DiagView>
    decreases vars.len() - i,
{
    if i < 0 || i >= vars.len() {
        seq![]
    } else {
        (if symbol_unused(lines, docs, uri, vars[i].name@, vars[i].definition.range) {
            seq![unused_variable_diag(vars[i])]
        } else {
            seq![]
        }) + unused_vars_from(lines, docs, uri, vars, i + 1)
    }
}

/// Whether the search for a symbol's uses goes through: in the document
/// itself, and, where it has no use there outside its definition, in every
/// document that imports it.
pub open spec fn symbol_searchable(
    lines: Seq<Seq<char>>,
    docs: Seq<DocumentState>,
    uri: Seq<char>,
    name: Seq<char>,
    def: Range,
) -> bool {
    word_search_ok(lines, name) && (count_outside(word_positions(lines, name), def) == 0
        ==> importers_searchable(docs, uri, name))
}

fn symbol_is_unused(
    lines: &Vec<String>,
    docs: &Vec<DocumentState>,
    uri: &String,
    name: &String,
    def: &Range,
) -> (r: bool)
    requires
        symbol_searchable(string_views(lines@), docs@, uri@, name@, *def),
    ensures
        r == symbol_unused(string_views(lines@), docs@, uri@, name@, *def),
{
    let positions = find_word_positions(lines, name.as_str());
    let ref_count = count_refs_outside(&positions, def);
    ref_count == 0 && !is_symbol_used_in_importing_files(docs, uri, name)
}

fn importers_can_search(docs: &Vec<DocumentState>, uri: &String, name: &String) -> (r: bool)
    ensures
        r == importers_searchable(docs@, uri@, name@),
{
    let mut j: usize = 0;
    while j < docs.len()
        invariant
            j <= docs.len(),
            importers_scan(docs@, uri@, name@, 0) == importers_scan(docs@, uri@, name@, j as int),
        decreases docs.len() - j,
    {
        if doc_imports_symbol(&docs[j], uri, name) {
            let lines = text_lines(docs[j].text.as_str());
            match scan_for_word(&lines, name.as_str()) {
                ScanEnd::Clear => {},
                ScanEnd::Hit => {
                    return true;
                },
                ScanEnd::Stuck => {
                    return false;
                },
            }
        }
        j = j + 1;
    }
    true
}

fn can_search_symbol(lines: &Vec<String>, docs: &Vec<DocumentState>, uri: &String, name: &String, def: &Range) -> (r: bool)
    ensures
        r == symbol_searchable(string_views(lines@), docs@, uri@, name@, *def),
{
    if !search_allowed(lines, name.as_str()) {
        return false;
    }
    let positions = find_word_positions(lines, name.as_str());
    let n = count_refs_outside(&positions, def);
    n != 0 || importers_can_search(docs, uri, name)
}

/// Whether the search for uses that [`check_unused_symbols`] makes goes
/// through for every function and variable.
pub fn unused_search_ok(
    uri: &String,
    text: &str,
    funcs: &Vec<UserFunction>,
    vars: &Vec<UserVariable>,
    docs: &Vec<DocumentState>,
) -> (r: bool)
    ensures
        r == ((forall|i: int|
            0 <= i < funcs@.len() ==> symbol_searchable(
                lines_spec(text@),
                docs@,
                uri@,
                #[trigger] funcs@[i].name@,
                funcs@[i].definition.range,
            )) && (forall|i: int|
            0 <= i < vars@.len() ==> symbol_searchable(
                lines_spec(text@),
                docs@,
                uri@,
                #[trigger] vars@[i].name@,
                vars@[i].definition.range,
            ))),
{
    let lines = text_lines(text);
    let mut i: usize = 0;
    while i < funcs.len()
        invariant
            string_views(lines@) == lines_spec(text@),
            i <= funcs.len(),
            forall|k: int|
                0 <= k < i ==> symbol_searchable(
                    lines_spec(text@),
                    docs@,
                    uri@,
                    #[trigger] funcs@[k].name@,
                    funcs@[k].definition.range,
                ),
        decreases funcs.len() - i,
    {
        if !can_search_symbol(&lines, docs, uri, &funcs[i].name, &funcs[i].definition.range) {
            return false;
        }
        i = i + 1;
    }
    let mut i: usize = 0;
    while i < vars.len()
        invariant
            string_views(lines@) == lines_spec(text@),
            i <= vars.len(),
            forall|k: int|
                0 <= k < funcs@.len() ==> symbol_searchable(
                    lines_spec(text@),
                    docs@,
                    uri@,
                    #[trigger] funcs@[k].name@,
                    funcs@[k].definition.range,
                ),
            forall|k: int|
                0 <= k < i ==> symbol_searchable(
                    lines_spec(text@),
                    docs@,
                    uri@,
                    #[trigger] vars@[k].name@,
                    vars@[k].definition.range,
                ),
        decreases vars.len() - i,
    {
        if !can_search_symbol(&lines, docs, uri, &vars[i].name, &vars[i].definition.range) {
            return false;
        }
        i = i + 1;
    }
    true
}

/// A warning for each function, then each variable, of the document that
/// has no whole-word occurrence in `text` outside its own definition and is
/// used by no open document that imports it.
pub fn check_unused_symbols(
    uri: &String,
    text: &str,
    funcs: &Vec<UserFunction>,
    vars: &Vec<UserVariable>,
    docs: &Vec<DocumentState>,
) -> (r: Vec<Diagnostic>)
    requires
        forall|i: int|
            0 <= i < funcs@.len() ==> symbol_searchable(
                lines_spec(text@),
                docs@,
                uri@,
                #[trigger] funcs@[i].name@,
                funcs@[i].definition.range,
            ),
        forall|i: int|
            0 <= i < vars@.len() ==> symbol_searchable(
                lines_spec(text@),
                docs@,
                uri@,
                #[trigger] vars@[i].name@,
                vars@[i].definition.range,
            ),
    ensures
        diag_views(r@) == unused_funcs_from(lines_spec(text@), docs@, uri@, funcs@, 0)
            + unused_vars_from(lines_spec(text@), docs@, uri@, vars@, 0),
{
    let lines = text_lines(text);
    let ghost ls = lines_spec(text@);
    let mut out: Vec<Diagnostic> = Vec::new();
    let mut i: usize = 0;
    while i < funcs.len()
        invariant
            string_views(lines@) == ls,
            ls == lines_spec(text@),
            i <= funcs.len(),
            forall|i: int|
                0 <= i < funcs@.len() ==> symbol_searchable(
                    ls,
                    docs@,
                    uri@,
                    #[trigger] funcs@[i].name@,
                    funcs@[i].definition.range,
                ),
            unused_funcs_from(ls, docs@, uri@, funcs@, 0) == diag_views(out@) + unused_funcs_from(
                ls,
                docs@,
                uri@,
                funcs@,
                i as int,
            ),
        decreases funcs.len() - i,
    {
        let f = &funcs[i];
        let ghost before = diag_views(out@);
        if symbol_is_unused(&lines, docs, uri, &f.name, &f.definition.range) {
            let mut m = String::new();
            push_str(&mut m, "Function '");
            push_str(&mut m, f.name.as_str());
            push_str(&mut m, "' is never used");
            let mut c = String::new();
            push_str(&mut c, "unused-function");
            let d = Diagnostic {
                range: f.definition.range,
                severity: Severity::Warning,
                code: c,
                message: m,
                related_information: None,
                unnecessary: true,
            };
            push_diag(&mut out, d);
        }
        assert(diag_views(out@) + unused_funcs_from(ls, docs@, uri@, funcs@, i + 1) =~= before
            + unused_funcs_from(ls, docs@, uri@, funcs@, i as int));
        i = i + 1;
    }
    let ghost mid = diag_views(out@);
    assert(mid + unused_funcs_from(ls, docs@, uri@, funcs@, i as int) =~= mid);
    let mut i: usize = 0;
    while i < vars.len()
        invariant
            string_views(lines@) == ls,
            ls == lines_spec(text@),
            i <= vars.len(),
            forall|i: int|
                0 <= i < vars@.len() ==> symbol_searchable(
                    ls,
                    docs@,
                    uri@,
                    #[trigger] vars@[i].name@,
                    vars@[i].definition.range,
                ),
            mid + unused_vars_from(ls, docs@, uri@, vars@, 0) == diag_views(out@) + unused_vars_from(
                ls,
                docs@,
                uri@,
                vars@,
                i as int,
            ),
        decreases vars.len() - i,
    {
        let v = &vars[i];
        let ghost before = diag_views(out@);
        if symbol_is_unused(&lines, docs, uri, &v.name, &v.definition.range) {
            let title = match v.kind {
                VariableKind::EnumMember => "Enum member",
                VariableKind::Define => "Define",
                VariableKind::Regular => "Variable",
            };
            assert(title@ == kind_title(v.kind));
            let mut m = String::new();
            push_str(&mut m, title);
            push_str(&mut m, " '");
            push_str(&mut m, v.name.as_str());
            push_str(&mut m, "' is never used");
            let mut c = String::new();
            push_str(&mut c, "unused-variable");
            let d = Diagnostic {
                range: v.definition.range,
                severity: Severity::Warning,
                code: c,
                message: m,
                related_information: None,
                unnecessary: true,
            };
            push_diag(&mut out, d);
        }
        assert(diag_views(out@) + unused_vars_from(ls, docs@, uri@, vars@, i + 1) =~= before
            + unused_vars_from(ls, docs@, uri@, vars@, i as int));
        i = i + 1;
    }
    assert(diag_views(out@) + unused_vars_from(ls, docs@, uri@, vars@, i as int) =~= diag_views(
        out@,
    ));
    out
}

// ---------------------------------------------------------------------------
// Duplicate definitions
// ---------------------------------------------------------------------------

/// Whether key `a` comes before key `b`: by line, then by character.
pub open spec fn key_lt(a: (u32, u32), b: (u32, u32)) -> bool {
    a.0 < b.0 || (a.0 == b.0 && a.1 < b.1)
}

/// The first position in `order` whose key comes after `k`, or its length.
pub open spec fn insert_pos(keys: Seq<(u32, u32)>, order: Seq<int>, k: (u32, u32)) -> int
    decreases order.len(),
{
    if order.len() == 0 {
        0
    } else if key_lt(k, keys[order[0]]) {
        0
    } else {
        1 + insert_pos(keys, order.drop_first(), k)
    }
}

/// The indices `0..n` in the order of a stable sort by `keys`: each index
/// goes after all earlier ones whose key does not come after its own.
pub open spec fn sorted_order(keys: Seq<(u32, u32)>, n: int) -> Seq<int>
    decreases n,
{
    if n <= 0 {
        seq![]
    } else {
        let prev = sorted_order(keys, n - 1);
        let pos = insert_pos(keys, prev, keys[n - 1]);
        prev.take(pos).push(n - 1) + prev.skip(pos)
    }
}

proof fn lemma_insert_pos_bounds(keys: Seq<(u32, u32)>, order: Seq<int>, k: (u32, u32))
    ensures
        0 <= insert_pos(keys, order, k) <= order.len(),
    decreases order.len(),
{
    if order.len() > 0 && !key_lt(k, keys[order[0]]) {
        lemma_insert_pos_bounds(keys, order.drop_first(), k);
    }
}

pub(crate) proof fn lemma_sorted_order_len(keys: Seq<(u32, u32)>, n: int)
    requires
        0 <= n,
    ensures
        sorted_order(keys, n).len() == n,
        forall|t: int| 0 <= t < n ==> 0 <= #[trigger] sorted_order(keys, n)[t] < n,
    decreases n,
{
    if n > 0 {
        lemma_sorted_order_len(keys, n - 1);
        let prev = sorted_order(keys, n - 1);
        lemma_insert_pos_bounds(keys, prev, keys[n - 1]);
        let pos = insert_pos(keys, prev, keys[n - 1]);
        let r = prev.take(pos).push(n - 1) + prev.skip(pos);
        assert forall|t: int| 0 <= t < n implies 0 <= #[trigger] r[t] < n by {
            if t < pos {
                assert(r[t] == prev[t]);
            } else if t > pos {
                assert(r[t] == prev[t - 1]);
            }
        }
    }
}

/// The keys of a list of functions: where each definition starts.
pub open spec fn func_keys(fs: Seq<UserFunction>) -> Seq<(u32, u32)> {
    fs.map_values(
        |f: UserFunction| (f.definition.range.start.line, f.definition.range.start.character),
    )
}

/// The keys of a list of variables: where each definition starts.
pub open spec fn var_keys(vs: Seq<UserVariable>) -> Seq<(u32, u32)> {
    vs.map_values(
        |v: UserVariable| (v.definition.range.start.line, v.definition.range.start.character),
    )
}

/// Along `order`, the first position before `t` whose entry has the name
/// of the entry at `t`.
pub open spec fn first_same(names: Seq<Seq<char>>, order: Seq<int>, t: int, a: int) -> Option<int>
    decreases t - a,
{
    if a < 0 || a >= t {
        None
    } else if names[order[a]] == names[order[t]] {
        Some(a)
    } else {
        first_same(names, order, t, a + 1)
    }
}

proof fn lemma_first_same(names: Seq<Seq<char>>, order: Seq<int>, t: int, a: int)
    requires
        0 <= a,
    ensures
        first_same(names, order, t, a) matches Some(b) ==> a <= b < t,
    decreases t - a,
{
    if a < t && names[order[a]] != names[order[t]] {
        lemma_first_same(names, order, t, a + 1);
    }
}

/// The names of a list of functions.
pub open spec fn func_names(fs: Seq<UserFunction>) -> Seq<Seq<char>> {
    fs.map_values(|f: UserFunction| f.name@)
}

/// The names of a list of variables.
pub open spec fn var_names(vs: Seq<UserVariable>) -> Seq<Seq<char>> {
    vs.map_values(|v: UserVariable| v.name@)
}

/// The error for function `f` defined again after `first`.
pub open spec fn duplicate_function_diag(f: UserFunction, first: UserFunction) -> DiagView {
    DiagView {
        range: f.definition.range,
        severity: Severity::Error,
        code: "duplicate-function"@,
        message: "Function '"@ + f.name@ + "' is already defined on line "@ + decimal(
            (first.definition.range.start.line + 1) as nat,
        ),
        related: Some(
            RelatedView {
                uri: first.definition.uri@,
                range: first.definition.range,
                message: "First defined here"@,
            },
        ),
        unnecessary: false,
    }
}

/// The error for variable `v` defined again after `first`.
pub open spec fn duplicate_variable_diag(v: UserVariable, first: UserVariable) -> DiagView {
    DiagView {
        range: v.definition.range,
        severity: Severity::Error,
        code: "duplicate-variable"@,
        message: "Variable '"@ + v.name@ + "' is already defined on line "@ + decimal(
            (first.definition.range.start.line + 1) as nat,
        ),
        related: Some(
            RelatedView {
                uri: first.definition.uri@,
                range: first.definition.range,
                message: "First defined here"@,
            },
        ),
        unnecessary: false,
    }
}

/// The errors for the functions at positions `t..` of `order` that have
/// the name of one earlier in it, each pointing at the earliest.
pub open spec fn dup_funcs_from(fs: Seq<UserFunction>, order: Seq<int>, t: int) -> Seq<DiagView>
    decreases order.len() - t,
{
    if t < 0 || t >= order.len() {
        seq![]
    } else {
        (match first_same(func_names(fs), order, t, 0) {
            Some(a) => seq![duplicate_function_diag(fs[order[t]], fs[order[a]])],
            None => seq![],
        }) + dup_funcs_from(fs, order, t + 1)
    }
}

/// The errors for the variables at positions `t..` of `order` that have
/// the name of one earlier in it, each pointing at the earliest.
pub open spec fn dup_vars_from(vs: Seq<UserVariable>, order: Seq<int>, t: int) -> Seq<DiagView>
    decreases order.len() - t,
{
    if t < 0 || t >= order.len() {
        seq![]
    } else {
        (match first_same(var_names(vs), order, t, 0) {
            Some(a) => seq![duplicate_variable_diag(vs[order[t]], vs[order[a]])],
            None => seq![],
        }) + dup_vars_from(vs, order, t + 1)
    }
}

/// The duplicate-definition errors of a document: functions, then
/// variables, each list taken in the order of where the definitions start.
pub open spec fn duplicates_spec(fs: Seq<UserFunction>, vs: Seq<UserVariable>) -> Seq<DiagView> {
    dup_funcs_from(fs, sorted_order(func_keys(fs), fs.len() as int), 0) + dup_vars_from(
        vs,
        sorted_order(var_keys(vs), vs.len() as int),
        0,
    )
}

proof fn lemma_insert_pos_props(keys: Seq<(u32, u32)>, order: Seq<int>, k: (u32, u32))
    requires
        forall|t: int| 0 <= t < order.len() ==> 0 <= #[trigger] order[t] < keys.len(),
    ensures
        forall|t: int| 0 <= t < insert_pos(keys, order, k) ==> !key_lt(k, #[trigger] keys[order[t]]),
        insert_pos(keys, order, k) < order.len() ==> key_lt(k, keys[order[insert_pos(keys, order, k)]]),
    decreases order.len(),
{
    lemma_insert_pos_bounds(keys, order, k);
    if order.len() > 0 && !key_lt(k, keys[order[0]]) {
        let rest = order.drop_first();
        assert forall|t: int| 0 <= t < rest.len() implies 0 <= #[trigger] rest[t] < keys.len() by {
            assert(rest[t] == order[t + 1]);
        }
        lemma_insert_pos_props(keys, rest, k);
        assert forall|t: int| 0 <= t < insert_pos(keys, order, k) implies !key_lt(k, #[trigger] keys[order[t]]) by {
            if t > 0 {
                assert(order[t] == rest[t - 1]);
            }
        }
        lemma_insert_pos_bounds(keys, rest, k);
        let j = insert_pos(keys, rest, k);
        assert(insert_pos(keys, order, k) == 1 + j);
        if 1 + j < order.len() {
            assert(order[1 + j] == rest[j]);
        }
    }
}

/// Whether the indices `order` are in nondecreasing order of their keys.
pub open spec fn ordered_by_keys(keys: Seq<(u32, u32)>, order: Seq<int>) -> bool {
    forall|a: int, b: int| 0 <= a < b < order.len() ==> !key_lt(#[trigger] keys[order[b]], #[trigger] keys[order[a]])
}

/// The sort that the duplicate check makes puts the definitions in the
/// order of where they start.
pub proof fn law_sorted_order_sorted(keys: Seq<(u32, u32)>, n: int)
    requires
        0 <= n <= keys.len(),
    ensures
        ordered_by_keys(keys, sorted_order(keys, n)),
    decreases n,
{
    lemma_sorted_order_len(keys, n);
    if n > 0 {
        law_sorted_order_sorted(keys, n - 1);
        lemma_sorted_order_len(keys, n - 1);
        let prev = sorted_order(keys, n - 1);
        let k = keys[n - 1];
        lemma_insert_pos_props(keys, prev, k);
        lemma_insert_pos_bounds(keys, prev, k);
        let pos = insert_pos(keys, prev, k);
        let r = prev.take(pos).push(n - 1) + prev.skip(pos);
        assert(r.len() == n);
        assert forall|a: int, b: int| 0 <= a < b < r.len() implies !key_lt(#[trigger] keys[r[b]], #[trigger] keys[r[a]]) by {
            if b < pos {
                assert(r[a] == prev[a] && r[b] == prev[b]);
            } else if b == pos {
                assert(r[a] == prev[a] && r[b] == n - 1);
            } else if a < pos {
                assert(r[a] == prev[a] && r[b] == prev[b - 1]);
            } else if a == pos {
                assert(r[a] == n - 1 && r[b] == prev[b - 1]);
                if b - 1 > pos {
                    assert(!key_lt(keys[prev[b - 1]], keys[prev[pos]]));
                }
            } else {
                assert(r[a] == prev[a - 1] && r[b] == prev[b - 1]);
            }
        }
    }
}

/// Where a range starts, as a sort key.
pub open spec fn start_key(r: Range) -> (u32, u32) {
    (r.start.line, r.start.character)
}

/// Whether every diagnostic among `ds` points at a place that starts no
/// later than its own range.
pub open spec fn points_back(ds: Seq<DiagView>) -> bool {
    forall|k: int|
        0 <= k < ds.len() ==> (#[trigger] ds[k].related matches Some(r) && !key_lt(
            start_key(ds[k].range),
            start_key(r.range),
        ))
}

proof fn lemma_points_back_concat(a: Seq<DiagView>, b: Seq<DiagView>)
    requires
        points_back(a),
        points_back(b),
    ensures
        points_back(a + b),
{
    assert forall|k: int| 0 <= k < (a + b).len() implies (#[trigger] (a + b)[k].related matches Some(r) && !key_lt(
        start_key((a + b)[k].range),
        start_key(r.range),
    )) by {
        if k < a.len() {
            assert((a + b)[k] == a[k]);
        } else {
            assert((a + b)[k] == b[k - a.len()]);
        }
    }
}

proof fn lemma_dup_funcs_point_back(fs: Seq<UserFunction>, order: Seq<int>, t: int)
    requires
        0 <= t,
        ordered_by_keys(func_keys(fs), order),
        forall|j: int| 0 <= j < order.len() ==> 0 <= #[trigger] order[j] < fs.len(),
    ensures
        points_back(dup_funcs_from(fs, order, t)),
    decreases order.len() - t,
{
    if t < order.len() {
        lemma_dup_funcs_point_back(fs, order, t + 1);
        let head = match first_same(func_names(fs), order, t, 0) {
            Some(a) => seq![duplicate_function_diag(fs[order[t]], fs[order[a]])],
            None => seq![],
        };
        lemma_first_same(func_names(fs), order, t, 0);
        match first_same(func_names(fs), order, t, 0) {
            Some(a) => {
                assert(!key_lt(func_keys(fs)[order[t]], func_keys(fs)[order[a]]));
                assert(head[0].related matches Some(r) && !key_lt(start_key(head[0].range), start_key(r.range)));
            },
            None => {},
        }
        lemma_points_back_concat(head, dup_funcs_from(fs, order, t + 1));
    }
}

proof fn lemma_dup_vars_point_back(vs: Seq<UserVariable>, order: Seq<int>, t: int)
    requires
        0 <= t,
        ordered_by_keys(var_keys(vs), order),
        forall|j: int| 0 <= j < order.len() ==> 0 <= #[trigger] order[j] < vs.len(),
    ensures
        points_back(dup_vars_from(vs, order, t)),
    decreases order.len() - t,
{
    if t < order.len() {
        lemma_dup_vars_point_back(vs, order, t + 1);
        let head = match first_same(var_names(vs), order, t, 0) {
            Some(a) => seq![duplicate_variable_diag(vs[order[t]], vs[order[a]])],
            None => seq![],
        };
        lemma_first_same(var_names(vs), order, t, 0);
        match first_same(var_names(vs), order, t, 0) {
            Some(a) => {
                assert(!key_lt(var_keys(vs)[order[t]], var_keys(vs)[order[a]]));
                assert(head[0].related matches Some(r) && !key_lt(start_key(head[0].range), start_key(r.range)));
            },
            None => {},
        }
        lemma_points_back_concat(head, dup_vars_from(vs, order, t + 1));
    }
}

/// Each redefinition error points at a definition of the name that starts
/// no later than the redefinition itself.
pub proof fn law_duplicates_point_back(fs: Seq<UserFunction>, vs: Seq<UserVariable>)
    ensures
        points_back(duplicates_spec(fs, vs)),
{
    law_sorted_order_sorted(func_keys(fs), fs.len() as int);
    law_sorted_order_sorted(var_keys(vs), vs.len() as int);
    lemma_sorted_order_len(func_keys(fs), fs.len() as int);
    lemma_sorted_order_len(var_keys(vs), vs.len() as int);
    lemma_dup_funcs_point_back(fs, sorted_order(func_keys(fs), fs.len() as int), 0);
    lemma_dup_vars_point_back(vs, sorted_order(var_keys(vs), vs.len() as int), 0);
    lemma_points_back_concat(
        dup_funcs_from(fs, sorted_order(func_keys(fs), fs.len() as int), 0),
        dup_vars_from(vs, sorted_order(var_keys(vs), vs.len() as int), 0),
    );
}

/// The indices of `keys` in the order of a stable sort by key.
pub(crate) fn stable_order(keys: &Vec<(u32, u32)>) -> (r: Vec<usize>)
    ensures
        r@.map_values(|i: usize| i as int) == sorted_order(keys@, keys@.len() as int),
        r@.len() == keys@.len(),
        forall|t: int| 0 <= t < r@.len() ==> #[trigger] r@[t] < keys@.len(),
{
    let mut order: Vec<usize> = Vec::new();
    let mut j: usize = 0;
    while j < keys.len()
        invariant
            j <= keys.len(),
            order@.map_values(|i: usize| i as int) == sorted_order(keys@, j as int),
            order@.len() == j,
            forall|t: int| 0 <= t < order@.len() ==> #[trigger] order@[t] < j,
        decreases keys.len() - j,
    {
        let k = keys[j];
        let ghost prev = order@.map_values(|i: usize| i as int);
        let mut pos: usize = 0;
        proof {
            lemma_insert_pos_bounds(keys@, prev, k);
            assert(prev.skip(0) =~= prev);
        }
        while pos < order.len() && !(k.0 < keys[order[pos]].0 || (k.0 == keys[order[pos]].0 && k.1
            < keys[order[pos]].1))
            invariant
                prev == order@.map_values(|i: usize| i as int),
                order@.len() == j,
                j < keys.len(),
                forall|t: int| 0 <= t < order@.len() ==> #[trigger] order@[t] < j,
                pos <= order.len(),
                pos + insert_pos(keys@, prev.skip(pos as int), k) == insert_pos(keys@, prev, k),
            decreases order.len() - pos,
        {
            assert(prev.skip(pos as int).drop_first() =~= prev.skip(pos + 1));
            pos = pos + 1;
        }
        proof {
            if pos < order.len() {
                assert(prev.skip(pos as int)[0] == prev[pos as int]);
            }
            assert(insert_pos(keys@, prev.skip(pos as int), k) == 0);
        }
        order.insert(pos, j);
        proof {
            assert(keys@[j as int] == k);
            assert(order@.map_values(|i: usize| i as int) =~= prev.take(pos as int).push(j as int)
                + prev.skip(pos as int));
        }
        j = j + 1;
    }
    order
}

/// Along `order`, the first position before `t` holding the name at `t`.
fn find_first_same(names: &Vec<String>, order: &Vec<usize>, t: usize) -> (r: Option<usize>)
    requires
        t < order@.len(),
        forall|s: int| 0 <= s < order@.len() ==> #[trigger] order@[s] < names@.len(),
    ensures
        r matches Some(a) ==> first_same(
            string_views(names@),
            order@.map_values(|i: usize| i as int),
            t as int,
            0,
        ) == Some(a as int) && a < t,
        r is None ==> first_same(
            string_views(names@),
            order@.map_values(|i: usize| i as int),
            t as int,
            0,
        ) is None,
{
    let ghost ord = order@.map_values(|i: usize| i as int);
    let mut a: usize = 0;
    while a < t
        invariant
            ord == order@.map_values(|i: usize| i as int),
            t < order@.len(),
            forall|s: int| 0 <= s < order@.len() ==> #[trigger] order@[s] < names@.len(),
            a <= t,
            first_same(string_views(names@), ord, t as int, a as int) == first_same(
                string_views(names@),
                ord,
                t as int,
                0,
            ),
        decreases t - a,
    {
        if names[order[a]] == names[order[t]] {
            return Some(a);
        }
        a = a + 1;
    }
    None
}

/// An error for each function, then each variable, whose name was already
/// defined by an earlier definition in the same list (earlier by where the
/// definition starts, ties kept in list order), pointing at the earliest.
pub fn check_duplicate_definitions(funcs: &Vec<UserFunction>, vars: &Vec<UserVariable>) -> (r: Vec<
    Diagnostic,
>)
    ensures
        diag_views(r@) == duplicates_spec(funcs@, vars@),
{
    let mut out: Vec<Diagnostic> = Vec::new();
    // Functions.
    let mut keys: Vec<(u32, u32)> = Vec::new();
    let mut names: Vec<String> = Vec::new();
    let mut i: usize = 0;
    while i < funcs.len()
        invariant
            i <= funcs.len(),
            keys@ == func_keys(funcs@).take(i as int),
            string_views(names@) == func_names(funcs@).take(i as int),
        decreases funcs.len() - i,
    {
        let f = &funcs[i];
        keys.push((f.definition.range.start.line, f.definition.range.start.character));
        let ghost nb = string_views(names@);
        let nm = copy_string(&f.name);
        names.push(nm);
        assert(string_views(names@) =~= nb.push(nm@));
        i = i + 1;
        assert(keys@ =~= func_keys(funcs@).take(i as int));
        assert(string_views(names@) =~= func_names(funcs@).take(i as int));
    }
    assert(keys@ =~= func_keys(funcs@));
    assert(string_views(names@) =~= func_names(funcs@));
    let order = stable_order(&keys);
    let ghost ord = order@.map_values(|i: usize| i as int);
    let mut t: usize = 0;
    assert(diag_views(out@) =~= Seq::<DiagView>::empty());
    while t < order.len()
        invariant
            ord == order@.map_values(|i: usize| i as int),
            ord == sorted_order(func_keys(funcs@), funcs@.len() as int),
            order@.len() == funcs@.len(),
            string_views(names@) == func_names(funcs@),
            names@.len() == funcs@.len(),
            forall|s: int| 0 <= s < order@.len() ==> #[trigger] order@[s] < funcs@.len(),
            t <= order.len(),
            dup_funcs_from(funcs@, ord, 0) == diag_views(out@) + dup_funcs_from(funcs@, ord, t as int),
        decreases order.len() - t,
    {
        let ghost before = diag_views(out@);
        match find_first_same(&names, &order, t) {
            Some(a) => {
                let f = &funcs[order[t]];
                let first = &funcs[order[a]];
                let mut m = String::new();
                push_str(&mut m, "Function '");
                push_str(&mut m, f.name.as_str());
                push_str(&mut m, "' is already defined on line ");
                push_decimal(&mut m, first.definition.range.start.line as u64 + 1);
                let mut rm = String::new();
                push_str(&mut rm, "First defined here");
                let mut c = String::new();
                push_str(&mut c, "duplicate-function");
                let d = Diagnostic {
                    range: f.definition.range,
                    severity: Severity::Error,
                    code: c,
                    message: m,
                    related_information: Some(related(&first.definition.uri, first.definition.range, rm)),
                    unnecessary: false,
                };
                assert(d@ == duplicate_function_diag(funcs@[ord[t as int]], funcs@[ord[a as int]]));
                push_diag(&mut out, d);
            },
            None => {},
        }
        assert(diag_views(out@) + dup_funcs_from(funcs@, ord, t + 1) =~= before + dup_funcs_from(
            funcs@,
            ord,
            t as int,
        ));
        t = t + 1;
    }
    let ghost mid = diag_views(out@);
    assert(mid + dup_funcs_from(funcs@, ord, t as int) =~= mid);
    // Variables.
    let mut keys: Vec<(u32, u32)> = Vec::new();
    let mut names: Vec<String> = Vec::new();
    let mut i: usize = 0;
    while i < vars.len()
        invariant
            i <= vars.len(),
            keys@ == var_keys(vars@).take(i as int),
            string_views(names@) == var_names(vars@).take(i as int),
        decreases vars.len() - i,
    {
        let v = &vars[i];
        keys.push((v.definition.range.start.line, v.definition.range.start.character));
        let ghost nb = string_views(names@);
        let nm = copy_string(&v.name);
        names.push(nm);
        assert(string_views(names@) =~= nb.push(nm@));
        i = i + 1;
        assert(keys@ =~= var_keys(vars@).take(i as int));
        assert(string_views(names@) =~= var_names(vars@).take(i as int));
    }
    assert(keys@ =~= var_keys(vars@));
    assert(string_views(names@) =~= var_names(vars@));
    let order = stable_order(&keys);
    let ghost vord = order@.map_values(|i: usize| i as int);
    let mut t: usize = 0;
    while t < order.len()
        invariant
            vord == order@.map_values(|i: usize| i as int),
            vord == sorted_order(var_keys(vars@), vars@.len() as int),
            order@.len() == vars@.len(),
            string_views(names@) == var_names(vars@),
            names@.len() == vars@.len(),
            forall|s: int| 0 <= s < order@.len() ==> #[trigger] order@[s] < vars@.len(),
            t <= order.len(),
            mid + dup_vars_from(vars@, vord, 0) == diag_views(out@) + dup_vars_from(vars@, vord, t as int),
        decreases order.len() - t,
    {
        let ghost before = diag_views(out@);
        match find_first_same(&names, &order, t) {
            Some(a) => {
                let v = &vars[order[t]];
                let first = &vars[order[a]];
                let mut m = String::new();
                push_str(&mut m, "Variable '");
                push_str(&mut m, v.name.as_str());
                push_str(&mut m, "' is already defined on line ");
                push_decimal(&mut m, first.definition.range.start.line as u64 + 1);
                let mut rm = String::new();
                push_str(&mut rm, "First defined here");
                let mut c = String::new();
                push_str(&mut c, "duplicate-variable");
                let d = Diagnostic {
                    range: v.definition.range,
                    severity: Severity::Error,
                    code: c,
                    message: m,
                    related_information: Some(related(&first.definition.uri, first.definition.range, rm)),
                    unnecessary: false,
                };
                assert(d@ == duplicate_variable_diag(vars@[vord[t as int]], vars@[vord[a as int]]));
                push_diag(&mut out, d);
            },
            None => {},
        }
        assert(diag_views(out@) + dup_vars_from(vars@, vord, t + 1) =~= before + dup_vars_from(
            vars@,
            vord,
            t as int,
        ));
        t = t + 1;
    }
    assert(diag_views(out@) + dup_vars_from(vars@, vord, t as int) =~= diag_views(out@));
    out
}

} // verus!
