//! Completion: the words that may finish the one being typed, drawn from
//! the language's vocabulary and the symbols of the document, at most fifty.
use vstd::prelude::*;
use vstd::utf8::encode_utf8;
use crate::types::{Position, UserFunction, UserMacro, UserVariable, VariableKind, Features, DocumentState, opt_view};
use crate::data::{BuiltinFunction, Snippet, keyword_list, datatype_list, keywords, datatypes};
use crate::text::{string_views, chars_of};
use crate::strings::push_str;
use crate::doc_comments::starts_with;
use crate::cursor::{Fault, cursor_prefix, cursor_prefix_spec};
use crate::navigation::{signature_label, join_strings};

verus! {

/// The most items a completion answer holds.
pub const MAX_ITEMS: usize = 50;

/// What a completion item stands for.
#[derive(Clone, Copy, Debug, PartialEq, Eq, Structural)]
pub enum CompletionKind {
    Keyword,
    TypeParameter,
    Constant,
    Function,
    EnumMember,
    Variable,
    Snippet,
}

/// A completion item.
#[derive(Debug)]
pub struct CompletionEntry {
    pub label: String,
    pub kind: CompletionKind,
    pub detail: Option<String>,
    pub documentation: Option<String>,
    pub insert_text: Option<String>,
    /// The insert text is a snippet with placeholders.
    pub is_snippet: bool,
}

/// The contents of a completion item: label, kind, detail, documentation,
/// insert text and whether that is a snippet.
pub struct EntryView {
    pub label: Seq<char>,
    pub kind: CompletionKind,
    pub detail: Option<Seq<char>>,
    pub documentation: Option<Seq<char>>,
    pub insert_text: Option<Seq<char>>,
    pub is_snippet: bool,
}

impl View for CompletionEntry {
    type V = EntryView;

    open spec fn view(&self) -> EntryView {
        EntryView {
            label: self.label@,
            kind: self.kind,
            detail: opt_view(self.detail),
            documentation: opt_view(self.documentation),
            insert_text: opt_view(self.insert_text),
            is_snippet: self.is_snippet,
        }
    }
}

/// The contents of a list of completion items.
pub open spec fn entry_views(v: Seq<CompletionEntry>) -> Seq<EntryView> {
    v.map_values(|e: CompletionEntry| e@)
}

/// `items` followed by as many of `cands` as fit under the limit.
pub open spec fn capped(items: Seq<EntryView>, cands: Seq<EntryView>) -> Seq<EntryView> {
    if items.len() < MAX_ITEMS {
        let room = MAX_ITEMS - items.len();
        items + cands.take(if cands.len() < room { cands.len() as int } else { room as int })
    } else {
        items
    }
}

/// The item for a word of the vocabulary.
pub open spec fn word_entry(w: Seq<char>, kind: CompletionKind, detail: Seq<char>) -> EntryView {
    EntryView { label: w, kind, detail: Some(detail), documentation: None, insert_text: None, is_snippet: false }
}

/// The items for the words among `ws` that start with `p`.
pub open spec fn word_items(ws: Seq<Seq<char>>, p: Seq<char>, kind: CompletionKind, detail: Seq<char>) -> Seq<EntryView>
    decreases ws.len(),
{
    if ws.len() == 0 {
        seq![]
    } else {
        word_items(ws.drop_last(), p, kind, detail) + if starts_with(ws.last(), p) {
            seq![word_entry(ws.last(), kind, detail)]
        } else {
            seq![]
        }
    }
}

/// The text inserted for a call: the name and a parenthesised placeholder.
pub open spec fn call_insert(name: Seq<char>) -> Seq<char> {
    name + "(${1})"@
}

/// The item for a built-in function.
pub open spec fn builtin_entry(b: BuiltinFunction) -> EntryView {
    EntryView {
        label: b.name@,
        kind: CompletionKind::Function,
        detail: Some(signature_label(b.name@, b.parameters@)),
        documentation: Some(b.description@),
        insert_text: Some(call_insert(b.name@)),
        is_snippet: true,
    }
}

/// The items for the built-in functions whose names start with `p`.
pub open spec fn builtin_items(bs: Seq<BuiltinFunction>, p: Seq<char>) -> Seq<EntryView>
    decreases bs.len(),
{
    if bs.len() == 0 {
        seq![]
    } else {
        builtin_items(bs.drop_last(), p) + if starts_with(bs.last().name@, p) {
            seq![builtin_entry(bs.last())]
        } else {
            seq![]
        }
    }
}

/// A documentation text, or `default` where there is none.
pub open spec fn doc_or(doc: Option<Seq<char>>, default: Seq<char>) -> Seq<char> {
    match doc {
        Some(d) => d,
        None => default,
    }
}

/// The item for a function of a document, with `suffix` after its
/// signature and `default` as documentation where it has none.
pub open spec fn function_entry(f: UserFunction, suffix: Seq<char>, default: Seq<char>) -> EntryView {
    EntryView {
        label: f.name@,
        kind: CompletionKind::Function,
        detail: Some(signature_label(f.name@, f.parameters@) + suffix),
        documentation: Some(doc_or(opt_view(f.documentation), default)),
        insert_text: Some(call_insert(f.name@)),
        is_snippet: true,
    }
}

/// The items for the functions among `fs` whose names start with `p`.
pub open spec fn function_items(fs: Seq<UserFunction>, p: Seq<char>, suffix: Seq<char>, default: Seq<char>) -> Seq<EntryView>
    decreases fs.len(),
{
    if fs.len() == 0 {
        seq![]
    } else {
        function_items(fs.drop_last(), p, suffix, default) + if starts_with(fs.last().name@, p) {
            seq![function_entry(fs.last(), suffix, default)]
        } else {
            seq![]
        }
    }
}

/// The item for a macro of a document.
pub open spec fn macro_entry(m: UserMacro, suffix: Seq<char>, default: Seq<char>) -> EntryView {
    EntryView {
        label: m.name@,
        kind: CompletionKind::Function,
        detail: Some("define! "@ + signature_label(m.name@, m.parameters@) + suffix),
        documentation: Some(doc_or(opt_view(m.documentation), default)),
        insert_text: Some(call_insert(m.name@)),
        is_snippet: true,
    }
}

/// The items for the macros among `ms` whose names start with `p`.
pub open spec fn macro_items(ms: Seq<UserMacro>, p: Seq<char>, suffix: Seq<char>, default: Seq<char>) -> Seq<EntryView>
    decreases ms.len(),
{
    if ms.len() == 0 {
        seq![]
    } else {
        macro_items(ms.drop_last(), p, suffix, default) + if starts_with(ms.last().name@, p) {
            seq![macro_entry(ms.last(), suffix, default)]
        } else {
            seq![]
        }
    }
}

/// The completion kind of a variable of the given kind.
pub open spec fn variable_completion_kind(k: VariableKind) -> CompletionKind {
    match k {
        VariableKind::EnumMember => CompletionKind::EnumMember,
        VariableKind::Define => CompletionKind::Constant,
        VariableKind::Regular => CompletionKind::Variable,
    }
}

/// The detail shown for a variable of the given kind, of the document
/// itself or imported.
pub open spec fn variable_detail(k: VariableKind, imported: bool) -> Seq<char> {
    match k {
        VariableKind::EnumMember => if imported {
            "Enum member (imported)"@
        } else {
            "Enum member"@
        },
        VariableKind::Define => if imported {
            "Define (imported)"@
        } else {
            "Define"@
        },
        VariableKind::Regular => if imported {
            "Variable (imported)"@
        } else {
            "User-defined variable"@
        },
    }
}

/// The item for a variable.
pub open spec fn variable_entry(v: UserVariable, imported: bool) -> EntryView {
    EntryView {
        label: v.name@,
        kind: variable_completion_kind(v.kind),
        detail: Some(variable_detail(v.kind, imported)),
        documentation: opt_view(v.documentation),
        insert_text: None,
        is_snippet: false,
    }
}

/// The items for the variables among `vs` whose names start with `p`.
pub open spec fn variable_items(vs: Seq<UserVariable>, p: Seq<char>, imported: bool) -> Seq<EntryView>
    decreases vs.len(),
{
    if vs.len() == 0 {
        seq![]
    } else {
        variable_items(vs.drop_last(), p, imported) + if starts_with(vs.last().name@, p) {
            seq![variable_entry(vs.last(), imported)]
        } else {
            seq![]
        }
    }
}

/// The item for a snippet.
pub open spec fn snippet_entry(s: Snippet) -> EntryView {
    EntryView {
        label: s.name@,
        kind: CompletionKind::Snippet,
        detail: Some("Code snippet"@),
        documentation: Some(s.description@),
        insert_text: Some(s.snippet@),
        is_snippet: true,
    }
}

/// The items for the snippets whose names start with `p`.
pub open spec fn snippet_items(ss: Seq<Snippet>, p: Seq<char>) -> Seq<EntryView>
    decreases ss.len(),
{
    if ss.len() == 0 {
        seq![]
    } else {
        snippet_items(ss.drop_last(), p) + if starts_with(ss.last().name@, p) {
            seq![snippet_entry(ss.last())]
        } else {
            seq![]
        }
    }
}

/// The completion items for the prefix `p`, in this order and each source
/// cut off at the limit: keywords and data types, constants, built-in
/// functions, the document's functions, macros (with the macros feature)
/// and variables, the imported functions, macros and variables (with the
/// imports feature, macros also with the macros feature), and snippets.
pub open spec fn completion_items(
    d: DocumentState,
    f: Features,
    bs: Seq<BuiltinFunction>,
    cs: Seq<String>,
    ss: Seq<Snippet>,
    p: Seq<char>,
) -> Seq<EntryView> {
    let a = word_items(keyword_list(), p, CompletionKind::Keyword, "Language keyword"@) + word_items(
        datatype_list(),
        p,
        CompletionKind::TypeParameter,
        "Language data type"@,
    );
    let b = capped(a, word_items(string_views(cs), p, CompletionKind::Constant, "Language constant"@));
    let c = capped(b, builtin_items(bs, p));
    let e = capped(c, function_items(d.functions@, p, seq![], "User-defined function"@));
    let g = if f.macros {
        capped(e, macro_items(d.macros@, p, seq![], "User-defined macro"@))
    } else {
        e
    };
    let h = capped(g, variable_items(d.variables@, p, false));
    let i = if f.imports {
        capped(h, function_items(d.imported_functions@, p, " (imported)"@, "Imported function"@))
    } else {
        h
    };
    let j = if f.imports && f.macros {
        capped(i, macro_items(d.imported_macros@, p, " (imported)"@, "Imported macro"@))
    } else {
        i
    };
    let k = if f.imports {
        capped(j, variable_items(d.imported_variables@, p, true))
    } else {
        j
    };
    capped(k, snippet_items(ss, p))
}

/// The completion answer at `pos`: nothing where the text has no such line,
/// or where the word before the cursor is shorter than two bytes and the
/// user did not ask for completion explicitly (`invoked`).
pub open spec fn completion_spec(
    d: DocumentState,
    f: Features,
    bs: Seq<BuiltinFunction>,
    cs: Seq<String>,
    ss: Seq<Snippet>,
    pos: Position,
    invoked: bool,
) -> Result<Option<Seq<EntryView>>, Fault> {
    match cursor_prefix_spec(d.text@, pos) {
        Err(e) => Err(e),
        Ok(None) => Ok(None),
        Ok(Some(p)) => if !invoked && encode_utf8(p).len() < 2 {
            Ok(None)
        } else {
            Ok(Some(completion_items(d, f, bs, cs, ss, p)))
        },
    }
}

proof fn lemma_word_items_len(ws: Seq<Seq<char>>, p: Seq<char>, kind: CompletionKind, detail: Seq<char>)
    ensures
        word_items(ws, p, kind, detail).len() <= ws.len(),
    decreases ws.len(),
{
    if ws.len() > 0 {
        lemma_word_items_len(ws.drop_last(), p, kind, detail);
    }
}

fn starts_with_str(s: &str, p: &str) -> (r: bool)
    ensures
        r == starts_with(s@, p@),
{
    let a = chars_of(s);
    let b = chars_of(p);
    if b.len() > a.len() {
        return false;
    }
    let mut j: usize = 0;
    while j < b.len()
        invariant
            a@ == s@,
            b@ == p@,
            b@.len() <= a@.len(),
            j <= b@.len(),
            forall|t: int| 0 <= t < j ==> a@[t] == b@[t],
        decreases b.len() - j,
    {
        if a[j] != b[j] {
            assert(a@.take(b@.len() as int)[j as int] != b@[j as int]);
            return false;
        }
        j = j + 1;
    }
    assert(a@.take(b@.len() as int) =~= b@);
    true
}

fn push_entry(out: &mut Vec<CompletionEntry>, e: CompletionEntry)
    ensures
        entry_views(final(out)@) == entry_views(old(out)@).push(e@),
{
    let ghost before = entry_views(out@);
    out.push(e);
    assert(entry_views(out@) =~= before.push(e@));
}

fn append_capped(out: &mut Vec<CompletionEntry>, cands: Vec<CompletionEntry>)
    ensures
        entry_views(final(out)@) == capped(entry_views(old(out)@), entry_views(cands@)),
{
    let ghost base = entry_views(out@);
    let ghost cv = entry_views(cands@);
    if out.len() >= MAX_ITEMS {
        return;
    }
    let room = MAX_ITEMS - out.len();
    let mut cands = cands;
    if cands.len() > room {
        cands.truncate(room);
    }
    assert(entry_views(cands@) =~= cv.take(if cv.len() < room { cv.len() as int } else { room as int }));
    let ghost rest = entry_views(cands@);
    out.append(&mut cands);
    assert(entry_views(out@) =~= base + rest);
}

fn word_candidates(ws: &Vec<String>, p: &str, kind: CompletionKind, detail: &str) -> (r: Vec<CompletionEntry>)
    ensures
        entry_views(r@) == word_items(string_views(ws@), p@, kind, detail@),
{
    let ghost v = string_views(ws@);
    let mut out: Vec<CompletionEntry> = Vec::new();
    let mut i: usize = 0;
    while i < ws.len()
        invariant
            v == string_views(ws@),
            i <= ws.len(),
            entry_views(out@) == word_items(v.take(i as int), p@, kind, detail@),
        decreases ws.len() - i,
    {
        proof {
            assert(v.take(i + 1).drop_last() =~= v.take(i as int));
            assert(v.take(i + 1).last() == ws@[i as int]@);
        }
        if starts_with_str(ws[i].as_str(), p) {
            push_entry(
                &mut out,
                CompletionEntry {
                    label: ws[i].clone(),
                    kind,
                    detail: Some(detail.to_owned()),
                    documentation: None,
                    insert_text: None,
                    is_snippet: false,
                },
            );
        }
        i = i + 1;
    }
    assert(v.take(ws.len() as int) =~= v);
    out
}

fn call_insert_text(name: &String) -> (r: String)
    ensures
        r@ == call_insert(name@),
{
    let mut s = name.clone();
    push_str(&mut s, "(${1})");
    s
}

fn builtin_candidates(bs: &Vec<BuiltinFunction>, p: &str) -> (r: Vec<CompletionEntry>)
    ensures
        entry_views(r@) == builtin_items(bs@, p@),
{
    let mut out: Vec<CompletionEntry> = Vec::new();
    let mut i: usize = 0;
    while i < bs.len()
        invariant
            i <= bs.len(),
            entry_views(out@) == builtin_items(bs@.take(i as int), p@),
        decreases bs.len() - i,
    {
        proof {
            assert(bs@.take(i + 1).drop_last() =~= bs@.take(i as int));
        }
        let b = &bs[i];
        if starts_with_str(b.name.as_str(), p) {
            let mut detail = b.name.clone();
            push_str(&mut detail, "(");
            let params = join_strings(&b.parameters, ", ");
            push_str(&mut detail, params.as_str());
            push_str(&mut detail, ")");
            push_entry(
                &mut out,
                CompletionEntry {
                    label: b.name.clone(),
                    kind: CompletionKind::Function,
                    detail: Some(detail),
                    documentation: Some(b.description.clone()),
                    insert_text: Some(call_insert_text(&b.name)),
                    is_snippet: true,
                },
            );
        }
        i = i + 1;
    }
    assert(bs@.take(bs.len() as int) =~= bs@);
    out
}

fn doc_or_default(doc: &Option<String>, default: &str) -> (r: String)
    ensures
        r@ == doc_or(opt_view(*doc), default@),
{
    match doc {
        Some(d) => d.clone(),
        None => default.to_owned(),
    }
}

fn function_candidates(fs: &Vec<UserFunction>, p: &str, suffix: &str, default: &str) -> (r: Vec<CompletionEntry>)
    ensures
        entry_views(r@) == function_items(fs@, p@, suffix@, default@),
{
    let mut out: Vec<CompletionEntry> = Vec::new();
    let mut i: usize = 0;
    while i < fs.len()
        invariant
            i <= fs.len(),
            entry_views(out@) == function_items(fs@.take(i as int), p@, suffix@, default@),
        decreases fs.len() - i,
    {
        proof {
            assert(fs@.take(i + 1).drop_last() =~= fs@.take(i as int));
        }
        let f = &fs[i];
        if starts_with_str(f.name.as_str(), p) {
            let mut detail = f.name.clone();
            push_str(&mut detail, "(");
            let params = join_strings(&f.parameters, ", ");
            push_str(&mut detail, params.as_str());
            push_str(&mut detail, ")");
            push_str(&mut detail, suffix);
            push_entry(
                &mut out,
                CompletionEntry {
                    label: f.name.clone(),
                    kind: CompletionKind::Function,
                    detail: Some(detail),
                    documentation: Some(doc_or_default(&f.documentation, default)),
                    insert_text: Some(call_insert_text(&f.name)),
                    is_snippet: true,
                },
            );
        }
        i = i + 1;
    }
    assert(fs@.take(fs.len() as int) =~= fs@);
    out
}

fn macro_candidates(ms: &Vec<UserMacro>, p: &str, suffix: &str, default: &str) -> (r: Vec<CompletionEntry>)
    ensures
        entry_views(r@) == macro_items(ms@, p@, suffix@, default@),
{
    let mut out: Vec<CompletionEntry> = Vec::new();
    let mut i: usize = 0;
    while i < ms.len()
        invariant
            i <= ms.len(),
            entry_views(out@) == macro_items(ms@.take(i as int), p@, suffix@, default@),
        decreases ms.len() - i,
    {
        proof {
            assert(ms@.take(i + 1).drop_last() =~= ms@.take(i as int));
        }
        let m = &ms[i];
        if starts_with_str(m.name.as_str(), p) {
            let mut detail = String::new();
            push_str(&mut detail, "define! ");
            push_str(&mut detail, m.name.as_str());
            push_str(&mut detail, "(");
            let params = join_strings(&m.parameters, ", ");
            push_str(&mut detail, params.as_str());
            push_str(&mut detail, ")");
            push_str(&mut detail, suffix);
            assert(detail@ =~= "define! "@ + signature_label(m.name@, m.parameters@) + suffix@);
            push_entry(
                &mut out,
                CompletionEntry {
                    label: m.name.clone(),
                    kind: CompletionKind::Function,
                    detail: Some(detail),
                    documentation: Some(doc_or_default(&m.documentation, default)),
                    insert_text: Some(call_insert_text(&m.name)),
                    is_snippet: true,
                },
            );
        }
        i = i + 1;
    }
    assert(ms@.take(ms.len() as int) =~= ms@);
    out
}

fn variable_candidates(vs: &Vec<UserVariable>, p: &str, imported: bool) -> (r: Vec<CompletionEntry>)
    ensures
        entry_views(r@) == variable_items(vs@, p@, imported),
{
    let mut out: Vec<CompletionEntry> = Vec::new();
    let mut i: usize = 0;
    while i < vs.len()
        invariant
            i <= vs.len(),
            entry_views(out@) == variable_items(vs@.take(i as int), p@, imported),
        decreases vs.len() - i,
    {
        proof {
            assert(vs@.take(i + 1).drop_last() =~= vs@.take(i as int));
        }
        let v = &vs[i];
        if starts_with_str(v.name.as_str(), p) {
            let (kind, detail) = match v.kind {
                VariableKind::EnumMember => (
                    CompletionKind::EnumMember,
                    if imported {
                        "Enum member (imported)"
                    } else {
                        "Enum member"
                    },
                ),
                VariableKind::Define => (
                    CompletionKind::Constant,
                    if imported {
                        "Define (imported)"
                    } else {
                        "Define"
                    },
                ),
                VariableKind::Regular => (
                    CompletionKind::Variable,
                    if imported {
                        "Variable (imported)"
                    } else {
                        "User-defined variable"
                    },
                ),
            };
            let documentation = match &v.documentation {
                Some(d) => Some(d.clone()),
                None => None,
            };
            push_entry(
                &mut out,
                CompletionEntry {
                    label: v.name.clone(),
                    kind,
                    detail: Some(detail.to_owned()),
                    documentation,
                    insert_text: None,
                    is_snippet: false,
                },
            );
        }
        i = i + 1;
    }
    assert(vs@.take(vs.len() as int) =~= vs@);
    out
}

fn snippet_candidates(ss: &Vec<Snippet>, p: &str) -> (r: Vec<CompletionEntry>)
    ensures
        entry_views(r@) == snippet_items(ss@, p@),
{
    let mut out: Vec<CompletionEntry> = Vec::new();
    let mut i: usize = 0;
    while i < ss.len()
        invariant
            i <= ss.len(),
            entry_views(out@) == snippet_items(ss@.take(i as int), p@),
        decreases ss.len() - i,
    {
        proof {
            assert(ss@.take(i + 1).drop_last() =~= ss@.take(i as int));
        }
        let s = &ss[i];
        if starts_with_str(s.name.as_str(), p) {
            push_entry(
                &mut out,
                CompletionEntry {
                    label: s.name.clone(),
                    kind: CompletionKind::Snippet,
                    detail: Some("Code snippet".to_owned()),
                    documentation: Some(s.description.clone()),
                    insert_text: Some(s.snippet.clone()),
                    is_snippet: true,
                },
            );
        }
        i = i + 1;
    }
    assert(ss@.take(ss.len() as int) =~= ss@);
    out
}

/// The completion items for the prefix `prefix`.
pub fn completion_items_for(
    doc: &DocumentState,
    features: Features,
    builtins: &Vec<BuiltinFunction>,
    constants: &Vec<String>,
    snippets: &Vec<Snippet>,
    prefix: &str,
) -> (r: Vec<CompletionEntry>)
    ensures
        entry_views(r@) == completion_items(*doc, features, builtins@, constants@, snippets@, prefix@),
{
    let empty = String::new();
    let kws = keywords();
    let dts = datatypes();
    let ghost p = prefix@;
    let ghost d = *doc;
    let mut out = word_candidates(&kws, prefix, CompletionKind::Keyword, "Language keyword");
    let mut more = word_candidates(&dts, prefix, CompletionKind::TypeParameter, "Language data type");
    let ghost a1 = entry_views(out@);
    let ghost a2 = entry_views(more@);
    out.append(&mut more);
    assert(entry_views(out@) =~= a1 + a2);
    let ghost a = entry_views(out@);
    append_capped(&mut out, word_candidates(constants, prefix, CompletionKind::Constant, "Language constant"));
    let ghost b = entry_views(out@);
    assert(b == capped(a, word_items(string_views(constants@), p, CompletionKind::Constant, "Language constant"@)));
    append_capped(&mut out, builtin_candidates(builtins, prefix));
    let ghost c = entry_views(out@);
    append_capped(&mut out, function_candidates(&doc.functions, prefix, empty.as_str(), "User-defined function"));
    let ghost e = entry_views(out@);
    assert(e == capped(c, function_items(d.functions@, p, seq![], "User-defined function"@)));
    if features.macros {
        append_capped(&mut out, macro_candidates(&doc.macros, prefix, empty.as_str(), "User-defined macro"));
    }
    let ghost g = entry_views(out@);
    assert(g == if features.macros {
        capped(e, macro_items(d.macros@, p, seq![], "User-defined macro"@))
    } else {
        e
    });
    append_capped(&mut out, variable_candidates(&doc.variables, prefix, false));
    let ghost h = entry_views(out@);
    if features.imports {
        append_capped(
            &mut out,
            function_candidates(&doc.imported_functions, prefix, " (imported)", "Imported function"),
        );
    }
    let ghost i = entry_views(out@);
    if features.imports && features.macros {
        append_capped(
            &mut out,
            macro_candidates(&doc.imported_macros, prefix, " (imported)", "Imported macro"),
        );
    }
    let ghost j = entry_views(out@);
    if features.imports {
        append_capped(&mut out, variable_candidates(&doc.imported_variables, prefix, true));
    }
    let ghost k = entry_views(out@);
    append_capped(&mut out, snippet_candidates(snippets, prefix));
    assert(entry_views(out@) == capped(k, snippet_items(snippets@, p)));
    out
}

/// The contents of a completion answer.
pub open spec fn completion_result_view(r: Result<Option<Vec<CompletionEntry>>, Fault>) -> Result<Option<Seq<EntryView>>, Fault> {
    match r {
        Ok(Some(v)) => Ok(Some(entry_views(v@))),
        Ok(None) => Ok(None),
        Err(e) => Err(e),
    }
}

/// The completion items for the word before the cursor at `pos`;
/// `invoked` tells whether the user asked for completion explicitly.
pub fn handle_completion(
    doc: &DocumentState,
    features: Features,
    builtins: &Vec<BuiltinFunction>,
    constants: &Vec<String>,
    snippets: &Vec<Snippet>,
    pos: Position,
    invoked: bool,
) -> (r: Result<Option<Vec<CompletionEntry>>, Fault>)
    ensures
        completion_result_view(r) == completion_spec(*doc, features, builtins@, constants@, snippets@, pos, invoked),
{
    let prefix = match cursor_prefix(doc.text.as_str(), pos) {
        Err(e) => {
            return Err(e);
        },
        Ok(None) => {
            return Ok(None);
        },
        Ok(Some(p)) => p,
    };
    if !invoked && prefix.as_str().as_bytes().len() < 2 {
        return Ok(None);
    }
    Ok(Some(completion_items_for(doc, features, builtins, constants, snippets, prefix.as_str())))
}

proof fn lemma_capped_len(items: Seq<EntryView>, cands: Seq<EntryView>)
    requires
        items.len() <= MAX_ITEMS,
    ensures
        capped(items, cands).len() <= MAX_ITEMS,
{
}

/// A completion answer holds at most fifty items.
pub proof fn law_completion_at_most_fifty(
    d: DocumentState,
    f: Features,
    bs: Seq<BuiltinFunction>,
    cs: Seq<String>,
    ss: Seq<Snippet>,
    pos: Position,
    invoked: bool,
)
    ensures
        completion_spec(d, f, bs, cs, ss, pos, invoked) matches Ok(Some(items)) ==> items.len() <= MAX_ITEMS,
{
    match cursor_prefix_spec(d.text@, pos) {
        Ok(Some(p)) => {
            lemma_word_items_len(keyword_list(), p, CompletionKind::Keyword, "Language keyword"@);
            lemma_word_items_len(datatype_list(), p, CompletionKind::TypeParameter, "Language data type"@);
            let a = word_items(keyword_list(), p, CompletionKind::Keyword, "Language keyword"@) + word_items(
                datatype_list(),
                p,
                CompletionKind::TypeParameter,
                "Language data type"@,
            );
            assert(a.len() <= MAX_ITEMS);
            let b = capped(a, word_items(string_views(cs), p, CompletionKind::Constant, "Language constant"@));
            lemma_capped_len(a, word_items(string_views(cs), p, CompletionKind::Constant, "Language constant"@));
            let c = capped(b, builtin_items(bs, p));
            lemma_capped_len(b, builtin_items(bs, p));
            let e = capped(c, function_items(d.functions@, p, seq![], "User-defined function"@));
            lemma_capped_len(c, function_items(d.functions@, p, seq![], "User-defined function"@));
            let g = if f.macros {
                capped(e, macro_items(d.macros@, p, seq![], "User-defined macro"@))
            } else {
                e
            };
            lemma_capped_len(e, macro_items(d.macros@, p, seq![], "User-defined macro"@));
            let h = capped(g, variable_items(d.variables@, p, false));
            lemma_capped_len(g, variable_items(d.variables@, p, false));
            let i = if f.imports {
                capped(h, function_items(d.imported_functions@, p, " (imported)"@, "Imported function"@))
            } else {
                h
            };
            lemma_capped_len(h, function_items(d.imported_functions@, p, " (imported)"@, "Imported function"@));
            let j = if f.imports && f.macros {
                capped(i, macro_items(d.imported_macros@, p, " (imported)"@, "Imported macro"@))
            } else {
                i
            };
            lemma_capped_len(i, macro_items(d.imported_macros@, p, " (imported)"@, "Imported macro"@));
            let k = if f.imports {
                capped(j, variable_items(d.imported_variables@, p, true))
            } else {
                j
            };
            lemma_capped_len(j, variable_items(d.imported_variables@, p, true));
            lemma_capped_len(k, snippet_items(ss, p));
        },
        _ => {},
    }
}

/// Whether every item among `items` has a label that starts with `p`.
pub open spec fn labels_start_with(items: Seq<EntryView>, p: Seq<char>) -> bool {
    forall|k: int| 0 <= k < items.len() ==> starts_with(#[trigger] items[k].label, p)
}

proof fn lemma_labels_concat(a: Seq<EntryView>, b: Seq<EntryView>, p: Seq<char>)
    requires
        labels_start_with(a, p),
        labels_start_with(b, p),
    ensures
        labels_start_with(a + b, p),
{
    assert forall|k: int| 0 <= k < (a + b).len() implies starts_with(#[trigger] (a + b)[k].label, p) by {
        if k < a.len() {
            assert((a + b)[k] == a[k]);
        } else {
            assert((a + b)[k] == b[k - a.len()]);
        }
    }
}

proof fn lemma_labels_capped(a: Seq<EntryView>, b: Seq<EntryView>, p: Seq<char>)
    requires
        labels_start_with(a, p),
        labels_start_with(b, p),
    ensures
        labels_start_with(capped(a, b), p),
{
    if a.len() < MAX_ITEMS {
        let room = MAX_ITEMS - a.len();
        let t = b.take(if b.len() < room { b.len() as int } else { room as int });
        assert forall|k: int| 0 <= k < t.len() implies starts_with(#[trigger] t[k].label, p) by {
            assert(t[k] == b[k]);
        }
        lemma_labels_concat(a, t, p);
    }
}

proof fn lemma_word_items_labels(ws: Seq<Seq<char>>, p: Seq<char>, kind: CompletionKind, detail: Seq<char>)
    ensures
        labels_start_with(word_items(ws, p, kind, detail), p),
    decreases ws.len(),
{
    if ws.len() > 0 {
        lemma_word_items_labels(ws.drop_last(), p, kind, detail);
        let tail = if starts_with(ws.last(), p) { seq![word_entry(ws.last(), kind, detail)] } else { seq![] };
        lemma_labels_concat(word_items(ws.drop_last(), p, kind, detail), tail, p);
    }
}

proof fn lemma_builtin_items_labels(bs: Seq<BuiltinFunction>, p: Seq<char>)
    ensures
        labels_start_with(builtin_items(bs, p), p),
    decreases bs.len(),
{
    if bs.len() > 0 {
        lemma_builtin_items_labels(bs.drop_last(), p);
        let tail = if starts_with(bs.last().name@, p) { seq![builtin_entry(bs.last())] } else { seq![] };
        lemma_labels_concat(builtin_items(bs.drop_last(), p), tail, p);
    }
}

proof fn lemma_function_items_labels(fs: Seq<UserFunction>, p: Seq<char>, suffix: Seq<char>, default: Seq<char>)
    ensures
        labels_start_with(function_items(fs, p, suffix, default), p),
    decreases fs.len(),
{
    if fs.len() > 0 {
        lemma_function_items_labels(fs.drop_last(), p, suffix, default);
        let tail = if starts_with(fs.last().name@, p) { seq![function_entry(fs.last(), suffix, default)] } else { seq![] };
        lemma_labels_concat(function_items(fs.drop_last(), p, suffix, default), tail, p);
    }
}

proof fn lemma_macro_items_labels(ms: Seq<UserMacro>, p: Seq<char>, suffix: Seq<char>, default: Seq<char>)
    ensures
        labels_start_with(macro_items(ms, p, suffix, default), p),
    decreases ms.len(),
{
    if ms.len() > 0 {
        lemma_macro_items_labels(ms.drop_last(), p, suffix, default);
        let tail = if starts_with(ms.last().name@, p) { seq![macro_entry(ms.last(), suffix, default)] } else { seq![] };
        lemma_labels_concat(macro_items(ms.drop_last(), p, suffix, default), tail, p);
    }
}

proof fn lemma_variable_items_labels(vs: Seq<UserVariable>, p: Seq<char>, imported: bool)
    ensures
        labels_start_with(variable_items(vs, p, imported), p),
    decreases vs.len(),
{
    if vs.len() > 0 {
        lemma_variable_items_labels(vs.drop_last(), p, imported);
        let tail = if starts_with(vs.last().name@, p) { seq![variable_entry(vs.last(), imported)] } else { seq![] };
        lemma_labels_concat(variable_items(vs.drop_last(), p, imported), tail, p);
    }
}

proof fn lemma_snippet_items_labels(ss: Seq<Snippet>, p: Seq<char>)
    ensures
        labels_start_with(snippet_items(ss, p), p),
    decreases ss.len(),
{
    if ss.len() > 0 {
        lemma_snippet_items_labels(ss.drop_last(), p);
        let tail = if starts_with(ss.last().name@, p) { seq![snippet_entry(ss.last())] } else { seq![] };
        lemma_labels_concat(snippet_items(ss.drop_last(), p), tail, p);
    }
}

/// Every completion item starts with the word being typed.
pub proof fn law_completion_matches_prefix(
    d: DocumentState,
    f: Features,
    bs: Seq<BuiltinFunction>,
    cs: Seq<String>,
    ss: Seq<Snippet>,
    p: Seq<char>,
)
    ensures
        labels_start_with(completion_items(d, f, bs, cs, ss, p), p),
{
    lemma_word_items_labels(keyword_list(), p, CompletionKind::Keyword, "Language keyword"@);
    lemma_word_items_labels(datatype_list(), p, CompletionKind::TypeParameter, "Language data type"@);
    let a = word_items(keyword_list(), p, CompletionKind::Keyword, "Language keyword"@) + word_items(
        datatype_list(),
        p,
        CompletionKind::TypeParameter,
        "Language data type"@,
    );
    lemma_labels_concat(
        word_items(keyword_list(), p, CompletionKind::Keyword, "Language keyword"@),
        word_items(datatype_list(), p, CompletionKind::TypeParameter, "Language data type"@),
        p,
    );
    let cw = word_items(string_views(cs), p, CompletionKind::Constant, "Language constant"@);
    lemma_word_items_labels(string_views(cs), p, CompletionKind::Constant, "Language constant"@);
    let b = capped(a, cw);
    lemma_labels_capped(a, cw, p);
    lemma_builtin_items_labels(bs, p);
    let c = capped(b, builtin_items(bs, p));
    lemma_labels_capped(b, builtin_items(bs, p), p);
    lemma_function_items_labels(d.functions@, p, seq![], "User-defined function"@);
    let e = capped(c, function_items(d.functions@, p, seq![], "User-defined function"@));
    lemma_labels_capped(c, function_items(d.functions@, p, seq![], "User-defined function"@), p);
    lemma_macro_items_labels(d.macros@, p, seq![], "User-defined macro"@);
    lemma_labels_capped(e, macro_items(d.macros@, p, seq![], "User-defined macro"@), p);
    let g = if f.macros {
        capped(e, macro_items(d.macros@, p, seq![], "User-defined macro"@))
    } else {
        e
    };
    lemma_variable_items_labels(d.variables@, p, false);
    lemma_labels_capped(g, variable_items(d.variables@, p, false), p);
    let h = capped(g, variable_items(d.variables@, p, false));
    lemma_function_items_labels(d.imported_functions@, p, " (imported)"@, "Imported function"@);
    lemma_labels_capped(h, function_items(d.imported_functions@, p, " (imported)"@, "Imported function"@), p);
    let i = if f.imports {
        capped(h, function_items(d.imported_functions@, p, " (imported)"@, "Imported function"@))
    } else {
        h
    };
    lemma_macro_items_labels(d.imported_macros@, p, " (imported)"@, "Imported macro"@);
    lemma_labels_capped(i, macro_items(d.imported_macros@, p, " (imported)"@, "Imported macro"@), p);
    let j = if f.imports && f.macros {
        capped(i, macro_items(d.imported_macros@, p, " (imported)"@, "Imported macro"@))
    } else {
        i
    };
    lemma_variable_items_labels(d.imported_variables@, p, true);
    lemma_labels_capped(j, variable_items(d.imported_variables@, p, true), p);
    let k = if f.imports {
        capped(j, variable_items(d.imported_variables@, p, true))
    } else {
        j
    };
    lemma_snippet_items_labels(ss, p);
    lemma_labels_capped(k, snippet_items(ss, p), p);
}

} // verus!
