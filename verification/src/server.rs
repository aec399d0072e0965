//! The document store of the language server and what it publishes: the
//! open documents with the symbols read from them, the edit stamps that let
//! only the last of a burst of changes trigger a refresh, and the full set
//! of diagnostics for a document.
use vstd::prelude::*;
use vstd::utf8::encode_utf8;
use crate::types::{UserFunction, UserMacro, UserVariable, Features, DocumentState};
use crate::data::BuiltinFunction;
use crate::syntax::{SyntaxNode, tree_ok};
use crate::text::lines_spec;
use crate::parser::{
    errors_in, find_syntax_errors, assignments_spec, find_assignments, refs_in,
    find_variable_references, function_calls_spec, find_function_calls, macro_calls_spec,
    find_macro_calls,
};
use crate::diagnostics::{
    Diagnostic, DiagView, RelatedView, RelatedInformation, diag_views, syntax_error_diags, syntax_errors_to_diagnostics,
    duplicates_spec, check_duplicate_definitions, enum_case_from, check_enum_case,
    unused_funcs_from, unused_vars_from, symbol_searchable, unused_search_ok, check_unused_symbols,
    immutable_from, check_immutable_assignments, shadow_from, check_parameter_shadowing,
    undefined_vars_spec, check_undefined_variables, calls_from, check_undefined_functions,
    macro_calls_from, check_macro_calls,
};
use crate::navigation::{url_parses, uri_parses};
use crate::cursor::Fault;

verus! {

// ---------------------------------------------------------------------------
// Publishing diagnostics
// ---------------------------------------------------------------------------

/// The first failure in sending the duplicate-definition errors `ds[i..]`:
/// a first definition on the last representable line (its number plus one
/// is shown), or a first definition whose URI does not parse.
pub open spec fn duplicates_fault(ds: Seq<DiagView>, i: int) -> Option<Fault>
    decreases ds.len() - i,
{
    if i < 0 || i >= ds.len() {
        None
    } else {
        match ds[i].related {
            Some(r) => if r.range.start.line == u32::MAX {
                Some(Fault::Overflow)
            } else if !url_parses(r.uri) {
                Some(Fault::BadUri)
            } else {
                duplicates_fault(ds, i + 1)
            },
            None => duplicates_fault(ds, i + 1),
        }
    }
}

/// Whether some diagnostic among `ds[i..]` points at a place whose URI does
/// not parse.
pub open spec fn related_uri_fails(ds: Seq<DiagView>, i: int) -> bool
    decreases ds.len() - i,
{
    if i < 0 || i >= ds.len() {
        false
    } else {
        (ds[i].related matches Some(r) && !url_parses(r.uri)) || related_uri_fails(ds, i + 1)
    }
}

/// Whether the search for uses of every function and variable of `d` goes
/// through.
pub open spec fn unused_searchable(d: DocumentState, docs: Seq<DocumentState>) -> bool {
    &&& forall|i: int|
        0 <= i < d.functions@.len() ==> symbol_searchable(
            lines_spec(d.text@),
            docs,
            d.uri@,
            #[trigger] d.functions@[i].name@,
            d.functions@[i].definition.range,
        )
    &&& forall|i: int|
        0 <= i < d.variables@.len() ==> symbol_searchable(
            lines_spec(d.text@),
            docs,
            d.uri@,
            #[trigger] d.variables@[i].name@,
            d.variables@[i].definition.range,
        )
}

/// The diagnostics published for document `d` (parsed into `root`), with
/// `docs` the open documents: syntax errors, duplicate definitions, naming
/// hints, unused symbols, assignments to immutable names, shadowed
/// parameters, undefined variables, undefined functions and wrong argument
/// counts, and with the macros feature calls of macros that need a body.
/// `Err` where one of them cannot be made, or where the document's URI or
/// that of a variable a parameter shadows does not parse.
pub open spec fn diagnostics_spec(
    d: DocumentState,
    docs: Seq<DocumentState>,
    root: SyntaxNode,
    f: Features,
    cs: Seq<String>,
    bs: Seq<BuiltinFunction>,
) -> Result<Seq<DiagView>, Fault> {
    let text = d.text@;
    let uri = d.uri@;
    let lines = lines_spec(text);
    let dups = duplicates_spec(d.functions@, d.variables@);
    match duplicates_fault(dups, 0) {
        Some(e) => Err(e),
        None => if !unused_searchable(d, docs) {
            Err(Fault::BadSlice)
        } else if !url_parses(uri) || related_uri_fails(shadow_from(d.functions@, d.variables@, 0), 0) {
            Err(Fault::BadUri)
        } else {
            let assignments = assignments_spec(root, text);
            Ok(
                syntax_error_diags(errors_in(root, None, text)) + dups + enum_case_from(
                    d.variables@,
                    0,
                ) + unused_funcs_from(lines, docs, uri, d.functions@, 0) + unused_vars_from(
                    lines,
                    docs,
                    uri,
                    d.variables@,
                    0,
                ) + immutable_from(uri, d.variables@, cs, assignments, 0) + shadow_from(
                    d.functions@,
                    d.variables@,
                    0,
                ) + undefined_vars_spec(
                    d.variables@,
                    d.imported_variables@,
                    cs,
                    f.imports,
                    refs_in(root, None, text),
                    assignments,
                ) + calls_from(
                    d.functions@,
                    d.imported_functions@,
                    bs,
                    f.imports,
                    function_calls_spec(root, text),
                    0,
                    Set::empty(),
                ) + if f.macros {
                    macro_calls_from(d.macros@, d.imported_macros@, macro_calls_spec(root, text), 0)
                } else {
                    seq![]
                },
            )
        },
    }
}

fn first_duplicate_fault(ds: &Vec<Diagnostic>) -> (r: Option<Fault>)
    ensures
        r == duplicates_fault(diag_views(ds@), 0),
{
    let ghost v = diag_views(ds@);
    let mut i: usize = 0;
    while i < ds.len()
        invariant
            v == diag_views(ds@),
            i <= ds.len(),
            duplicates_fault(v, i as int) == duplicates_fault(v, 0),
        decreases ds.len() - i,
    {
        match &ds[i].related_information {
            Some(r) => {
                if r.location.range.start.line == u32::MAX {
                    return Some(Fault::Overflow);
                }
                if !uri_parses(r.location.uri.as_str()) {
                    return Some(Fault::BadUri);
                }
            },
            None => {},
        }
        i = i + 1;
    }
    None
}

fn some_related_uri_fails(ds: &Vec<Diagnostic>) -> (r: bool)
    ensures
        r == related_uri_fails(diag_views(ds@), 0),
{
    let ghost v = diag_views(ds@);
    let mut i: usize = 0;
    while i < ds.len()
        invariant
            v == diag_views(ds@),
            i <= ds.len(),
            related_uri_fails(v, i as int) == related_uri_fails(v, 0),
        decreases ds.len() - i,
    {
        match &ds[i].related_information {
            Some(r) => {
                if !uri_parses(r.location.uri.as_str()) {
                    return true;
                }
            },
            None => {},
        }
        i = i + 1;
    }
    false
}

fn append_diags(out: &mut Vec<Diagnostic>, more: Vec<Diagnostic>)
    ensures
        diag_views(final(out)@) == diag_views(old(out)@) + diag_views(more@),
{
    let ghost a = diag_views(out@);
    let ghost b = diag_views(more@);
    let mut more = more;
    out.append(&mut more);
    assert(diag_views(out@) =~= a + b);
}

/// The diagnostics to publish for `doc`, parsed into `root`, with `docs`
/// the open documents.
pub fn publish_diagnostics(
    doc: &DocumentState,
    docs: &Vec<DocumentState>,
    root: &SyntaxNode,
    features: Features,
    constants: &Vec<String>,
    builtins: &Vec<BuiltinFunction>,
) -> (r: Result<Vec<Diagnostic>, Fault>)
    requires
        tree_ok(*root, encode_utf8(doc.text@).len() as int),
    ensures
        match r {
            Ok(v) => diagnostics_spec(*doc, docs@, *root, features, constants@, builtins@) == Ok::<Seq<DiagView>, Fault>(diag_views(v@)),
            Err(e) => diagnostics_spec(*doc, docs@, *root, features, constants@, builtins@) == Err::<Seq<DiagView>, Fault>(e),
        },
{
    let text = doc.text.as_str();
    let errors = find_syntax_errors(root, text);
    let mut out = syntax_errors_to_diagnostics(errors);
    let ghost p1 = diag_views(out@);
    let dups = check_duplicate_definitions(&doc.functions, &doc.variables);
    match first_duplicate_fault(&dups) {
        Some(e) => {
            return Err(e);
        },
        None => {},
    }
    let ghost p2 = diag_views(dups@);
    append_diags(&mut out, dups);
    let enums = check_enum_case(&doc.variables);
    let ghost p3 = diag_views(enums@);
    append_diags(&mut out, enums);
    if !unused_search_ok(&doc.uri, text, &doc.functions, &doc.variables, docs) {
        return Err(Fault::BadSlice);
    }
    let shadows = check_parameter_shadowing(&doc.functions, &doc.variables);
    if !uri_parses(doc.uri.as_str()) || some_related_uri_fails(&shadows) {
        return Err(Fault::BadUri);
    }
    let unused = check_unused_symbols(&doc.uri, text, &doc.functions, &doc.variables, docs);
    let ghost p4 = diag_views(unused@);
    append_diags(&mut out, unused);
    let assignments = find_assignments(root, text);
    let imm = check_immutable_assignments(&doc.uri, &doc.variables, constants, &assignments);
    let ghost p5 = diag_views(imm@);
    append_diags(&mut out, imm);
    let ghost p6 = diag_views(shadows@);
    append_diags(&mut out, shadows);
    let refs = find_variable_references(root, text);
    let undef = check_undefined_variables(&doc.variables, &doc.imported_variables, constants, features, &refs, &assignments);
    let ghost p7 = diag_views(undef@);
    append_diags(&mut out, undef);
    let calls = find_function_calls(root, text);
    let undef_fns = check_undefined_functions(&doc.functions, &doc.imported_functions, builtins, features, &calls);
    let ghost p8 = diag_views(undef_fns@);
    append_diags(&mut out, undef_fns);
    let ghost p9: Seq<DiagView> = Seq::empty();
    if features.macros {
        let mcalls = find_macro_calls(root, text);
        let mc = check_macro_calls(&doc.macros, &doc.imported_macros, &mcalls);
        proof {
            p9 = diag_views(mc@);
        }
        append_diags(&mut out, mc);
    }
    assert(diag_views(out@) =~= p1 + p2 + p3 + p4 + p5 + p6 + p7 + p8 + p9);
    let ghost lines = lines_spec(doc.text@);
    assert(p4 == unused_funcs_from(lines, docs@, doc.uri@, doc.functions@, 0) + unused_vars_from(lines, docs@, doc.uri@, doc.variables@, 0));
    assert(p1 + p2 + p3 + p4 =~= p1 + p2 + p3 + unused_funcs_from(lines, docs@, doc.uri@, doc.functions@, 0) + unused_vars_from(lines, docs@, doc.uri@, doc.variables@, 0));
    Ok(out)
}

/// A diagnostic whose related place, if it has one, is put in the document
/// at `uri`.
pub open spec fn related_in(d: DiagView, uri: Seq<char>) -> DiagView {
    DiagView {
        range: d.range,
        severity: d.severity,
        code: d.code,
        message: d.message,
        related: match d.related {
            Some(r) => Some(RelatedView { uri, range: r.range, message: r.message }),
            None => None,
        },
        unnecessary: d.unnecessary,
    }
}

/// The diagnostics published once a burst of changes to `d` has settled:
/// its duplicate definitions, each pointing at the first one in the
/// document itself.
pub open spec fn settled_diagnostics_spec(d: DocumentState) -> Result<Seq<DiagView>, Fault> {
    let dups = duplicates_spec(d.functions@, d.variables@).map_values(|x: DiagView| related_in(x, d.uri@));
    match duplicates_fault(dups, 0) {
        Some(e) => Err(e),
        None => if !url_parses(d.uri@) {
            Err(Fault::BadUri)
        } else {
            Ok(dups)
        },
    }
}

/// The diagnostics to publish once a burst of changes to `doc` has settled.
pub fn settled_diagnostics(doc: &DocumentState) -> (r: Result<Vec<Diagnostic>, Fault>)
    ensures
        match r {
            Ok(v) => settled_diagnostics_spec(*doc) == Ok::<Seq<DiagView>, Fault>(diag_views(v@)),
            Err(e) => settled_diagnostics_spec(*doc) == Err::<Seq<DiagView>, Fault>(e),
        },
{
    let dups = check_duplicate_definitions(&doc.functions, &doc.variables);
    let ghost src = diag_views(dups@);
    let ghost target = src.map_values(|x: DiagView| related_in(x, doc.uri@));
    let mut out: Vec<Diagnostic> = Vec::new();
    let mut i: usize = 0;
    while i < dups.len()
        invariant
            src == diag_views(dups@),
            target == src.map_values(|x: DiagView| related_in(x, doc.uri@)),
            i <= dups.len(),
            diag_views(out@) == target.take(i as int),
        decreases dups.len() - i,
    {
        let d = &dups[i];
        let related = match &d.related_information {
            Some(r) => Some(
                RelatedInformation {
                    location: crate::types::Location { uri: doc.uri.clone(), range: r.location.range },
                    message: r.message.clone(),
                },
            ),
            None => None,
        };
        let nd = Diagnostic {
            range: d.range,
            severity: d.severity,
            code: d.code.clone(),
            message: d.message.clone(),
            related_information: related,
            unnecessary: d.unnecessary,
        };
        let ghost before = diag_views(out@);
        out.push(nd);
        assert(diag_views(out@) =~= before.push(nd@));
        assert(nd@ == related_in(src[i as int], doc.uri@));
        i = i + 1;
        assert(target.take(i as int) =~= target.take(i - 1 as int).push(target[i - 1 as int]));
    }
    assert(target.take(dups.len() as int) =~= target);
    match first_duplicate_fault(&out) {
        Some(e) => {
            return Err(e);
        },
        None => {},
    }
    if !uri_parses(doc.uri.as_str()) {
        return Err(Fault::BadUri);
    }
    Ok(out)
}

// ---------------------------------------------------------------------------
// The document store
// ---------------------------------------------------------------------------

/// The index of the first of `docs[i..]` whose URI is `uri`.
pub open spec fn doc_index_from(docs: Seq<DocumentState>, uri: Seq<char>, i: int) -> Option<int>
    decreases docs.len() - i,
{
    if i < 0 || i >= docs.len() {
        None
    } else if docs[i].uri@ == uri {
        Some(i)
    } else {
        doc_index_from(docs, uri, i + 1)
    }
}

/// The index of the first of `stamps[i..]` for `uri`.
pub open spec fn stamp_index_from(stamps: Seq<(String, u64)>, uri: Seq<char>, i: int) -> Option<int>
    decreases stamps.len() - i,
{
    if i < 0 || i >= stamps.len() {
        None
    } else if stamps[i].0@ == uri {
        Some(i)
    } else {
        stamp_index_from(stamps, uri, i + 1)
    }
}

/// The open documents, each with the symbols last read from it, and the
/// stamp of the last change to each document.
pub struct Workspace {
    features: Features,
    documents: Vec<DocumentState>,
    stamps: Vec<(String, u64)>,
    next_stamp: u64,
}

impl Workspace {
    /// The open document at `uri`, if any.
    pub closed spec fn doc(self, uri: Seq<char>) -> Option<DocumentState> {
        match doc_index_from(self.documents@, uri, 0) {
            Some(i) => Some(self.documents@[i]),
            None => None,
        }
    }

    /// The stamp of the last change to the document at `uri`, if any.
    pub closed spec fn stamp(self, uri: Seq<char>) -> Option<u64> {
        match stamp_index_from(self.stamps@, uri, 0) {
            Some(i) => Some(self.stamps@[i].1),
            None => None,
        }
    }

    /// The stamp that the next change gets.
    pub closed spec fn next(self) -> u64 {
        self.next_stamp
    }

    /// The open documents.
    pub closed spec fn open_docs(self) -> Seq<DocumentState> {
        self.documents@
    }

    /// The features the server runs with.
    pub closed spec fn feature_set(self) -> Features {
        self.features
    }
}

/// Whether `d` keeps the symbols of `old`, or has none where there was no
/// document.
pub open spec fn keeps_symbols(d: DocumentState, old: Option<DocumentState>) -> bool {
    match old {
        Some(o) => {
            &&& d.functions == o.functions
            &&& d.macros == o.macros
            &&& d.variables == o.variables
            &&& d.imported_functions == o.imported_functions
            &&& d.imported_macros == o.imported_macros
            &&& d.imported_variables == o.imported_variables
        },
        None => {
            &&& d.functions@.len() == 0
            &&& d.macros@.len() == 0
            &&& d.variables@.len() == 0
            &&& d.imported_functions@.len() == 0
            &&& d.imported_macros@.len() == 0
            &&& d.imported_variables@.len() == 0
        },
    }
}

/// `new` is `old` with the text of the document at `uri` set to `text`
/// (the document opened, without symbols, where it was not); every other
/// document, the stamps and the features as they were.
pub open spec fn text_set(old: Workspace, new: Workspace, uri: Seq<char>, text: Seq<char>) -> bool {
    &&& new.doc(uri) matches Some(d) && d.uri@ == uri && d.text@ == text && keeps_symbols(d, old.doc(uri))
    &&& forall|u: Seq<char>| u != uri ==> #[trigger] new.doc(u) == old.doc(u)
    &&& forall|u: Seq<char>| #[trigger] new.stamp(u) == old.stamp(u)
    &&& new.next() == old.next()
    &&& new.feature_set() == old.feature_set()
}

/// `new` is `old` after a change of the document at `uri` to `text` that
/// got the stamp `stamp`: the text set, `stamp` the document's new stamp
/// and the next one counted on; every other stamp as it was.
pub open spec fn changed(old: Workspace, new: Workspace, uri: Seq<char>, text: Seq<char>, stamp: u64) -> bool {
    &&& new.doc(uri) matches Some(d) && d.uri@ == uri && d.text@ == text && keeps_symbols(d, old.doc(uri))
    &&& forall|u: Seq<char>| u != uri ==> #[trigger] new.doc(u) == old.doc(u)
    &&& stamp == old.next()
    &&& new.stamp(uri) == Some(stamp)
    &&& forall|u: Seq<char>| u != uri ==> #[trigger] new.stamp(u) == old.stamp(u)
    &&& new.next() == old.next() + 1
    &&& new.feature_set() == old.feature_set()
}

/// `new` is `old` with the symbols of the document at `uri` replaced by the
/// ones read from it (`fs`, `ms`, `vs`); its text and every other document
/// as they were.
pub open spec fn symbols_set(
    old: Workspace,
    new: Workspace,
    uri: Seq<char>,
    fs: Vec<UserFunction>,
    ms: Vec<UserMacro>,
    vs: Vec<UserVariable>,
) -> bool {
    &&& old.doc(uri) matches Some(o) && new.doc(uri) == Some(
        DocumentState {
            uri: o.uri,
            text: o.text,
            functions: fs,
            macros: ms,
            variables: vs,
            imported_functions: o.imported_functions,
            imported_macros: o.imported_macros,
            imported_variables: o.imported_variables,
        },
    )
    &&& forall|u: Seq<char>| u != uri ==> #[trigger] new.doc(u) == old.doc(u)
    &&& forall|u: Seq<char>| #[trigger] new.stamp(u) == old.stamp(u)
    &&& new.next() == old.next()
    &&& new.feature_set() == old.feature_set()
}

/// `new` is `old` with the imported symbols of the document at `uri`
/// replaced; everything else as it was.
pub open spec fn imports_set(
    old: Workspace,
    new: Workspace,
    uri: Seq<char>,
    fs: Vec<UserFunction>,
    ms: Vec<UserMacro>,
    vs: Vec<UserVariable>,
) -> bool {
    &&& old.doc(uri) matches Some(o) && new.doc(uri) == Some(
        DocumentState {
            uri: o.uri,
            text: o.text,
            functions: o.functions,
            macros: o.macros,
            variables: o.variables,
            imported_functions: fs,
            imported_macros: ms,
            imported_variables: vs,
        },
    )
    &&& forall|u: Seq<char>| u != uri ==> #[trigger] new.doc(u) == old.doc(u)
    &&& forall|u: Seq<char>| #[trigger] new.stamp(u) == old.stamp(u)
    &&& new.next() == old.next()
    &&& new.feature_set() == old.feature_set()
}

proof fn lemma_doc_index_bounds(docs: Seq<DocumentState>, uri: Seq<char>, i: int)
    requires
        0 <= i,
    ensures
        doc_index_from(docs, uri, i) matches Some(k) ==> i <= k < docs.len() && docs[k].uri@ == uri,
        doc_index_from(docs, uri, i) is None ==> forall|k: int| i <= k < docs.len() ==> docs[k].uri@ != uri,
    decreases docs.len() - i,
{
    if 0 <= i < docs.len() && docs[i].uri@ != uri {
        lemma_doc_index_bounds(docs, uri, i + 1);
    }
}

proof fn lemma_doc_index_update(docs: Seq<DocumentState>, j: int, x: DocumentState, uri: Seq<char>, i: int)
    requires
        0 <= j < docs.len(),
        x.uri@ == docs[j].uri@,
    ensures
        doc_index_from(docs.update(j, x), uri, i) == doc_index_from(docs, uri, i),
    decreases docs.len() - i,
{
    if 0 <= i < docs.len() && docs[i].uri@ != uri {
        lemma_doc_index_update(docs, j, x, uri, i + 1);
    }
}

proof fn lemma_doc_index_push(docs: Seq<DocumentState>, x: DocumentState, uri: Seq<char>, i: int)
    requires
        0 <= i <= docs.len(),
    ensures
        doc_index_from(docs.push(x), uri, i) == match doc_index_from(docs, uri, i) {
            Some(k) => Some(k),
            None => if x.uri@ == uri {
                Some(docs.len() as int)
            } else {
                None
            },
        },
    decreases docs.len() - i,
{
    if i < docs.len() {
        assert(docs.push(x)[i] == docs[i]);
        if docs[i].uri@ != uri {
            lemma_doc_index_push(docs, x, uri, i + 1);
        }
    } else {
        assert(docs.push(x)[i] == x);
        assert(doc_index_from(docs.push(x), uri, i + 1) is None);
        assert(doc_index_from(docs, uri, i) is None);
    }
}

proof fn lemma_stamp_index_bounds(stamps: Seq<(String, u64)>, uri: Seq<char>, i: int)
    ensures
        stamp_index_from(stamps, uri, i) matches Some(k) ==> i <= k < stamps.len() && stamps[k].0@ == uri,
    decreases stamps.len() - i,
{
    if 0 <= i < stamps.len() && stamps[i].0@ != uri {
        lemma_stamp_index_bounds(stamps, uri, i + 1);
    }
}

proof fn lemma_stamp_index_update(stamps: Seq<(String, u64)>, j: int, x: (String, u64), uri: Seq<char>, i: int)
    requires
        0 <= j < stamps.len(),
        x.0@ == stamps[j].0@,
    ensures
        stamp_index_from(stamps.update(j, x), uri, i) == stamp_index_from(stamps, uri, i),
    decreases stamps.len() - i,
{
    if 0 <= i < stamps.len() && stamps[i].0@ != uri {
        lemma_stamp_index_update(stamps, j, x, uri, i + 1);
    }
}

proof fn lemma_stamp_index_push(stamps: Seq<(String, u64)>, x: (String, u64), uri: Seq<char>, i: int)
    requires
        0 <= i <= stamps.len(),
    ensures
        stamp_index_from(stamps.push(x), uri, i) == match stamp_index_from(stamps, uri, i) {
            Some(k) => Some(k),
            None => if x.0@ == uri {
                Some(stamps.len() as int)
            } else {
                None
            },
        },
    decreases stamps.len() - i,
{
    if i < stamps.len() {
        assert(stamps.push(x)[i] == stamps[i]);
        if stamps[i].0@ != uri {
            lemma_stamp_index_push(stamps, x, uri, i + 1);
        }
    } else {
        assert(stamps.push(x)[i] == x);
        assert(stamp_index_from(stamps.push(x), uri, i + 1) is None);
        assert(stamp_index_from(stamps, uri, i) is None);
    }
}

fn find_document(docs: &Vec<DocumentState>, uri: &str) -> (r: Option<usize>)
    ensures
        match r {
            Some(i) => doc_index_from(docs@, uri@, 0) == Some(i as int) && i < docs@.len(),
            None => doc_index_from(docs@, uri@, 0) is None,
        },
{
    let mut i: usize = 0;
    while i < docs.len()
        invariant
            i <= docs.len(),
            doc_index_from(docs@, uri@, i as int) == doc_index_from(docs@, uri@, 0),
        decreases docs.len() - i,
    {
        if crate::syntax::str_eq(docs[i].uri.as_str(), uri) {
            return Some(i);
        }
        i = i + 1;
    }
    None
}

fn find_stamp(stamps: &Vec<(String, u64)>, uri: &str) -> (r: Option<usize>)
    ensures
        match r {
            Some(i) => stamp_index_from(stamps@, uri@, 0) == Some(i as int) && i < stamps@.len(),
            None => stamp_index_from(stamps@, uri@, 0) is None,
        },
{
    let mut i: usize = 0;
    while i < stamps.len()
        invariant
            i <= stamps.len(),
            stamp_index_from(stamps@, uri@, i as int) == stamp_index_from(stamps@, uri@, 0),
        decreases stamps.len() - i,
    {
        if crate::syntax::str_eq(stamps[i].0.as_str(), uri) {
            return Some(i);
        }
        i = i + 1;
    }
    None
}

impl Workspace {
    /// A workspace with no open document.
    pub fn new(features: Features) -> (w: Workspace)
        ensures
            forall|u: Seq<char>| #[trigger] w.doc(u) is None,
            forall|u: Seq<char>| #[trigger] w.stamp(u) is None,
            w.next() == 0,
            w.open_docs().len() == 0,
            w.feature_set() == features,
    {
        Workspace { features, documents: Vec::new(), stamps: Vec::new(), next_stamp: 0 }
    }

    /// The features the server runs with.
    pub fn features(&self) -> (f: Features)
        ensures
            f == self.feature_set(),
    {
        self.features
    }

    /// The open documents.
    pub fn documents(&self) -> (r: &Vec<DocumentState>)
        ensures
            r@ == self.open_docs(),
    {
        &self.documents
    }

    /// The open document at `uri`, if any.
    pub fn document(&self, uri: &str) -> (r: Option<&DocumentState>)
        ensures
            match r {
                Some(d) => self.doc(uri@) == Some(*d),
                None => self.doc(uri@) is None,
            },
    {
        match find_document(&self.documents, uri) {
            Some(i) => Some(&self.documents[i]),
            None => None,
        }
    }

    fn put_text(&mut self, uri: &str, text: String)
        ensures
            final(self).doc(uri@) matches Some(d) && d.uri@ == uri@ && d.text@ == text@ && keeps_symbols(
                d,
                old(self).doc(uri@),
            ),
            forall|u: Seq<char>| u != uri@ ==> #[trigger] final(self).doc(u) == old(self).doc(u),
            final(self).stamps == old(self).stamps,
            final(self).next_stamp == old(self).next_stamp,
            final(self).features == old(self).features,
    {
        let ghost before = self.documents@;
        match find_document(&self.documents, uri) {
            Some(i) => {
                let mut d = self.documents.remove(i);
                d.text = text;
                self.documents.insert(i, d);
                proof {
                    assert(self.documents@ =~= before.update(i as int, d));
                    lemma_doc_index_bounds(before, uri@, 0);
                    assert forall|u: Seq<char>| #[trigger] doc_index_from(self.documents@, u, 0) == doc_index_from(before, u, 0) by {
                        lemma_doc_index_update(before, i as int, d, u, 0);
                    }
                    assert forall|u: Seq<char>| u != uri@ implies #[trigger] self.doc(u) == old(self).doc(u) by {
                        lemma_doc_index_bounds(before, u, 0);
                    }
                }
            },
            None => {
                let d = DocumentState {
                    uri: uri.to_owned(),
                    text,
                    functions: Vec::new(),
                    macros: Vec::new(),
                    variables: Vec::new(),
                    imported_functions: Vec::new(),
                    imported_macros: Vec::new(),
                    imported_variables: Vec::new(),
                };
                self.documents.push(d);
                proof {
                    assert forall|u: Seq<char>| #[trigger] doc_index_from(self.documents@, u, 0) == (match doc_index_from(before, u, 0) {
                        Some(k) => Some(k),
                        None => if d.uri@ == u {
                            Some(before.len() as int)
                        } else {
                            None
                        },
                    }) by {
                        lemma_doc_index_push(before, d, u, 0);
                    }
                    assert forall|u: Seq<char>| u != uri@ implies #[trigger] self.doc(u) == old(self).doc(u) by {
                        lemma_doc_index_bounds(before, u, 0);
                        assert(self.documents@[before.len() as int] == d);
                    }
                    assert(self.documents@[before.len() as int] == d);
                }
            },
        }
    }

    /// Opens the document at `uri` with `text`, or sets the text of the
    /// open one; its symbols stay as they were.
    pub fn set_text(&mut self, uri: &str, text: String)
        ensures
            text_set(*old(self), *final(self), uri@, text@),
    {
        self.put_text(uri, text);
        proof {
            assert forall|u: Seq<char>| #[trigger] final(self).stamp(u) == old(self).stamp(u) by {}
        }
    }

    /// Records a change of the document at `uri` to `text` and gives the
    /// change its stamp; only a refresh for the document's latest stamp is
    /// to be made.
    pub fn change(&mut self, uri: &str, text: String) -> (stamp: u64)
        requires
            old(self).next() < u64::MAX,
        ensures
            changed(*old(self), *final(self), uri@, text@, stamp),
    {
        self.put_text(uri, text);
        let ghost after_put = *self;
        let stamp = self.next_stamp;
        let ghost before = self.stamps@;
        match find_stamp(&self.stamps, uri) {
            Some(i) => {
                let (u, _) = self.stamps.remove(i);
                self.stamps.insert(i, (u, stamp));
                proof {
                    lemma_stamp_index_bounds(before, uri@, 0);
                    assert(self.stamps@ =~= before.update(i as int, (u, stamp)));
                    assert forall|w: Seq<char>| #[trigger] stamp_index_from(self.stamps@, w, 0) == stamp_index_from(before, w, 0) by {
                        lemma_stamp_index_update(before, i as int, (u, stamp), w, 0);
                    }
                    assert forall|w: Seq<char>| w != uri@ implies #[trigger] self.stamp(w) == old(self).stamp(w) by {
                        lemma_stamp_index_bounds(before, w, 0);
                    }
                }
            },
            None => {
                let x = (uri.to_owned(), stamp);
                self.stamps.push(x);
                proof {
                    assert forall|w: Seq<char>| #[trigger] stamp_index_from(self.stamps@, w, 0) == (match stamp_index_from(before, w, 0) {
                        Some(k) => Some(k),
                        None => if x.0@ == w {
                            Some(before.len() as int)
                        } else {
                            None
                        },
                    }) by {
                        lemma_stamp_index_push(before, x, w, 0);
                    }
                    assert forall|w: Seq<char>| w != uri@ implies #[trigger] self.stamp(w) == old(self).stamp(w) by {
                        lemma_stamp_index_bounds(before, w, 0);
                        assert(self.stamps@[before.len() as int] == x);
                    }
                    assert(self.stamps@[before.len() as int] == x);
                }
            },
        }
        let ghost mid = *self;
        self.next_stamp = self.next_stamp + 1;
        assert forall|u: Seq<char>| #[trigger] self.stamp(u) == mid.stamp(u) by {}
        assert forall|u: Seq<char>| #[trigger] self.doc(u) == after_put.doc(u) by {}
        stamp
    }

    /// Whether `stamp` is that of the last change to the document at `uri`:
    /// the refresh scheduled for it is then to be made.
    pub fn is_latest_change(&self, uri: &str, stamp: u64) -> (r: bool)
        ensures
            r == (self.stamp(uri@) == Some(stamp)),
    {
        match find_stamp(&self.stamps, uri) {
            Some(i) => self.stamps[i].1 == stamp,
            None => false,
        }
    }

    /// Whether another change can still be given a stamp.
    pub fn can_stamp(&self) -> (r: bool)
        ensures
            r == (self.next() < u64::MAX),
    {
        self.next_stamp < u64::MAX
    }

    fn replace_document(&mut self, uri: &str, f: Option<Vec<UserFunction>>, m: Option<Vec<UserMacro>>, v: Option<Vec<UserVariable>>, imported: bool)
        requires
            old(self).doc(uri@) is Some,
        ensures
            old(self).doc(uri@) matches Some(o) && final(self).doc(uri@) == Some(
                DocumentState {
                    uri: o.uri,
                    text: o.text,
                    functions: if !imported && f is Some { f->0 } else { o.functions },
                    macros: if !imported && m is Some { m->0 } else { o.macros },
                    variables: if !imported && v is Some { v->0 } else { o.variables },
                    imported_functions: if imported && f is Some { f->0 } else { o.imported_functions },
                    imported_macros: if imported && m is Some { m->0 } else { o.imported_macros },
                    imported_variables: if imported && v is Some { v->0 } else { o.imported_variables },
                },
            ),
            forall|u: Seq<char>| u != uri@ ==> #[trigger] final(self).doc(u) == old(self).doc(u),
            final(self).stamps == old(self).stamps,
            final(self).next_stamp == old(self).next_stamp,
            final(self).features == old(self).features,
    {
        let ghost before = self.documents@;
        let i = find_document(&self.documents, uri).unwrap();
        let mut d = self.documents.remove(i);
        if imported {
            if let Some(x) = f {
                d.imported_functions = x;
            }
            if let Some(x) = m {
                d.imported_macros = x;
            }
            if let Some(x) = v {
                d.imported_variables = x;
            }
        } else {
            if let Some(x) = f {
                d.functions = x;
            }
            if let Some(x) = m {
                d.macros = x;
            }
            if let Some(x) = v {
                d.variables = x;
            }
        }
        self.documents.insert(i, d);
        proof {
            lemma_doc_index_bounds(before, uri@, 0);
            assert(self.documents@ =~= before.update(i as int, d));
            assert forall|u: Seq<char>| #[trigger] doc_index_from(self.documents@, u, 0) == doc_index_from(before, u, 0) by {
                lemma_doc_index_update(before, i as int, d, u, 0);
            }
            assert forall|u: Seq<char>| u != uri@ implies #[trigger] self.doc(u) == old(self).doc(u) by {
                lemma_doc_index_bounds(before, u, 0);
            }
        }
    }

    /// Sets the symbols read from the open document at `uri`.
    pub fn set_symbols(
        &mut self,
        uri: &str,
        functions: Vec<UserFunction>,
        macros: Vec<UserMacro>,
        variables: Vec<UserVariable>,
    )
        requires
            old(self).doc(uri@) is Some,
        ensures
            symbols_set(*old(self), *final(self), uri@, functions, macros, variables),
    {
        self.replace_document(uri, Some(functions), Some(macros), Some(variables), false);
        assert forall|u: Seq<char>| #[trigger] final(self).stamp(u) == old(self).stamp(u) by {}
    }

    /// Sets the symbols imported into the open document at `uri`.
    pub fn set_imports(
        &mut self,
        uri: &str,
        functions: Vec<UserFunction>,
        macros: Vec<UserMacro>,
        variables: Vec<UserVariable>,
    )
        requires
            old(self).doc(uri@) is Some,
        ensures
            imports_set(*old(self), *final(self), uri@, functions, macros, variables),
    {
        self.replace_document(uri, Some(functions), Some(macros), Some(variables), true);
        assert forall|u: Seq<char>| #[trigger] final(self).stamp(u) == old(self).stamp(u) by {}
    }
}

// ---------------------------------------------------------------------------
// Laws of the document store
// ---------------------------------------------------------------------------

/// After a change, the document holds the new text, and the change's stamp
/// is the latest for it.
pub proof fn law_change_reads_back(w0: Workspace, w1: Workspace, uri: Seq<char>, text: Seq<char>, stamp: u64)
    requires
        changed(w0, w1, uri, text, stamp),
    ensures
        w1.doc(uri) matches Some(d) && d.text@ == text,
        w1.stamp(uri) == Some(stamp),
{
}

/// Of two changes in a row to one document, only the second is the latest:
/// the refresh scheduled by the first is not made.
pub proof fn law_later_change_supersedes(
    w0: Workspace,
    w1: Workspace,
    w2: Workspace,
    uri: Seq<char>,
    t1: Seq<char>,
    t2: Seq<char>,
    s1: u64,
    s2: u64,
)
    requires
        changed(w0, w1, uri, t1, s1),
        changed(w1, w2, uri, t2, s2),
    ensures
        w2.stamp(uri) == Some(s2),
        w2.stamp(uri) != Some(s1),
        w2.doc(uri) matches Some(d) && d.text@ == t2,
{
}

/// A change to one document leaves every other document and its latest
/// stamp as they were.
pub proof fn law_change_leaves_others(w0: Workspace, w1: Workspace, uri: Seq<char>, other: Seq<char>, text: Seq<char>, stamp: u64)
    requires
        changed(w0, w1, uri, text, stamp),
        other != uri,
    ensures
        w1.doc(other) == w0.doc(other),
        w1.stamp(other) == w0.stamp(other),
{
}

/// Reading symbols from a document keeps its text and the latest stamp, so
/// a pending refresh stays pending.
pub proof fn law_symbols_keep_text(
    w0: Workspace,
    w1: Workspace,
    uri: Seq<char>,
    fs: Vec<UserFunction>,
    ms: Vec<UserMacro>,
    vs: Vec<UserVariable>,
)
    requires
        symbols_set(w0, w1, uri, fs, ms, vs),
    ensures
        w1.doc(uri) matches Some(d) && w0.doc(uri) matches Some(o) && d.text == o.text
            && d.functions == fs && d.macros == ms && d.variables == vs,
        w1.stamp(uri) == w0.stamp(uri),
{
}

} // verus!
