//! Inlay hints: the parameter name shown before each argument of a call of
//! a built-in function or of a function of the document.
use vstd::prelude::*;
use vstd::utf8::encode_utf8;
use crate::types::{Position, Range, UserFunction, DocumentState};
use crate::data::BuiltinFunction;
use crate::text::{string_views, text_lines, lines_spec, trim_spec, trim_chars, chars_of, string_of};
use crate::strings::push_str;
use crate::search::{find_from, find_bytes, lemma_find_from_bounds};
use crate::utils::{closing_paren_from, find_closing_paren, split_arguments, split_arguments_spec, str_views};
use crate::cursor::{Fault, byte_slice, byte_slice_spec};

verus! {

/// A parameter name shown before an argument.
#[derive(Debug)]
pub struct InlayHint {
    pub position: Position,
    pub label: String,
}

/// The contents of a list of hints: position and label.
pub open spec fn hint_views(v: Seq<InlayHint>) -> Seq<(Position, Seq<char>)> {
    v.map_values(|h: InlayHint| (h.position, h.label@))
}

/// Both results' hints in order, or the first failure.
pub open spec fn both(a: Result<Seq<(Position, Seq<char>)>, Fault>, b: Result<Seq<(Position, Seq<char>)>, Fault>) -> Result<
    Seq<(Position, Seq<char>)>,
    Fault,
> {
    match a {
        Err(e) => Err(e),
        Ok(x) => match b {
            Err(e) => Err(e),
            Ok(y) => Ok(x + y),
        },
    }
}

/// The hints for the arguments `args[i..]` of a call on `line` (bytes `b`,
/// number `row`), the search for each trimmed argument starting at byte
/// offset `cur`: empty arguments are passed over, and each argument found
/// gets the name of its parameter.
pub open spec fn arg_hints(
    b: Seq<u8>,
    line: Seq<char>,
    row: u32,
    args: Seq<Seq<char>>,
    params: Seq<Seq<char>>,
    i: int,
    cur: int,
) -> Result<Seq<(Position, Seq<char>)>, Fault>
    decreases args.len() - i,
{
    if i < 0 || i >= args.len() || i >= params.len() {
        Ok(seq![])
    } else {
        let t = trim_spec(args[i]);
        if t.len() == 0 {
            arg_hints(b, line, row, args, params, i + 1, cur)
        } else if byte_slice_spec(line, cur, b.len() as int) is None {
            Err(Fault::BadSlice)
        } else {
            match find_from(b, encode_utf8(t), cur) {
                Some(k) => both(
                    Ok(seq![(Position { line: row, character: k as u32 }, params[i] + ": "@)]),
                    arg_hints(b, line, row, args, params, i + 1, k + encode_utf8(t).len()),
                ),
                None => arg_hints(b, line, row, args, params, i + 1, cur),
            }
        }
    }
}

/// The hints for the first call of `name` on `line` (number `row`): none
/// where the line has no `name(`, where `skip` is a definition on this
/// line, or where the call is not closed; `Err` where the arguments cannot
/// be cut out of the line. The call's byte offset after `(` is taken as
/// the character index from which its closing `)` is sought, and that
/// character index as the byte offset where the arguments end.
pub open spec fn call_hints(line: Seq<char>, row: u32, name: Seq<char>, params: Seq<Seq<char>>, skip: Option<Range>) -> Result<
    Seq<(Position, Seq<char>)>,
    Fault,
> {
    let b = encode_utf8(line);
    let pat = encode_utf8(name + "("@);
    match find_from(b, pat, 0) {
        None => Ok(seq![]),
        Some(start) => if skip matches Some(r) && r.start.line == row {
            Ok(seq![])
        } else {
            let after = start + pat.len();
            match closing_paren_from(line, after, 1) {
                None => Ok(seq![]),
                Some(end) => match byte_slice_spec(line, after, end) {
                    None => Err(Fault::BadSlice),
                    Some(args) => arg_hints(b, line, row, split_arguments_spec(args), params, 0, after),
                },
            }
        },
    }
}

/// The hints on `line` for the built-in functions `bs[k..]`.
pub open spec fn builtin_hints_from(line: Seq<char>, row: u32, bs: Seq<BuiltinFunction>, k: int) -> Result<
    Seq<(Position, Seq<char>)>,
    Fault,
>
    decreases bs.len() - k,
{
    if k < 0 || k >= bs.len() {
        Ok(seq![])
    } else {
        both(
            call_hints(line, row, bs[k].name@, string_views(bs[k].parameters@), None),
            builtin_hints_from(line, row, bs, k + 1),
        )
    }
}

/// The hints on `line` for the functions `fs[k..]` of the document, none on
/// a function's own definition line.
pub open spec fn function_hints_from(line: Seq<char>, row: u32, fs: Seq<UserFunction>, k: int) -> Result<
    Seq<(Position, Seq<char>)>,
    Fault,
>
    decreases fs.len() - k,
{
    if k < 0 || k >= fs.len() {
        Ok(seq![])
    } else {
        both(
            call_hints(line, row, fs[k].name@, string_views(fs[k].parameters@), Some(fs[k].definition.range)),
            function_hints_from(line, row, fs, k + 1),
        )
    }
}

/// The built-in function hints of `lines[i..]`, line by line.
pub open spec fn builtin_hints_lines(lines: Seq<Seq<char>>, bs: Seq<BuiltinFunction>, i: int) -> Result<
    Seq<(Position, Seq<char>)>,
    Fault,
>
    decreases lines.len() - i,
{
    if i < 0 || i >= lines.len() {
        Ok(seq![])
    } else {
        both(builtin_hints_from(lines[i], i as u32, bs, 0), builtin_hints_lines(lines, bs, i + 1))
    }
}

/// The document-function hints of `lines[i..]`, line by line.
pub open spec fn function_hints_lines(lines: Seq<Seq<char>>, fs: Seq<UserFunction>, i: int) -> Result<
    Seq<(Position, Seq<char>)>,
    Fault,
>
    decreases lines.len() - i,
{
    if i < 0 || i >= lines.len() {
        Ok(seq![])
    } else {
        both(function_hints_from(lines[i], i as u32, fs, 0), function_hints_lines(lines, fs, i + 1))
    }
}

/// The inlay hints of a document: those for built-in functions, then those
/// for its own functions; `None` where there are none.
pub open spec fn inlay_hints_spec(d: DocumentState, bs: Seq<BuiltinFunction>) -> Result<
    Option<Seq<(Position, Seq<char>)>>,
    Fault,
> {
    let ls = lines_spec(d.text@);
    match both(builtin_hints_lines(ls, bs, 0), function_hints_lines(ls, d.functions@, 0)) {
        Err(e) => Err(e),
        Ok(h) => Ok(
            if h.len() == 0 {
                None
            } else {
                Some(h)
            },
        ),
    }
}

proof fn lemma_both_assoc(
    a: Seq<(Position, Seq<char>)>,
    x: Result<Seq<(Position, Seq<char>)>, Fault>,
    y: Result<Seq<(Position, Seq<char>)>, Fault>,
)
    ensures
        both(Ok(a), both(x, y)) == both(both(Ok(a), x), y),
{
    match x {
        Ok(p) => match y {
            Ok(q) => {
                assert(a + (p + q) =~= (a + p) + q);
            },
            Err(_) => {},
        },
        Err(_) => {},
    }
}

proof fn lemma_both_empty(x: Result<Seq<(Position, Seq<char>)>, Fault>)
    ensures
        both(Ok(Seq::empty()), x) == x,
        both(x, Ok(Seq::empty())) == x,
{
    match x {
        Ok(p) => {
            assert(Seq::<(Position, Seq<char>)>::empty() + p =~= p);
            assert(p + Seq::<(Position, Seq<char>)>::empty() =~= p);
        },
        Err(_) => {},
    }
}

fn push_hint(out: &mut Vec<InlayHint>, h: InlayHint)
    ensures
        hint_views(final(out)@) == hint_views(old(out)@).push((h.position, h.label@)),
{
    let ghost before = hint_views(out@);
    out.push(h);
    assert(hint_views(out@) =~= before.push((h.position, h.label@)));
}

fn append_hints(out: &mut Vec<InlayHint>, more: Vec<InlayHint>)
    ensures
        hint_views(final(out)@) == hint_views(old(out)@) + hint_views(more@),
{
    let ghost a = hint_views(out@);
    let ghost b = hint_views(more@);
    let mut more = more;
    out.append(&mut more);
    assert(hint_views(out@) =~= a + b);
}

/// The hints for the first call of `name` on `line` (number `row`).
fn call_hints_of(line: &String, row: u32, name: &String, params: &Vec<String>, skip: Option<Range>) -> (r: Result<Vec<InlayHint>, Fault>)
    ensures
        match r {
            Ok(v) => call_hints(line@, row, name@, string_views(params@), skip) == Ok::<Seq<(Position, Seq<char>)>, Fault>(hint_views(v@)),
            Err(e) => call_hints(line@, row, name@, string_views(params@), skip) == Err::<Seq<(Position, Seq<char>)>, Fault>(e),
        },
{
    let ghost ps = string_views(params@);
    let b = line.as_str().as_bytes();
    let mut pat = name.clone();
    push_str(&mut pat, "(");
    let pb = pat.as_str().as_bytes();
    let mut out: Vec<InlayHint> = Vec::new();
    assert(hint_views(out@) =~= Seq::<(Position, Seq<char>)>::empty());
    let start = match find_bytes(b, pb, 0) {
        None => {
            return Ok(out);
        },
        Some(s) => s,
    };
    proof {
        lemma_find_from_bounds(b@, pb@, 0);
    }
    match skip {
        Some(r) => {
            if r.start.line == row {
                return Ok(out);
            }
        },
        None => {},
    }
    assert(b@.len() == b.len());
    assert(start + pb@.len() <= b@.len());
    let after = start + pb.len();
    let end = match find_closing_paren(line.as_str(), after) {
        None => {
            return Ok(out);
        },
        Some(e) => e,
    };
    let args = match byte_slice(line.as_str(), after, end) {
        None => {
            return Err(Fault::BadSlice);
        },
        Some(a) => a,
    };
    let pieces = split_arguments(args.as_str());
    let ghost av = split_arguments_spec(args@);
    assert(str_views(pieces@) == av);
    assert(pat@ == name@ + "("@);
    assert(call_hints(line@, row, name@, ps, skip) == arg_hints(b@, line@, row, av, ps, 0, after as int));
    let mut i: usize = 0;
    let mut cur: usize = after;
    proof {
        lemma_both_empty(arg_hints(b@, line@, row, av, ps, 0, after as int));
    }
    while i < pieces.len() && i < params.len()
        invariant
            b@ == encode_utf8(line@),
            ps == string_views(params@),
            str_views(pieces@) == av,
            i <= pieces@.len(),
            cur <= b@.len(),
            call_hints(line@, row, name@, ps, skip) == arg_hints(b@, line@, row, av, ps, 0, after as int),
            arg_hints(b@, line@, row, av, ps, 0, after as int) == both(
                Ok(hint_views(out@)),
                arg_hints(b@, line@, row, av, ps, i as int, cur as int),
            ),
        decreases pieces.len() - i,
    {
        assert(av[i as int] == pieces@[i as int]@);
        assert(ps[i as int] == params@[i as int]@);
        let pc = chars_of(pieces[i]);
        let t = trim_chars(&pc);
        if t.len() == 0 {
            i = i + 1;
        } else {
            if byte_slice(line.as_str(), cur, b.len()).is_none() {
                assert(t@ == trim_spec(av[i as int]));
                assert(arg_hints(b@, line@, row, av, ps, i as int, cur as int) == Err::<Seq<(Position, Seq<char>)>, Fault>(Fault::BadSlice));
                return Err(Fault::BadSlice);
            }
            let ts = string_of(&t);
            let tb = ts.as_str().as_bytes();
            match find_bytes(b, tb, cur) {
                Some(k) => {
                    proof {
                        lemma_find_from_bounds(b@, tb@, cur as int);
                    }
                    let mut label = params[i].clone();
                    push_str(&mut label, ": ");
                    let h = InlayHint { position: Position { line: row, character: #[verifier::truncate] (k as u32) }, label };
                    let ghost before = hint_views(out@);
                    push_hint(&mut out, h);
                    proof {
                        let next = arg_hints(b@, line@, row, av, ps, i + 1, k + tb@.len());
                        assert(before + seq![(h.position, h.label@)] =~= hint_views(out@));
                        lemma_both_assoc(before, Ok(seq![(h.position, h.label@)]), next);
                    }
                    cur = k + tb.len();
                },
                None => {},
            }
            i = i + 1;
        }
    }
    proof {
        lemma_both_empty(Ok(hint_views(out@)));
    }
    Ok(out)
}

fn line_builtin_hints(line: &String, row: u32, bs: &Vec<BuiltinFunction>) -> (r: Result<Vec<InlayHint>, Fault>)
    ensures
        match r {
            Ok(v) => builtin_hints_from(line@, row, bs@, 0) == Ok::<Seq<(Position, Seq<char>)>, Fault>(hint_views(v@)),
            Err(e) => builtin_hints_from(line@, row, bs@, 0) == Err::<Seq<(Position, Seq<char>)>, Fault>(e),
        },
{
    let mut out: Vec<InlayHint> = Vec::new();
    let mut k: usize = 0;
    proof {
        assert(hint_views(out@) =~= Seq::<(Position, Seq<char>)>::empty());
        lemma_both_empty(builtin_hints_from(line@, row, bs@, 0));
    }
    while k < bs.len()
        invariant
            k <= bs.len(),
            builtin_hints_from(line@, row, bs@, 0) == both(
                Ok(hint_views(out@)),
                builtin_hints_from(line@, row, bs@, k as int),
            ),
        decreases bs.len() - k,
    {
        let ghost before = hint_views(out@);
        match call_hints_of(line, row, &bs[k].name, &bs[k].parameters, None) {
            Err(e) => {
                return Err(e);
            },
            Ok(v) => {
                let ghost hv = hint_views(v@);
                append_hints(&mut out, v);
                proof {
                    lemma_both_assoc(before, Ok(hv), builtin_hints_from(line@, row, bs@, k + 1));
                }
            },
        }
        k = k + 1;
    }
    proof {
        lemma_both_empty(Ok(hint_views(out@)));
    }
    Ok(out)
}

fn line_function_hints(line: &String, row: u32, fs: &Vec<UserFunction>) -> (r: Result<Vec<InlayHint>, Fault>)
    ensures
        match r {
            Ok(v) => function_hints_from(line@, row, fs@, 0) == Ok::<Seq<(Position, Seq<char>)>, Fault>(hint_views(v@)),
            Err(e) => function_hints_from(line@, row, fs@, 0) == Err::<Seq<(Position, Seq<char>)>, Fault>(e),
        },
{
    let mut out: Vec<InlayHint> = Vec::new();
    let mut k: usize = 0;
    proof {
        assert(hint_views(out@) =~= Seq::<(Position, Seq<char>)>::empty());
        lemma_both_empty(function_hints_from(line@, row, fs@, 0));
    }
    while k < fs.len()
        invariant
            k <= fs.len(),
            function_hints_from(line@, row, fs@, 0) == both(
                Ok(hint_views(out@)),
                function_hints_from(line@, row, fs@, k as int),
            ),
        decreases fs.len() - k,
    {
        let ghost before = hint_views(out@);
        let f = &fs[k];
        match call_hints_of(line, row, &f.name, &f.parameters, Some(f.definition.range)) {
            Err(e) => {
                return Err(e);
            },
            Ok(v) => {
                let ghost hv = hint_views(v@);
                append_hints(&mut out, v);
                proof {
                    lemma_both_assoc(before, Ok(hv), function_hints_from(line@, row, fs@, k + 1));
                }
            },
        }
        k = k + 1;
    }
    proof {
        lemma_both_empty(Ok(hint_views(out@)));
    }
    Ok(out)
}

/// The contents of an inlay-hints answer.
pub open spec fn hints_result_view(r: Result<Option<Vec<InlayHint>>, Fault>) -> Result<Option<Seq<(Position, Seq<char>)>>, Fault> {
    match r {
        Ok(Some(v)) => Ok(Some(hint_views(v@))),
        Ok(None) => Ok(None),
        Err(e) => Err(e),
    }
}

/// The parameter-name hints for the calls in a document: on each line the
/// first call of each built-in function, then on each line the first call
/// of each of the document's functions (not on its definition line).
pub fn handle_inlay_hint(doc: &DocumentState, builtins: &Vec<BuiltinFunction>) -> (r: Result<Option<Vec<InlayHint>>, Fault>)
    ensures
        hints_result_view(r) == inlay_hints_spec(*doc, builtins@),
{
    let lines = text_lines(doc.text.as_str());
    let ghost ls = lines_spec(doc.text@);
    let mut out: Vec<InlayHint> = Vec::new();
    let mut i: usize = 0;
    proof {
        assert(hint_views(out@) =~= Seq::<(Position, Seq<char>)>::empty());
        lemma_both_empty(builtin_hints_lines(ls, builtins@, 0));
    }
    while i < lines.len()
        invariant
            string_views(lines@) == ls,
            ls == lines_spec(doc.text@),
            i <= lines.len(),
            builtin_hints_lines(ls, builtins@, 0) == both(
                Ok(hint_views(out@)),
                builtin_hints_lines(ls, builtins@, i as int),
            ),
        decreases lines.len() - i,
    {
        let ghost before = hint_views(out@);
        assert(lines@[i as int]@ == ls[i as int]);
        match line_builtin_hints(&lines[i], #[verifier::truncate] (i as u32), builtins) {
            Err(e) => {
                assert(builtin_hints_lines(ls, builtins@, i as int) == Err::<Seq<(Position, Seq<char>)>, Fault>(e));
                return Err(e);
            },
            Ok(v) => {
                let ghost hv = hint_views(v@);
                append_hints(&mut out, v);
                proof {
                    lemma_both_assoc(before, Ok(hv), builtin_hints_lines(ls, builtins@, i + 1));
                }
            },
        }
        i = i + 1;
    }
    let ghost first = hint_views(out@);
    proof {
        lemma_both_empty(Ok(first));
        lemma_both_empty(function_hints_lines(ls, doc.functions@, 0));
    }
    let mut j: usize = 0;
    while j < lines.len()
        invariant
            string_views(lines@) == ls,
            ls == lines_spec(doc.text@),
            builtin_hints_lines(ls, builtins@, 0) == Ok::<Seq<(Position, Seq<char>)>, Fault>(first),
            j <= lines.len(),
            both(Ok(first), function_hints_lines(ls, doc.functions@, 0)) == both(
                Ok(hint_views(out@)),
                function_hints_lines(ls, doc.functions@, j as int),
            ),
        decreases lines.len() - j,
    {
        let ghost before = hint_views(out@);
        assert(lines@[j as int]@ == ls[j as int]);
        match line_function_hints(&lines[j], #[verifier::truncate] (j as u32), &doc.functions) {
            Err(e) => {
                assert(function_hints_lines(ls, doc.functions@, j as int) == Err::<Seq<(Position, Seq<char>)>, Fault>(e));
                return Err(e);
            },
            Ok(v) => {
                let ghost hv = hint_views(v@);
                append_hints(&mut out, v);
                proof {
                    lemma_both_assoc(before, Ok(hv), function_hints_lines(ls, doc.functions@, j + 1));
                }
            },
        }
        j = j + 1;
    }
    proof {
        lemma_both_empty(Ok(hint_views(out@)));
    }
    if out.len() == 0 {
        Ok(None)
    } else {
        Ok(Some(out))
    }
}

} // verus!
