//! Semantic highlighting: a token for each definition, parameter and
//! reference of the document's functions and variables, and of its macros
//! where that feature is on, sorted by place and encoded relative to the
//! token before it.
use vstd::prelude::*;
use vstd::utf8::encode_utf8;
use crate::types::{Position, Range, UserFunction, UserMacro, UserVariable, VariableKind, Mutability, DocumentState, Features};
use crate::text::{string_views, text_lines, lines_spec};
use crate::search::{word_positions, word_search_ok, find_word_positions, search_allowed, find_from, find_bytes};
use crate::diagnostics::{key_lt, sorted_order, lemma_sorted_order_len, law_sorted_order_sorted, stable_order};
use crate::cursor::Fault;

verus! {

/// The token type of a function.
pub const TOKEN_FUNCTION: u32 = 0;
/// The token type of a variable or `define`.
pub const TOKEN_VARIABLE: u32 = 1;
/// The token type of an enum member.
pub const TOKEN_ENUM_MEMBER: u32 = 2;
/// The token type of a parameter.
pub const TOKEN_PARAMETER: u32 = 3;
/// The token type of a macro.
pub const TOKEN_MACRO: u32 = 4;
/// The modifier bit of a definition.
pub const MODIFIER_DECLARATION: u32 = 1;
/// The modifier bit of a name that cannot be assigned.
pub const MODIFIER_READONLY: u32 = 2;

/// A token as the editor receives it: its line relative to the previous
/// token's, its start (relative to the previous token's where both share a
/// line), its length in bytes, type and modifier bits.
#[derive(Clone, Copy, Debug, PartialEq, Eq, Structural)]
pub struct SemanticToken {
    pub delta_line: u32,
    pub delta_start: u32,
    pub length: u32,
    pub token_type: u32,
    pub token_modifiers: u32,
}

/// A token at its absolute place: (line, start, length, type, modifiers).
pub type RawToken = (u32, u32, u32, u32, u32);

/// The token for `t` after a token that started at `prev`, and the place it
/// starts at; `Err` where it would lie before `prev`.
pub open spec fn encode_token(t: RawToken, prev: (u32, u32)) -> Result<(SemanticToken, (u32, u32)), Fault> {
    if t.0 < prev.0 || (t.0 == prev.0 && t.1 < prev.1) {
        Err(Fault::Underflow)
    } else {
        Ok(
            (
                SemanticToken {
                    delta_line: (t.0 - prev.0) as u32,
                    delta_start: if t.0 == prev.0 {
                        (t.1 - prev.1) as u32
                    } else {
                        t.1
                    },
                    length: t.2,
                    token_type: t.3,
                    token_modifiers: t.4,
                },
                (t.0, t.1),
            ),
        )
    }
}

/// `a` put in front of the tokens of a result.
pub open spec fn prepend(a: Seq<SemanticToken>, r: Result<(Seq<SemanticToken>, (u32, u32)), Fault>) -> Result<
    (Seq<SemanticToken>, (u32, u32)),
    Fault,
> {
    match r {
        Ok((b, p)) => Ok((a + b, p)),
        Err(e) => Err(e),
    }
}

/// The tokens for `ts`, one after the other, starting after `prev`.
pub open spec fn encode_all(ts: Seq<RawToken>, prev: (u32, u32)) -> Result<(Seq<SemanticToken>, (u32, u32)), Fault>
    decreases ts.len(),
{
    if ts.len() == 0 {
        Ok((seq![], prev))
    } else {
        match encode_token(ts[0], prev) {
            Err(e) => Err(e),
            Ok((t, p)) => prepend(seq![t], encode_all(ts.drop_first(), p)),
        }
    }
}

/// The byte length of a name, as a token length.
pub open spec fn name_length(s: Seq<char>) -> u32 {
    encode_utf8(s).len() as u32
}

/// The tokens of the parameters among `params` that occur on the
/// definition's line `line` (number `row`), each at its first occurrence.
pub open spec fn param_tokens(line: Seq<char>, row: u32, params: Seq<Seq<char>>) -> Seq<RawToken>
    decreases params.len(),
{
    if params.len() == 0 {
        seq![]
    } else {
        param_tokens(line, row, params.drop_last()) + match find_from(
            encode_utf8(line),
            encode_utf8(params.last()),
            0,
        ) {
            Some(k) => seq![
                (
                    row,
                    k as u32,
                    name_length(params.last()),
                    TOKEN_PARAMETER,
                    MODIFIER_DECLARATION | MODIFIER_READONLY,
                ),
            ],
            None => seq![],
        }
    }
}

/// The tokens of the occurrences `rs` that do not start at `def`.
pub open spec fn ref_tokens(rs: Seq<Range>, def: Position, len: u32, tt: u32, mods: u32) -> Seq<RawToken>
    decreases rs.len(),
{
    if rs.len() == 0 {
        seq![]
    } else {
        ref_tokens(rs.drop_last(), def, len, tt, mods) + if rs.last().start != def {
            seq![(rs.last().start.line, rs.last().start.character, len, tt, mods)]
        } else {
            seq![]
        }
    }
}

/// Where a symbol's name token goes: the first of the whole-word
/// occurrences `rs` that lies on the definition's line at or after its
/// start; the definition's start where there is none.
pub open spec fn name_place(rs: Seq<Range>, def: Position) -> Position
    decreases rs.len(),
{
    if rs.len() == 0 {
        def
    } else if rs[0].start.line == def.line && rs[0].start.character >= def.character {
        rs[0].start
    } else {
        name_place(rs.drop_first(), def)
    }
}

/// The tokens of a function: its name, with the declaration modifier, the
/// parameters found on its definition's line, and its other occurrences.
pub open spec fn function_tokens(lines: Seq<Seq<char>>, f: UserFunction) -> Seq<RawToken> {
    let d = f.definition.range.start;
    let rs = word_positions(lines, f.name@);
    let at = name_place(rs, d);
    let len = name_length(f.name@);
    seq![(at.line, at.character, len, TOKEN_FUNCTION, MODIFIER_DECLARATION)] + (if d.line < lines.len() {
        param_tokens(lines[d.line as int], d.line, string_views(f.parameters@))
    } else {
        seq![]
    }) + ref_tokens(rs, at, len, TOKEN_FUNCTION, 0)
}

/// Whether a variable was declared immutable.
pub open spec fn is_readonly(v: UserVariable) -> bool {
    v.var_type matches Some(t) && t.mutability == Mutability::Immutable
}

/// The token type of a variable.
pub open spec fn variable_token_type(v: UserVariable) -> u32 {
    if v.kind == VariableKind::EnumMember {
        TOKEN_ENUM_MEMBER
    } else {
        TOKEN_VARIABLE
    }
}

/// The modifiers of a variable's references.
pub open spec fn variable_ref_modifiers(v: UserVariable) -> u32 {
    if is_readonly(v) {
        MODIFIER_READONLY
    } else {
        0
    }
}

/// The tokens of a variable: its name, with the declaration modifier, and
/// its other occurrences.
pub open spec fn variable_tokens(lines: Seq<Seq<char>>, v: UserVariable) -> Seq<RawToken> {
    let rs = word_positions(lines, v.name@);
    let at = name_place(rs, v.definition.range.start);
    let len = name_length(v.name@);
    let tt = variable_token_type(v);
    let rm = variable_ref_modifiers(v);
    seq![(at.line, at.character, len, tt, MODIFIER_DECLARATION | rm)] + ref_tokens(rs, at, len, tt, rm)
}

/// The tokens of a macro: its name, with the declaration modifier, and its
/// other occurrences.
pub open spec fn macro_tokens(lines: Seq<Seq<char>>, m: UserMacro) -> Seq<RawToken> {
    let rs = word_positions(lines, m.name@);
    let at = name_place(rs, m.definition.range.start);
    let len = name_length(m.name@);
    seq![(at.line, at.character, len, TOKEN_MACRO, MODIFIER_DECLARATION)] + ref_tokens(rs, at, len, TOKEN_MACRO, 0)
}

/// The tokens of the functions `fs`, one after the other.
pub open spec fn functions_tokens(lines: Seq<Seq<char>>, fs: Seq<UserFunction>) -> Seq<RawToken>
    decreases fs.len(),
{
    if fs.len() == 0 {
        seq![]
    } else {
        functions_tokens(lines, fs.drop_last()) + function_tokens(lines, fs.last())
    }
}

/// The tokens of the variables `vs`, one after the other.
pub open spec fn variables_tokens(lines: Seq<Seq<char>>, vs: Seq<UserVariable>) -> Seq<RawToken>
    decreases vs.len(),
{
    if vs.len() == 0 {
        seq![]
    } else {
        variables_tokens(lines, vs.drop_last()) + variable_tokens(lines, vs.last())
    }
}

/// The tokens of the macros `ms`, one after the other.
pub open spec fn macros_tokens(lines: Seq<Seq<char>>, ms: Seq<UserMacro>) -> Seq<RawToken>
    decreases ms.len(),
{
    if ms.len() == 0 {
        seq![]
    } else {
        macros_tokens(lines, ms.drop_last()) + macro_tokens(lines, ms.last())
    }
}

/// The tokens of a document at their places: its functions', then its
/// variables', then, where the macros feature is on, its macros'.
pub open spec fn raw_tokens(d: DocumentState, f: Features) -> Seq<RawToken> {
    let lines = lines_spec(d.text@);
    functions_tokens(lines, d.functions@) + variables_tokens(lines, d.variables@) + if f.macros {
        macros_tokens(lines, d.macros@)
    } else {
        seq![]
    }
}

/// Whether every name whose occurrences the tokens need can be searched for.
pub open spec fn tokens_searchable(lines: Seq<Seq<char>>, d: DocumentState, f: Features) -> bool {
    &&& forall|i: int| 0 <= i < d.functions@.len() ==> word_search_ok(lines, #[trigger] d.functions@[i].name@)
    &&& forall|i: int| 0 <= i < d.variables@.len() ==> word_search_ok(lines, #[trigger] d.variables@[i].name@)
    &&& f.macros ==> forall|i: int| 0 <= i < d.macros@.len() ==> word_search_ok(lines, #[trigger] d.macros@[i].name@)
}

/// The place of a token, as a sort key.
pub open spec fn token_key(t: RawToken) -> (u32, u32) {
    (t.0, t.1)
}

/// The places of tokens, as sort keys.
pub open spec fn token_keys(ts: Seq<RawToken>) -> Seq<(u32, u32)> {
    ts.map_values(|t: RawToken| token_key(t))
}

/// The tokens `ts` sorted by line, then start, in a stable sort.
pub open spec fn sort_tokens(ts: Seq<RawToken>) -> Seq<RawToken> {
    sorted_order(token_keys(ts), ts.len() as int).map_values(|i: int| ts[i])
}

/// Whether the tokens `ts` are in the order of their places.
pub open spec fn tokens_in_order(ts: Seq<RawToken>) -> bool {
    forall|a: int, b: int| 0 <= a < b < ts.len() ==> !key_lt(#[trigger] token_key(ts[b]), #[trigger] token_key(ts[a]))
}

/// The semantic tokens of a document: its tokens sorted by place and
/// encoded relative to one another; `Err` where a name cannot be searched
/// for.
pub open spec fn semantic_tokens_spec(d: DocumentState, f: Features) -> Result<Seq<SemanticToken>, Fault> {
    if !tokens_searchable(lines_spec(d.text@), d, f) {
        Err(Fault::BadSlice)
    } else {
        match encode_all(sort_tokens(raw_tokens(d, f)), (0, 0)) {
            Ok((ts, _)) => Ok(ts),
            Err(e) => Err(e),
        }
    }
}

proof fn lemma_sort_tokens_in_order(ts: Seq<RawToken>)
    ensures
        sort_tokens(ts).len() == ts.len(),
        tokens_in_order(sort_tokens(ts)),
{
    let keys = token_keys(ts);
    let n = ts.len() as int;
    lemma_sorted_order_len(keys, n);
    law_sorted_order_sorted(keys, n);
    let order = sorted_order(keys, n);
    let s = sort_tokens(ts);
    assert forall|a: int, b: int| 0 <= a < b < s.len() implies !key_lt(#[trigger] token_key(s[b]), #[trigger] token_key(s[a])) by {
        assert(s[a] == ts[order[a]]);
        assert(s[b] == ts[order[b]]);
        assert(keys[order[a]] == token_key(ts[order[a]]));
        assert(keys[order[b]] == token_key(ts[order[b]]));
        assert(!key_lt(keys[order[b]], keys[order[a]]));
    }
}

/// Tokens in the order of their places, none before `prev`, are encoded
/// without a negative step.
proof fn lemma_in_order_encodes(ts: Seq<RawToken>, prev: (u32, u32))
    requires
        tokens_in_order(ts),
        ts.len() > 0 ==> !key_lt(token_key(ts[0]), prev),
    ensures
        encode_all(ts, prev) is Ok,
    decreases ts.len(),
{
    if ts.len() > 0 {
        let rest = ts.drop_first();
        assert forall|a: int, b: int| 0 <= a < b < rest.len() implies !key_lt(#[trigger] token_key(rest[b]), #[trigger] token_key(rest[a])) by {
            assert(rest[a] == ts[a + 1] && rest[b] == ts[b + 1]);
            assert(!key_lt(token_key(ts[b + 1]), token_key(ts[a + 1])));
        }
        if rest.len() > 0 {
            assert(rest[0] == ts[1]);
            assert(!key_lt(token_key(ts[1]), token_key(ts[0])));
        }
        lemma_in_order_encodes(rest, (ts[0].0, ts[0].1));
    }
}

/// The semantic tokens come out in the order of their places: where every
/// name can be searched for, the answer is `Ok`, and decoding it gives the
/// document's tokens sorted by line, then start.
pub proof fn law_tokens_sorted(d: DocumentState, f: Features)
    requires
        tokens_searchable(lines_spec(d.text@), d, f),
    ensures
        semantic_tokens_spec(d, f) is Ok,
        tokens_in_order(sort_tokens(raw_tokens(d, f))),
        forall|toks: Seq<SemanticToken>|
            semantic_tokens_spec(d, f) == Ok::<Seq<SemanticToken>, Fault>(toks) ==> decode_tokens(toks, (0, 0))
                == sort_tokens(raw_tokens(d, f)),
{
    let s = sort_tokens(raw_tokens(d, f));
    lemma_sort_tokens_in_order(raw_tokens(d, f));
    lemma_in_order_encodes(s, (0, 0));
    law_tokens_decode(s, (0, 0));
}

proof fn lemma_prepend_assoc(a: Seq<SemanticToken>, b: Seq<SemanticToken>, r: Result<(Seq<SemanticToken>, (u32, u32)), Fault>)
    ensures
        prepend(a, prepend(b, r)) == prepend(a + b, r),
{
    match r {
        Ok((c, p)) => {
            assert(a + (b + c) =~= (a + b) + c);
        },
        Err(e) => {},
    }
}

proof fn lemma_prepend_empty(r: Result<(Seq<SemanticToken>, (u32, u32)), Fault>)
    ensures
        prepend(Seq::<SemanticToken>::empty(), r) == r,
{
    match r {
        Ok((c, p)) => {
            assert(Seq::<SemanticToken>::empty() + c =~= c);
        },
        Err(e) => {},
    }
}

/// The token state: the tokens so far and where the last one started.
struct Encoder {
    out: Vec<SemanticToken>,
    prev_line: u32,
    prev_start: u32,
}

impl Encoder {
    fn push(&mut self, t: RawToken) -> (r: Result<(), Fault>)
        ensures
            match encode_token(t, (old(self).prev_line, old(self).prev_start)) {
                Err(e) => r == Err::<(), Fault>(e),
                Ok((tok, p)) => r is Ok && final(self).out@ == old(self).out@.push(tok)
                    && (final(self).prev_line, final(self).prev_start) == p,
            },
    {
        if t.0 < self.prev_line || (t.0 == self.prev_line && t.1 < self.prev_start) {
            return Err(Fault::Underflow);
        }
        let delta_line = t.0 - self.prev_line;
        let delta_start = if delta_line == 0 {
            t.1 - self.prev_start
        } else {
            t.1
        };
        self.out.push(
            SemanticToken {
                delta_line,
                delta_start,
                length: t.2,
                token_type: t.3,
                token_modifiers: t.4,
            },
        );
        self.prev_line = t.0;
        self.prev_start = t.1;
        Ok(())
    }

    fn push_all(&mut self, ts: &Vec<RawToken>) -> (r: Result<(), Fault>)
        ensures
            match encode_all(ts@, (old(self).prev_line, old(self).prev_start)) {
                Err(e) => r == Err::<(), Fault>(e),
                Ok((toks, p)) => r is Ok && final(self).out@ == old(self).out@ + toks
                    && (final(self).prev_line, final(self).prev_start) == p,
            },
    {
        let ghost base = self.out@;
        let ghost p0 = (self.prev_line, self.prev_start);
        let mut i: usize = 0;
        proof {
            assert(ts@.skip(0) =~= ts@);
            assert(self.out@.skip(base.len() as int) =~= Seq::<SemanticToken>::empty());
            lemma_prepend_empty(encode_all(ts@, p0));
        }
        while i < ts.len()
            invariant
                i <= ts@.len(),
                base == old(self).out@,
                p0 == (old(self).prev_line, old(self).prev_start),
                self.out@.len() >= base.len(),
                encode_all(ts@, p0) == prepend(
                    self.out@.skip(base.len() as int),
                    encode_all(ts@.skip(i as int), (self.prev_line, self.prev_start)),
                ),
                self.out@ == base + self.out@.skip(base.len() as int),
            decreases ts.len() - i,
        {
            let ghost before = self.out@.skip(base.len() as int);
            let ghost cur = (self.prev_line, self.prev_start);
            assert(ts@.skip(i as int)[0] == ts@[i as int]);
            assert(ts@.skip(i as int).drop_first() =~= ts@.skip(i + 1));
            match self.push(ts[i]) {
                Err(e) => {
                    return Err(e);
                },
                Ok(()) => {},
            }
            proof {
                let tok = self.out@.last();
                assert(self.out@.skip(base.len() as int) =~= before.push(tok));
                lemma_prepend_assoc(before, seq![tok], encode_all(ts@.skip(i + 1), (self.prev_line, self.prev_start)));
                assert(before + seq![tok] =~= before.push(tok));
            }
            i = i + 1;
        }
        assert(ts@.skip(i as int) =~= Seq::<RawToken>::empty());
        Ok(())
    }
}

fn name_len(s: &String) -> (r: u32)
    ensures
        r == name_length(s@),
{
    s.as_str().as_bytes().len() as u32
}

fn param_token_list(line: &String, row: u32, params: &Vec<String>) -> (r: Vec<RawToken>)
    ensures
        r@ == param_tokens(line@, row, string_views(params@)),
{
    let ghost v = string_views(params@);
    let b = line.as_str().as_bytes();
    let mut out: Vec<RawToken> = Vec::new();
    let mut i: usize = 0;
    while i < params.len()
        invariant
            v == string_views(params@),
            b@ == encode_utf8(line@),
            i <= params.len(),
            out@ == param_tokens(line@, row, v.take(i as int)),
        decreases params.len() - i,
    {
        proof {
            assert(v.take(i + 1).drop_last() =~= v.take(i as int));
            assert(v.take(i + 1).last() == params@[i as int]@);
        }
        let p = params[i].as_str().as_bytes();
        match find_bytes(b, p, 0) {
            Some(k) => {
                out.push(
                    (row, k as u32, name_len(&params[i]), TOKEN_PARAMETER, MODIFIER_DECLARATION | MODIFIER_READONLY),
                );
            },
            None => {},
        }
        i = i + 1;
    }
    assert(v.take(params.len() as int) =~= v);
    out
}

fn ref_token_list(rs: &Vec<Range>, def: Position, len: u32, tt: u32, mods: u32) -> (r: Vec<RawToken>)
    ensures
        r@ == ref_tokens(rs@, def, len, tt, mods),
{
    let mut out: Vec<RawToken> = Vec::new();
    let mut i: usize = 0;
    while i < rs.len()
        invariant
            i <= rs.len(),
            out@ == ref_tokens(rs@.take(i as int), def, len, tt, mods),
        decreases rs.len() - i,
    {
        proof {
            assert(rs@.take(i + 1).drop_last() =~= rs@.take(i as int));
        }
        let st = rs[i].start;
        if st.line != def.line || st.character != def.character {
            out.push((st.line, st.character, len, tt, mods));
        }
        i = i + 1;
    }
    assert(rs@.take(rs.len() as int) =~= rs@);
    out
}

fn name_place_of(rs: &Vec<Range>, def: Position) -> (r: Position)
    ensures
        r == name_place(rs@, def),
{
    let mut i: usize = 0;
    assert(rs@.skip(0) =~= rs@);
    while i < rs.len()
        invariant
            i <= rs.len(),
            name_place(rs@, def) == name_place(rs@.skip(i as int), def),
        decreases rs.len() - i,
    {
        assert(rs@.skip(i as int)[0] == rs@[i as int]);
        assert(rs@.skip(i as int).drop_first() =~= rs@.skip(i + 1));
        let st = rs[i].start;
        if st.line == def.line && st.character >= def.character {
            return st;
        }
        i = i + 1;
    }
    assert(rs@.skip(i as int) =~= Seq::<Range>::empty());
    def
}

fn append_tokens(out: &mut Vec<RawToken>, more: Vec<RawToken>)
    ensures
        final(out)@ == old(out)@ + more@,
{
    let mut more = more;
    out.append(&mut more);
}

fn function_token_list(lines: &Vec<String>, f: &UserFunction, out: &mut Vec<RawToken>)
    requires
        word_search_ok(string_views(lines@), f.name@),
    ensures
        final(out)@ == old(out)@ + function_tokens(string_views(lines@), *f),
{
    let ghost ls = string_views(lines@);
    let d = f.definition.range.start;
    let rs = find_word_positions(lines, f.name.as_str());
    let at = name_place_of(&rs, d);
    let len = name_len(&f.name);
    let ghost o0 = out@;
    out.push((at.line, at.character, len, TOKEN_FUNCTION, MODIFIER_DECLARATION));
    if (d.line as usize) < lines.len() {
        let ps = param_token_list(&lines[d.line as usize], d.line, &f.parameters);
        assert(lines@[d.line as int]@ == ls[d.line as int]);
        append_tokens(out, ps);
    }
    let refs = ref_token_list(&rs, at, len, TOKEN_FUNCTION, 0);
    append_tokens(out, refs);
    assert(out@ =~= o0 + function_tokens(ls, *f));
}

fn variable_token_list(lines: &Vec<String>, v: &UserVariable, out: &mut Vec<RawToken>)
    requires
        word_search_ok(string_views(lines@), v.name@),
    ensures
        final(out)@ == old(out)@ + variable_tokens(string_views(lines@), *v),
{
    let ghost ls = string_views(lines@);
    let tt = match v.kind {
        VariableKind::EnumMember => TOKEN_ENUM_MEMBER,
        _ => TOKEN_VARIABLE,
    };
    let readonly = match v.var_type {
        Some(t) => match t.mutability {
            Mutability::Immutable => true,
            Mutability::Mutable => false,
        },
        None => false,
    };
    let rm = if readonly {
        MODIFIER_READONLY
    } else {
        0
    };
    let rs = find_word_positions(lines, v.name.as_str());
    let at = name_place_of(&rs, v.definition.range.start);
    let len = name_len(&v.name);
    let ghost o0 = out@;
    out.push((at.line, at.character, len, tt, MODIFIER_DECLARATION | rm));
    let refs = ref_token_list(&rs, at, len, tt, rm);
    append_tokens(out, refs);
    assert(out@ =~= o0 + variable_tokens(ls, *v));
}

fn macro_token_list(lines: &Vec<String>, m: &UserMacro, out: &mut Vec<RawToken>)
    requires
        word_search_ok(string_views(lines@), m.name@),
    ensures
        final(out)@ == old(out)@ + macro_tokens(string_views(lines@), *m),
{
    let ghost ls = string_views(lines@);
    let rs = find_word_positions(lines, m.name.as_str());
    let at = name_place_of(&rs, m.definition.range.start);
    let len = name_len(&m.name);
    let ghost o0 = out@;
    out.push((at.line, at.character, len, TOKEN_MACRO, MODIFIER_DECLARATION));
    let refs = ref_token_list(&rs, at, len, TOKEN_MACRO, 0);
    append_tokens(out, refs);
    assert(out@ =~= o0 + macro_tokens(ls, *m));
}

fn tokens_can_search(lines: &Vec<String>, doc: &DocumentState, features: Features) -> (r: bool)
    ensures
        r == tokens_searchable(string_views(lines@), *doc, features),
{
    let ghost ls = string_views(lines@);
    let mut i: usize = 0;
    while i < doc.functions.len()
        invariant
            ls == string_views(lines@),
            i <= doc.functions.len(),
            forall|k: int| 0 <= k < i ==> word_search_ok(ls, #[trigger] doc.functions@[k].name@),
        decreases doc.functions.len() - i,
    {
        if !search_allowed(lines, doc.functions[i].name.as_str()) {
            assert(!word_search_ok(ls, doc.functions@[i as int].name@));
            return false;
        }
        i = i + 1;
    }
    let mut i: usize = 0;
    while i < doc.variables.len()
        invariant
            ls == string_views(lines@),
            i <= doc.variables.len(),
            forall|k: int| 0 <= k < i ==> word_search_ok(ls, #[trigger] doc.variables@[k].name@),
        decreases doc.variables.len() - i,
    {
        if !search_allowed(lines, doc.variables[i].name.as_str()) {
            assert(!word_search_ok(ls, doc.variables@[i as int].name@));
            return false;
        }
        i = i + 1;
    }
    if features.macros {
        let mut i: usize = 0;
        while i < doc.macros.len()
            invariant
                ls == string_views(lines@),
                features.macros,
                i <= doc.macros.len(),
                forall|k: int| 0 <= k < i ==> word_search_ok(ls, #[trigger] doc.macros@[k].name@),
            decreases doc.macros.len() - i,
        {
            if !search_allowed(lines, doc.macros[i].name.as_str()) {
                assert(!word_search_ok(ls, doc.macros@[i as int].name@));
                return false;
            }
            i = i + 1;
        }
    }
    true
}

fn raw_token_list(lines: &Vec<String>, doc: &DocumentState, features: Features) -> (r: Vec<RawToken>)
    requires
        string_views(lines@) == lines_spec(doc.text@),
        tokens_searchable(lines_spec(doc.text@), *doc, features),
    ensures
        r@ == raw_tokens(*doc, features),
{
    let ghost ls = string_views(lines@);
    let mut out: Vec<RawToken> = Vec::new();
    let mut i: usize = 0;
    while i < doc.functions.len()
        invariant
            ls == string_views(lines@),
            ls == lines_spec(doc.text@),
            tokens_searchable(ls, *doc, features),
            i <= doc.functions.len(),
            out@ == functions_tokens(ls, doc.functions@.take(i as int)),
        decreases doc.functions.len() - i,
    {
        assert(doc.functions@.take(i + 1).drop_last() =~= doc.functions@.take(i as int));
        assert(doc.functions@.take(i + 1).last() == doc.functions@[i as int]);
        function_token_list(lines, &doc.functions[i], &mut out);
        i = i + 1;
    }
    assert(doc.functions@.take(i as int) =~= doc.functions@);
    let ghost fpart = out@;
    let mut vout: Vec<RawToken> = Vec::new();
    let mut i: usize = 0;
    while i < doc.variables.len()
        invariant
            ls == string_views(lines@),
            tokens_searchable(ls, *doc, features),
            i <= doc.variables.len(),
            vout@ == variables_tokens(ls, doc.variables@.take(i as int)),
        decreases doc.variables.len() - i,
    {
        assert(doc.variables@.take(i + 1).drop_last() =~= doc.variables@.take(i as int));
        assert(doc.variables@.take(i + 1).last() == doc.variables@[i as int]);
        variable_token_list(lines, &doc.variables[i], &mut vout);
        i = i + 1;
    }
    assert(doc.variables@.take(i as int) =~= doc.variables@);
    append_tokens(&mut out, vout);
    let mut mout: Vec<RawToken> = Vec::new();
    if features.macros {
        let mut i: usize = 0;
        while i < doc.macros.len()
            invariant
                ls == string_views(lines@),
                tokens_searchable(ls, *doc, features),
                features.macros,
                i <= doc.macros.len(),
                mout@ == macros_tokens(ls, doc.macros@.take(i as int)),
            decreases doc.macros.len() - i,
        {
            assert(doc.macros@.take(i + 1).drop_last() =~= doc.macros@.take(i as int));
            assert(doc.macros@.take(i + 1).last() == doc.macros@[i as int]);
            macro_token_list(lines, &doc.macros[i], &mut mout);
            i = i + 1;
        }
        assert(doc.macros@.take(i as int) =~= doc.macros@);
    }
    append_tokens(&mut out, mout);
    out
}

fn sorted_token_list(ts: &Vec<RawToken>) -> (r: Vec<RawToken>)
    ensures
        r@ == sort_tokens(ts@),
{
    let mut keys: Vec<(u32, u32)> = Vec::new();
    let mut i: usize = 0;
    while i < ts.len()
        invariant
            i <= ts.len(),
            keys@ == token_keys(ts@).take(i as int),
        decreases ts.len() - i,
    {
        keys.push((ts[i].0, ts[i].1));
        assert(token_keys(ts@).take(i + 1) =~= token_keys(ts@).take(i as int).push(token_key(ts@[i as int])));
        i = i + 1;
    }
    assert(keys@ =~= token_keys(ts@));
    let order = stable_order(&keys);
    let ghost so = sorted_order(token_keys(ts@), ts@.len() as int);
    proof {
        lemma_sorted_order_len(token_keys(ts@), ts@.len() as int);
    }
    let mut out: Vec<RawToken> = Vec::new();
    let mut j: usize = 0;
    while j < order.len()
        invariant
            so == sorted_order(token_keys(ts@), ts@.len() as int),
            order@.map_values(|i: usize| i as int) == so,
            order@.len() == ts@.len(),
            forall|t: int| 0 <= t < order@.len() ==> #[trigger] order@[t] < ts@.len(),
            j <= order.len(),
            out@ == sort_tokens(ts@).take(j as int),
        decreases order.len() - j,
    {
        let k = order[j];
        assert(so[j as int] == k as int);
        out.push(ts[k]);
        assert(sort_tokens(ts@).take(j + 1) =~= sort_tokens(ts@).take(j as int).push(ts@[k as int]));
        j = j + 1;
    }
    assert(out@ =~= sort_tokens(ts@));
    out
}

/// The semantic tokens of a document: for each function its name, the
/// parameters found on its definition's line and its other occurrences,
/// then for each variable its name and other occurrences, then, where the
/// macros feature is on, for each macro its name and other occurrences; all
/// sorted by place and encoded relative to one another.
pub fn handle_semantic_tokens_full(doc: &DocumentState, features: Features) -> (r: Result<Vec<SemanticToken>, Fault>)
    ensures
        match r {
            Ok(v) => semantic_tokens_spec(*doc, features) == Ok::<Seq<SemanticToken>, Fault>(v@),
            Err(e) => semantic_tokens_spec(*doc, features) == Err::<Seq<SemanticToken>, Fault>(e),
        },
        r is Err <==> !tokens_searchable(lines_spec(doc.text@), *doc, features),
{
    let lines = text_lines(doc.text.as_str());
    if !tokens_can_search(&lines, doc, features) {
        return Err(Fault::BadSlice);
    }
    let raw = raw_token_list(&lines, doc, features);
    let sorted = sorted_token_list(&raw);
    proof {
        law_tokens_sorted(*doc, features);
        lemma_sort_tokens_in_order(raw@);
        lemma_in_order_encodes(sorted@, (0, 0));
    }
    let mut enc = Encoder { out: Vec::new(), prev_line: 0, prev_start: 0 };
    let r = enc.push_all(&sorted);
    match r {
        Ok(()) => {
            assert(Seq::<SemanticToken>::empty() + enc.out@ =~= enc.out@);
            Ok(enc.out)
        },
        Err(e) => Err(e),
    }
}

/// The absolute places of tokens encoded relative to one another, the one
/// before the first starting at `prev`: what an editor reads off them.
pub open spec fn decode_tokens(toks: Seq<SemanticToken>, prev: (u32, u32)) -> Seq<RawToken>
    decreases toks.len(),
{
    if toks.len() == 0 {
        seq![]
    } else {
        let t = toks[0];
        let line = prev.0 + t.delta_line;
        let start = if t.delta_line == 0 {
            prev.1 + t.delta_start
        } else {
            t.delta_start as int
        };
        seq![(line as u32, start as u32, t.length, t.token_type, t.token_modifiers)] + decode_tokens(
            toks.drop_first(),
            (line as u32, start as u32),
        )
    }
}

/// Decoding the encoded tokens gives back the tokens at their places: the
/// relative encoding loses nothing.
pub proof fn law_tokens_decode(ts: Seq<RawToken>, prev: (u32, u32))
    ensures
        encode_all(ts, prev) matches Ok((toks, p)) ==> decode_tokens(toks, prev) == ts,
    decreases ts.len(),
{
    if ts.len() > 0 {
        law_tokens_decode(ts.drop_first(), (ts[0].0, ts[0].1));
        match encode_all(ts, prev) {
            Ok((toks, p)) => {
                let t = ts[0];
                match encode_token(t, prev) {
                    Ok((tok, q)) => {
                        match encode_all(ts.drop_first(), q) {
                            Ok((rest, p2)) => {
                                assert(toks == seq![tok] + rest);
                                assert(toks[0] == tok);
                                assert(toks.drop_first() =~= rest);
                                assert(seq![t] + ts.drop_first() =~= ts);
                            },
                            Err(_) => {},
                        }
                    },
                    Err(_) => {},
                }
            },
            Err(_) => {},
        }
    } else {
        match encode_all(ts, prev) {
            Ok((toks, p)) => {
                assert(toks =~= Seq::<SemanticToken>::empty());
                assert(ts =~= Seq::<RawToken>::empty());
            },
            Err(_) => {},
        }
    }
}

} // verus!
