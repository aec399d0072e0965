//! Finding words in document text: the word under the cursor, whole-word
//! occurrences of a name in each line, and naming-convention tests.
//!
//! Occurrences are found in the UTF-8 bytes of a line and reported at their
//! byte offsets, while the neighbours that decide a word boundary are taken
//! by character index at those offsets; on ASCII text the two agree.
use vstd::prelude::*;
use vstd::utf8::encode_utf8;
use crate::types::{Position, Range};
use crate::text::{string_of, chars_of};

verus! {

/// What `char::is_alphanumeric` answers for `c` (Unicode `Alphabetic` or
/// `Numeric`).
pub uninterp spec fn unicode_alphanumeric(c: char) -> bool;

/// What `char::is_uppercase` answers for `c` (Unicode `Uppercase`).
pub uninterp spec fn unicode_uppercase(c: char) -> bool;

/// What `char::is_numeric` answers for `c` (Unicode general categories
/// `Nd`, `Nl` and `No`).
pub uninterp spec fn unicode_numeric(c: char) -> bool;

/// `char::is_alphanumeric`; its answer is named, not stated.
#[verifier::external_body]
pub(crate) fn char_is_alphanumeric(c: char) -> (r: bool)
    ensures
        r == unicode_alphanumeric(c),
{
    c.is_alphanumeric()
}

/// `char::is_uppercase`; its answer is named, not stated.
#[verifier::external_body]
pub(crate) fn char_is_uppercase(c: char) -> (r: bool)
    ensures
        r == unicode_uppercase(c),
{
    c.is_uppercase()
}

/// `char::is_numeric`; its answer is named, not stated.
#[verifier::external_body]
pub(crate) fn char_is_numeric(c: char) -> (r: bool)
    ensures
        r == unicode_numeric(c),
{
    c.is_numeric()
}

/// Characters that may stand in a word: alphanumeric ones and `_`.
pub open spec fn is_word_char(c: char) -> bool {
    unicode_alphanumeric(c) || c == '_'
}

fn word_char(c: char) -> (r: bool)
    ensures
        r == is_word_char(c),
{
    c == '_' || char_is_alphanumeric(c)
}

// ---------------------------------------------------------------------------
// The word at a position
// ---------------------------------------------------------------------------

/// The longest run of word characters at the end of `s`.
pub open spec fn trailing_word(s: Seq<char>) -> Seq<char>
    decreases s.len(),
{
    if s.len() > 0 && is_word_char(s.last()) {
        trailing_word(s.drop_last()).push(s.last())
    } else {
        seq![]
    }
}

/// The longest run of word characters at the start of `s`.
pub open spec fn leading_word(s: Seq<char>) -> Seq<char>
    decreases s.len(),
{
    if s.len() > 0 && is_word_char(s[0]) {
        seq![s[0]] + leading_word(s.drop_first())
    } else {
        seq![]
    }
}

/// `min(a, b)`.
pub open spec fn min_int(a: int, b: int) -> int {
    if a <= b {
        a
    } else {
        b
    }
}

/// The word that the character position `pos` of `line` stands in or just
/// after: the word characters before it and those from it on.
pub open spec fn word_at(line: Seq<char>, pos: int) -> Seq<char> {
    let p = min_int(pos, line.len() as int);
    trailing_word(line.take(p)) + leading_word(line.skip(p))
}

/// Whether the character just before the word that ends `before`, if there
/// is one, is ASCII: the text can then be cut right after it.
pub open spec fn word_start_cuttable(before: Seq<char>) -> bool {
    let w = trailing_word(before);
    w.len() == before.len() || (before[before.len() - w.len() - 1] as u32) < 0x80
}

proof fn lemma_trailing_word_at(s: Seq<char>, start: int)
    requires
        0 <= start <= s.len(),
        forall|j: int| start <= j < s.len() ==> is_word_char(#[trigger] s[j]),
        start == 0 || !is_word_char(s[start - 1]),
    ensures
        trailing_word(s) == s.subrange(start, s.len() as int),
    decreases s.len() - start,
{
    if start < s.len() {
        let t = s.drop_last();
        assert forall|j: int| start <= j < t.len() implies is_word_char(#[trigger] t[j]) by {
            assert(t[j] == s[j]);
        }
        lemma_trailing_word_at(t, start);
        assert(t.subrange(start, t.len() as int).push(s.last()) == s.subrange(
            start,
            s.len() as int,
        ));
    }
}

proof fn lemma_leading_word_at(s: Seq<char>, end: int)
    requires
        0 <= end <= s.len(),
        forall|j: int| 0 <= j < end ==> is_word_char(#[trigger] s[j]),
        end == s.len() || !is_word_char(s[end]),
    ensures
        leading_word(s) == s.take(end),
    decreases end,
{
    if end > 0 {
        let t = s.drop_first();
        assert forall|j: int| 0 <= j < end - 1 implies is_word_char(#[trigger] t[j]) by {
            assert(t[j] == s[j + 1]);
        }
        lemma_leading_word_at(t, end - 1);
        assert(seq![s[0]] + t.take(end - 1) == s.take(end));
    }
}

/// The word at character position `char_pos` of `line`: the word characters
/// just before it and from it on.
pub fn extract_word_at_position(line: &str, char_pos: usize) -> (r: String)
    requires
        word_start_cuttable(line@.take(min_int(char_pos as int, line@.len() as int))),
    ensures
        r@ == word_at(line@, char_pos as int),
{
    let chars = chars_of(line);
    let len = chars.len();
    let p = if char_pos <= len {
        char_pos
    } else {
        len
    };
    let mut start = p;
    while start > 0 && word_char(chars[start - 1])
        invariant
            start <= p <= len == chars@.len(),
            forall|j: int| start <= j < p ==> is_word_char(#[trigger] chars@[j]),
        decreases start,
    {
        start = start - 1;
    }
    let mut end = p;
    while end < len && word_char(chars[end])
        invariant
            p <= end <= len == chars@.len(),
            forall|j: int| p <= j < end ==> is_word_char(#[trigger] chars@[j]),
        decreases len - end,
    {
        end = end + 1;
    }
    proof {
        let before = chars@.take(p as int);
        let after = chars@.skip(p as int);
        assert forall|j: int| start <= j < before.len() implies is_word_char(#[trigger] before[j]) by {
            assert(before[j] == chars@[j]);
        }
        lemma_trailing_word_at(before, start as int);
        assert forall|j: int| 0 <= j < end - p implies is_word_char(#[trigger] after[j]) by {
            assert(after[j] == chars@[p + j]);
        }
        lemma_leading_word_at(after, end - p);
        assert(before.subrange(start as int, p as int) + after.take(end - p) =~= chars@.subrange(
            start as int,
            end as int,
        ));
    }
    let mut word: Vec<char> = Vec::new();
    let mut i = start;
    while i < end
        invariant
            start <= i <= end <= len == chars@.len(),
            word@ == chars@.subrange(start as int, i as int),
        decreases end - i,
    {
        word.push(chars[i]);
        i = i + 1;
        assert(word@ =~= chars@.subrange(start as int, i as int));
    }
    string_of(&word)
}

/// The word characters at the end of `before`.
pub fn trailing_word_of(before: &Vec<char>) -> (r: Vec<char>)
    ensures
        r@ == trailing_word(before@),
{
    let len = before.len();
    let mut start = len;
    while start > 0 && word_char(before[start - 1])
        invariant
            start <= len == before@.len(),
            forall|j: int| start <= j < len ==> is_word_char(#[trigger] before@[j]),
        decreases start,
    {
        start = start - 1;
    }
    proof {
        lemma_trailing_word_at(before@, start as int);
    }
    crate::text::slice_chars(before, start, len)
}

/// Whether the text can be cut just before the word that ends `before`.
pub fn word_start_is_cuttable(before: &Vec<char>) -> (r: bool)
    ensures
        r == word_start_cuttable(before@),
{
    let w = trailing_word_of(before);
    if w.len() == before.len() {
        return true;
    }
    proof {
        lemma_trailing_word_len(before@);
    }
    let c = before[before.len() - w.len() - 1];
    (c as u32) < 0x80
}

proof fn lemma_trailing_word_len(s: Seq<char>)
    ensures
        trailing_word(s).len() <= s.len(),
    decreases s.len(),
{
    if s.len() > 0 && is_word_char(s.last()) {
        lemma_trailing_word_len(s.drop_last());
    }
}

// ---------------------------------------------------------------------------
// Word boundaries and whole-word occurrences
// ---------------------------------------------------------------------------

/// The character at index `k` of `s`, if any.
pub open spec fn char_at(s: Seq<char>, k: int) -> Option<char> {
    if 0 <= k < s.len() {
        Some(s[k])
    } else {
        None
    }
}

/// Whether the text `line[start..end]` (byte offsets) is a whole word: the
/// character whose index is `start - 1`, and the one whose index is `end`
/// unless `end` reaches the line's byte length, are no word characters.
pub open spec fn is_boundary_spec(line: Seq<char>, start: int, end: int) -> bool {
    let is_start = start == 0 || !(char_at(line, start - 1) matches Some(c) && is_word_char(c));
    let is_end = end >= encode_utf8(line).len() || !(char_at(line, end) matches Some(c)
        && is_word_char(c));
    is_start && is_end
}

/// Whether `line[start..end]` (byte offsets) stands between word
/// boundaries.
pub fn is_word_boundary(line: &str, start: usize, end: usize) -> (r: bool)
    ensures
        r == is_boundary_spec(line@, start as int, end as int),
{
    let chars = chars_of(line);
    let is_start = start == 0 || !(start - 1 < chars.len() && word_char(chars[start - 1]));
    let blen = line.as_bytes().len();
    assert(blen == encode_utf8(line@).len());
    let is_end = end >= blen || !(end < chars.len() && word_char(chars[end]));
    assert(is_start == (start == 0 || !(char_at(line@, start - 1) matches Some(c) && is_word_char(c))));
    assert(is_end == (end >= encode_utf8(line@).len() || !(char_at(line@, end as int) matches Some(c) && is_word_char(c))));
    is_start && is_end
}

/// Whether `p` occurs in `b` at byte offset `k`.
pub open spec fn occurs_at(b: Seq<u8>, p: Seq<u8>, k: int) -> bool {
    0 <= k && k + p.len() <= b.len() && b.subrange(k, k + p.len()) == p
}

/// The first offset from `from` on at which `p` occurs in `b`.
pub open spec fn find_from(b: Seq<u8>, p: Seq<u8>, from: int) -> Option<int>
    decreases b.len() + 1 - from,
{
    if from < 0 || from + p.len() > b.len() {
        None
    } else if occurs_at(b, p, from) {
        Some(from)
    } else {
        find_from(b, p, from + 1)
    }
}

/// The range of `len` characters at byte offset `k` of line `line_idx`.
pub open spec fn word_range(line_idx: int, k: int, len: int) -> Range {
    Range {
        start: Position { line: line_idx as u32, character: k as u32 },
        end: Position { line: line_idx as u32, character: (k + len) as u32 },
    }
}

/// The whole-word occurrences of `word` in `line` (line number `line_idx`)
/// at or after byte offset `from`, as ranges of byte offsets.
pub open spec fn line_occurrences(line: Seq<char>, word: Seq<char>, line_idx: int, from: int) -> Seq<
    Range,
>
    decreases encode_utf8(line).len() - from,
{
    let b = encode_utf8(line);
    let p = encode_utf8(word);
    if p.len() == 0 || from < 0 {
        seq![]
    } else {
        match find_from(b, p, from) {
            None => seq![],
            Some(k) => if from <= k && k + p.len() <= b.len() {
                (if is_boundary_spec(line, k, k + p.len()) {
                    seq![word_range(line_idx, k, p.len() as int)]
                } else {
                    seq![]
                }) + line_occurrences(line, word, line_idx, k + 1)
            } else {
                seq![]
            },
        }
    }
}

/// The whole-word occurrences of `word` in `lines[i..]`, line by line.
pub open spec fn occurrences_from(lines: Seq<Seq<char>>, word: Seq<char>, i: int) -> Seq<Range>
    decreases lines.len() - i,
{
    if i < 0 || i >= lines.len() {
        seq![]
    } else {
        line_occurrences(lines[i], word, i, 0) + occurrences_from(lines, word, i + 1)
    }
}

/// The whole-word occurrences of `word` in `lines`.
pub open spec fn word_positions(lines: Seq<Seq<char>>, word: Seq<char>) -> Seq<Range> {
    occurrences_from(lines, word, 0)
}

/// Whether searching `lines` for `word` goes through: where there is a line
/// to scan, the word is not empty, and it starts with an ASCII character
/// unless it occurs nowhere (the search resumes one byte after each
/// occurrence, which must be a character boundary).
pub open spec fn word_search_ok(lines: Seq<Seq<char>>, word: Seq<char>) -> bool {
    lines.len() == 0 || {
        &&& word.len() > 0
        &&& ((word[0] as u32) < 0x80 || forall|i: int|
            0 <= i < lines.len() ==> find_from(encode_utf8(#[trigger] lines[i]), encode_utf8(word), 0)
                is None)
    }
}

pub(crate) proof fn lemma_find_from_bounds(b: Seq<u8>, p: Seq<u8>, from: int)
    ensures
        find_from(b, p, from) matches Some(k) ==> from <= k && occurs_at(b, p, k),
    decreases b.len() + 1 - from,
{
    if !(from < 0 || from + p.len() > b.len()) && !occurs_at(b, p, from) {
        lemma_find_from_bounds(b, p, from + 1);
    }
}

proof fn lemma_find_from_none_mono(b: Seq<u8>, p: Seq<u8>, from: int, later: int)
    requires
        0 <= from <= later,
        find_from(b, p, from) is None,
    ensures
        find_from(b, p, later) is None,
    decreases later - from,
{
    if from < later {
        if from + p.len() <= b.len() {
            lemma_find_from_none_mono(b, p, from + 1, later);
        } else {
            lemma_find_from_past_end(b, p, later);
        }
    }
}

proof fn lemma_find_from_past_end(b: Seq<u8>, p: Seq<u8>, from: int)
    requires
        from + p.len() > b.len(),
    ensures
        find_from(b, p, from) is None,
{
}

/// Whether `p` occurs in `b` at offset `k`.
fn bytes_occur_at(b: &[u8], p: &[u8], k: usize) -> (r: bool)
    requires
        k + p@.len() <= b@.len(),
    ensures
        r == occurs_at(b@, p@, k as int),
{
    let blen = b.len();
    let mut j: usize = 0;
    while j < p.len()
        invariant
            k + p@.len() <= b@.len(),
            blen == b@.len(),
            j <= p@.len(),
            forall|t: int| 0 <= t < j ==> b@[k + t] == p@[t],
        decreases p.len() - j,
    {
        if b[k + j] != p[j] {
            assert(b@.subrange(k as int, k + p@.len())[j as int] != p@[j as int]);
            return false;
        }
        j = j + 1;
    }
    assert(b@.subrange(k as int, k + p@.len()) =~= p@);
    true
}

/// The first offset from `from` on at which `p` occurs in `b`.
pub(crate) fn find_bytes(b: &[u8], p: &[u8], from: usize) -> (r: Option<usize>)
    ensures
        r matches Some(k) ==> find_from(b@, p@, from as int) == Some(k as int),
        r is None ==> find_from(b@, p@, from as int) is None,
{
    if p.len() > b.len() {
        return None;
    }
    let limit = b.len() - p.len();
    if from > limit {
        return None;
    }
    let mut k = from;
    loop
        invariant
            p@.len() <= b@.len(),
            limit == b@.len() - p@.len(),
            from <= k <= limit,
            find_from(b@, p@, k as int) == find_from(b@, p@, from as int),
        decreases limit - k,
    {
        if bytes_occur_at(b, p, k) {
            return Some(k);
        }
        if k == limit {
            return None;
        }
        k = k + 1;
    }
}

/// The whole-word occurrences of `word` in one line.
fn line_word_positions(line: &str, word: &str, line_idx: usize, out: &mut Vec<Range>)
    requires
        word@.len() > 0,
        (word@[0] as u32) < 0x80 || find_from(encode_utf8(line@), encode_utf8(word@), 0) is None,
    ensures
        final(out)@ == old(out)@ + line_occurrences(line@, word@, line_idx as int, 0),
{
    let b = line.as_bytes();
    let p = word.as_bytes();
    let ghost base = out@;
    proof {
        lemma_encode_nonempty(word@);
        lemma_ascii_first_byte(word@);
    }
    let mut start: usize = 0;
    while start <= b.len()
        invariant
            b@ == encode_utf8(line@),
            p@ == encode_utf8(word@),
            p@.len() > 0,
            base == old(out)@,
            p@[0] < 0x80 || find_from(b@, p@, start as int) is None,
            base + line_occurrences(line@, word@, line_idx as int, 0) == out@
                + line_occurrences(line@, word@, line_idx as int, start as int),
        decreases b.len() + 1 - start,
    {
        proof {
            lemma_find_from_bounds(b@, p@, start as int);
        }
        match find_bytes(b, p, start) {
            None => {
                assert(line_occurrences(line@, word@, line_idx as int, start as int) =~= seq![]);
                assert(out@ + line_occurrences(line@, word@, line_idx as int, start as int) =~= out@);
                return ;
            },
            Some(k) => {
                let end = k + p.len();
                if is_word_boundary(line, k, end) {
                    out.push(
                        Range {
                            start: Position { line: line_idx as u32, character: k as u32 },
                            end: Position { line: line_idx as u32, character: end as u32 },
                        },
                    );
                }
                assert(out@ + line_occurrences(line@, word@, line_idx as int, k + 1) =~= base
                    + line_occurrences(line@, word@, line_idx as int, 0));
                start = k + 1;
            },
        }
    }
    assert(line_occurrences(line@, word@, line_idx as int, start as int) =~= seq![]);
    assert(out@ + line_occurrences(line@, word@, line_idx as int, start as int) =~= out@);
}

proof fn lemma_encode_nonempty(s: Seq<char>)
    requires
        s.len() > 0,
    ensures
        encode_utf8(s).len() > 0,
        encode_utf8(s) == vstd::utf8::encode_scalar(s[0] as u32) + encode_utf8(s.drop_first()),
{
}

proof fn lemma_ascii_first_byte(s: Seq<char>)
    requires
        s.len() > 0,
    ensures
        (s[0] as u32) < 0x80 ==> encode_utf8(s)[0] < 0x80,
        encode_utf8(s).len() > 0,
{
    lemma_encode_nonempty(s);
    let u = s[0] as u32;
    if u < 0x80 {
        assert((u & 0x7F) == u) by (bit_vector)
            requires
                u < 0x80,
        ;
        assert(encode_utf8(s)[0] == (u & 0x7F) as u8);
    }
}

/// The whole-word occurrences of `word` in `lines`, in order, as ranges of
/// line numbers and byte offsets.
pub fn find_word_positions(lines: &Vec<String>, word: &str) -> (r: Vec<Range>)
    requires
        word_search_ok(lines@.map_values(|l: String| l@), word@),
    ensures
        r@ == word_positions(lines@.map_values(|l: String| l@), word@),
{
    let ghost ls = lines@.map_values(|l: String| l@);
    let mut out: Vec<Range> = Vec::new();
    let mut i: usize = 0;
    while i < lines.len()
        invariant
            ls == lines@.map_values(|l: String| l@),
            ls.len() == lines.len(),
            i <= lines.len(),
            word_search_ok(ls, word@),
            word_positions(ls, word@) == out@ + occurrences_from(ls, word@, i as int),
        decreases lines.len() - i,
    {
        let line = lines[i].as_str();
        assert(ls[i as int] == line@);
        let ghost before = out@;
        line_word_positions(line, word, i, &mut out);
        assert(out@ + occurrences_from(ls, word@, i + 1) =~= before + occurrences_from(
            ls,
            word@,
            i as int,
        ));
        i = i + 1;
    }
    assert(out@ =~= out@ + occurrences_from(ls, word@, i as int));
    out
}

/// Whether the whole-word search of `word` in `lines` goes through (see
/// [`word_search_ok`]).
pub fn search_allowed(lines: &Vec<String>, word: &str) -> (r: bool)
    ensures
        r == word_search_ok(lines@.map_values(|l: String| l@), word@),
{
    let ghost ls = lines@.map_values(|l: String| l@);
    if lines.len() == 0 {
        return true;
    }
    let p = word.as_bytes();
    if p.len() == 0 {
        assert(word@.len() == 0) by {
            if word@.len() > 0 {
                lemma_encode_nonempty(word@);
            }
        }
        return false;
    }
    proof {
        if word@.len() == 0 {
            assert(encode_utf8(word@) =~= Seq::<u8>::empty());
        }
    }
    let chars = chars_of(word);
    if (chars[0] as u32) < 0x80 {
        return true;
    }
    let mut i: usize = 0;
    while i < lines.len()
        invariant
            ls == lines@.map_values(|l: String| l@),
            i <= lines.len(),
            p@ == encode_utf8(word@),
            chars@ == word@,
            word@.len() > 0,
            !((word@[0] as u32) < 0x80),
            forall|j: int| 0 <= j < i ==> find_from(encode_utf8(#[trigger] ls[j]), encode_utf8(word@), 0) is None,
        decreases lines.len() - i,
    {
        let b = lines[i].as_str().as_bytes();
        assert(ls[i as int] == lines@[i as int]@);
        assert(b@ == encode_utf8(ls[i as int]));
        let found = find_bytes(b, p, 0);
        if found.is_some() {
            assert(find_from(encode_utf8(ls[i as int]), encode_utf8(word@), 0) is Some);
            assert(chars@[0] == word@[0]);
            return false;
        }
        i = i + 1;
    }
    true
}

/// How a search for the first whole-word occurrence of a word ends: at a
/// whole-word occurrence, at the end of the text, or stuck at an offset
/// where the search cannot resume (not a character boundary, or past the
/// end).
#[derive(Clone, Copy, Debug, PartialEq, Eq, Structural)]
pub enum ScanEnd {
    Hit,
    Clear,
    Stuck,
}

/// Whether a search can resume at byte offset `s` of `b`: the end of the
/// text, or a character boundary inside it.
pub open spec fn resumes_at(b: Seq<u8>, s: int) -> bool {
    s == b.len() || (0 <= s < b.len() && (b[s] & 0xC0u8) != 0x80u8)
}

/// The search of `line` from byte offset `from` for a whole-word occurrence
/// of `word`: each occurrence that is no whole word resumes the search one
/// byte after its start.
pub open spec fn scan_line(line: Seq<char>, word: Seq<char>, from: int) -> ScanEnd
    decreases encode_utf8(line).len() + 1 - from,
{
    let b = encode_utf8(line);
    let p = encode_utf8(word);
    if from < 0 {
        ScanEnd::Clear
    } else {
        match find_from(b, p, from) {
            None => ScanEnd::Clear,
            Some(k) => if k < from || k + p.len() > b.len() {
                ScanEnd::Clear
            } else if is_boundary_spec(line, k, k + p.len()) {
                ScanEnd::Hit
            } else if resumes_at(b, k + 1) {
                scan_line(line, word, k + 1)
            } else {
                ScanEnd::Stuck
            },
        }
    }
}

/// The search of `lines[i..]`, line by line, for a whole-word occurrence of
/// `word`; it ends at the first one.
pub open spec fn scan_lines(lines: Seq<Seq<char>>, word: Seq<char>, i: int) -> ScanEnd
    decreases lines.len() - i,
{
    if i < 0 || i >= lines.len() {
        ScanEnd::Clear
    } else {
        match scan_line(lines[i], word, 0) {
            ScanEnd::Clear => scan_lines(lines, word, i + 1),
            other => other,
        }
    }
}

fn scan_line_exec(line: &str, word: &str) -> (r: ScanEnd)
    ensures
        r == scan_line(line@, word@, 0),
{
    let b = line.as_bytes();
    let p = word.as_bytes();
    let mut start: usize = 0;
    loop
        invariant
            b@ == encode_utf8(line@),
            p@ == encode_utf8(word@),
            start <= b@.len(),
            scan_line(line@, word@, 0) == scan_line(line@, word@, start as int),
        decreases b@.len() + 1 - start,
    {
        proof {
            lemma_find_from_bounds(b@, p@, start as int);
        }
        match find_bytes(b, p, start) {
            None => {
                return ScanEnd::Clear;
            },
            Some(k) => {
                assert(occurs_at(b@, p@, k as int));
                assert(k + p@.len() <= b@.len());
                assert(b@.len() == b.len());
                let end = k + p.len();
                if is_word_boundary(line, k, end) {
                    return ScanEnd::Hit;
                }
                if k >= b.len() {
                    return ScanEnd::Stuck;
                }
                let s = k + 1;
                if s == b.len() || (s < b.len() && (b[s] & 0xC0u8) != 0x80u8) {
                    start = s;
                } else {
                    return ScanEnd::Stuck;
                }
            },
        }
    }
}

/// The search of `lines` for the first whole-word occurrence of `word`.
pub fn scan_for_word(lines: &Vec<String>, word: &str) -> (r: ScanEnd)
    ensures
        r == scan_lines(lines@.map_values(|l: String| l@), word@, 0),
{
    let ghost ls = lines@.map_values(|l: String| l@);
    let mut i: usize = 0;
    while i < lines.len()
        invariant
            ls == lines@.map_values(|l: String| l@),
            i <= lines.len(),
            scan_lines(ls, word@, 0) == scan_lines(ls, word@, i as int),
        decreases lines.len() - i,
    {
        assert(ls[i as int] == lines@[i as int]@);
        match scan_line_exec(lines[i].as_str(), word) {
            ScanEnd::Clear => {},
            other => {
                return other;
            },
        }
        i = i + 1;
    }
    ScanEnd::Clear
}

/// Whether `pos` lies in `range` (the end excluded).
pub open spec fn in_range_spec(pos: Position, range: Range) -> bool {
    &&& range.start.line <= pos.line <= range.end.line
    &&& !(pos.line == range.start.line && pos.character < range.start.character)
    &&& !(pos.line == range.end.line && pos.character >= range.end.character)
}

/// Whether `pos` lies in `range` (the end excluded).
pub fn is_position_in_range(pos: Position, range: &Range) -> (r: bool)
    ensures
        r == in_range_spec(pos, *range),
{
    if pos.line < range.start.line || pos.line > range.end.line {
        return false;
    }
    if pos.line == range.start.line && pos.character < range.start.character {
        return false;
    }
    if pos.line == range.end.line && pos.character >= range.end.character {
        return false;
    }
    true
}

// ---------------------------------------------------------------------------
// Naming conventions
// ---------------------------------------------------------------------------

/// Whether `name` is written in UPPER_SNAKE_CASE: not empty, only uppercase
/// letters, digits and `_`, no `__`, and no `_` at either end.
pub open spec fn is_upper_snake_spec(name: Seq<char>) -> bool {
    &&& name.len() > 0
    &&& forall|i: int|
        0 <= i < name.len() ==> (unicode_uppercase(#[trigger] name[i]) || unicode_numeric(name[i])
            || name[i] == '_')
    &&& forall|i: int| 0 < i < name.len() && #[trigger] name[i] == '_' ==> name[i - 1] != '_'
    &&& name[0] != '_'
    &&& name.last() != '_'
}

/// Whether `name` is written in UPPER_SNAKE_CASE.
pub fn is_upper_snake_case(name: &str) -> (r: bool)
    ensures
        r == is_upper_snake_spec(name@),
{
    let chars = chars_of(name);
    let n = chars.len();
    if n == 0 {
        return false;
    }
    let mut i: usize = 0;
    while i < n
        invariant
            n == chars@.len(),
            chars@ == name@,
            i <= n,
            forall|j: int|
                0 <= j < i ==> (unicode_uppercase(#[trigger] chars@[j]) || unicode_numeric(
                    chars@[j],
                ) || chars@[j] == '_'),
            forall|j: int| 0 < j < i && #[trigger] chars@[j] == '_' ==> chars@[j - 1] != '_',
        decreases n - i,
    {
        let ch = chars[i];
        if !char_is_uppercase(ch) && !char_is_numeric(ch) && ch != '_' {
            return false;
        }
        if ch == '_' && i > 0 && chars[i - 1] == '_' {
            return false;
        }
        i = i + 1;
    }
    chars[0] != '_' && chars[n - 1] != '_'
}

/// The prefixes that mark a name as a constant.
pub open spec fn has_constant_prefix(name: Seq<char>) -> bool {
    ||| (name.len() >= 3 && name.take(3) == seq!['M', 'A', 'X'])
    ||| (name.len() >= 3 && name.take(3) == seq!['M', 'I', 'N'])
    ||| (name.len() >= 7 && name.take(7) == seq!['D', 'E', 'F', 'A', 'U', 'L', 'T'])
    ||| (name.len() >= 5 && name.take(5) == seq!['C', 'O', 'N', 'S', 'T'])
}

/// Whether `name` looks like a constant: it holds an uppercase letter or
/// starts with `MAX`, `MIN`, `DEFAULT` or `CONST`.
pub open spec fn might_be_constant_spec(name: Seq<char>) -> bool {
    (exists|i: int| 0 <= i < name.len() && unicode_uppercase(#[trigger] name[i]))
        || has_constant_prefix(name)
}

fn starts_with_chars(v: &Vec<char>, p: &[char]) -> (r: bool)
    ensures
        r == (p@.len() <= v@.len() && v@.take(p@.len() as int) == p@),
{
    if p.len() > v.len() {
        return false;
    }
    let mut j: usize = 0;
    while j < p.len()
        invariant
            p@.len() <= v@.len(),
            j <= p@.len(),
            forall|t: int| 0 <= t < j ==> v@[t] == p@[t],
        decreases p.len() - j,
    {
        if v[j] != p[j] {
            assert(v@.take(p@.len() as int)[j as int] != p@[j as int]);
            return false;
        }
        j = j + 1;
    }
    assert(v@.take(p@.len() as int) =~= p@);
    true
}

/// Whether `name` looks like a constant.
pub fn might_be_constant(name: &str) -> (r: bool)
    ensures
        r == might_be_constant_spec(name@),
{
    let chars = chars_of(name);
    let mut has_upper = false;
    let mut i: usize = 0;
    while i < chars.len()
        invariant
            chars@ == name@,
            i <= chars@.len(),
            has_upper == exists|j: int| 0 <= j < i && unicode_uppercase(#[trigger] chars@[j]),
        decreases chars.len() - i,
    {
        if char_is_uppercase(chars[i]) {
            has_upper = true;
        }
        i = i + 1;
    }
    let p_max = ['M', 'A', 'X'];
    let p_min = ['M', 'I', 'N'];
    let p_default = ['D', 'E', 'F', 'A', 'U', 'L', 'T'];
    let p_const = ['C', 'O', 'N', 'S', 'T'];
    assert(p_max@ == seq!['M', 'A', 'X']);
    assert(p_min@ == seq!['M', 'I', 'N']);
    assert(p_default@ == seq!['D', 'E', 'F', 'A', 'U', 'L', 'T']);
    assert(p_const@ == seq!['C', 'O', 'N', 'S', 'T']);
    has_upper || starts_with_chars(&chars, p_max.as_slice()) || starts_with_chars(
        &chars,
        p_min.as_slice(),
    ) || starts_with_chars(&chars, p_default.as_slice()) || starts_with_chars(
        &chars,
        p_const.as_slice(),
    )
}

} // verus!
