//! Basic GPC source formatter, inspired loosely by clang-format style.
//!
//! Rules applied:
//!   - 4-space indentation per `{}` depth level
//!   - At most one consecutive blank line between items
//!   - Space after `,`
//!   - Space before `{`
//!   - Space between control keywords (`if`/`while`/`for`/`switch`/`return`) and `(`
//!   - Collapse multiple spaces into one
//!   - Strip trailing whitespace
//!
//! The code part of a line is rewritten character by character; string
//! literals and line comments are copied unchanged.
use vstd::prelude::*;
use crate::text::{
    chars_of, index_of, is_ws, lemma_index_of_bounds, lines_of, lines_spec, slice_chars, string_of,
    strip_cr, trim_chars, trim_end_chars, trim_end_spec, trim_spec, trim_start_spec, views,
    lemma_trim_start_at,
};

verus! {

// ---------------------------------------------------------------------------
// Scanning a line for string literals and line comments
// ---------------------------------------------------------------------------

/// The index at which the first line comment (`//`) outside a string literal
/// starts in `s`, scanning from `i` with `in_str` telling whether `i` lies
/// inside a string literal; `s.len()` where there is none. A backslash inside
/// a string literal escapes the character after it.
pub open spec fn comment_index(s: Seq<char>, i: int, in_str: bool) -> int
    decreases s.len() - i,
{
    if i < 0 || i >= s.len() {
        s.len() as int
    } else if s[i] == '\\' && in_str {
        if i + 1 < s.len() {
            comment_index(s, i + 2, in_str)
        } else {
            s.len() as int
        }
    } else if s[i] == '"' {
        comment_index(s, i + 1, !in_str)
    } else if !in_str && s[i] == '/' && i + 1 < s.len() && s[i + 1] == '/' {
        i
    } else {
        comment_index(s, i + 1, in_str)
    }
}

/// The numbers of `{` and of `}` in `s` from `i` on that stand outside string
/// literals and before the first line comment.
pub open spec fn brace_count(s: Seq<char>, i: int, in_str: bool) -> (int, int)
    decreases s.len() - i,
{
    if i < 0 || i >= s.len() {
        (0, 0)
    } else if s[i] == '\\' && in_str {
        if i + 1 < s.len() {
            brace_count(s, i + 2, in_str)
        } else {
            (0, 0)
        }
    } else if s[i] == '"' {
        brace_count(s, i + 1, !in_str)
    } else if !in_str && s[i] == '/' && i + 1 < s.len() && s[i + 1] == '/' {
        (0, 0)
    } else if !in_str && s[i] == '{' {
        let r = brace_count(s, i + 1, in_str);
        (r.0 + 1, r.1)
    } else if !in_str && s[i] == '}' {
        let r = brace_count(s, i + 1, in_str);
        (r.0, r.1 + 1)
    } else {
        brace_count(s, i + 1, in_str)
    }
}

proof fn lemma_brace_count_bounds(s: Seq<char>, i: int, in_str: bool)
    requires
        0 <= i,
    ensures
        0 <= brace_count(s, i, in_str).0,
        0 <= brace_count(s, i, in_str).1,
        brace_count(s, i, in_str).0 + brace_count(s, i, in_str).1 <= if i <= s.len() {
            s.len() - i
        } else {
            0
        },
    decreases s.len() - i,
{
    if i < s.len() {
        if s[i] == '\\' && in_str {
            if i + 1 < s.len() {
                lemma_brace_count_bounds(s, i + 2, in_str);
            }
        } else if s[i] == '"' {
            lemma_brace_count_bounds(s, i + 1, !in_str);
        } else if !in_str && s[i] == '/' && i + 1 < s.len() && s[i + 1] == '/' {
        } else {
            lemma_brace_count_bounds(s, i + 1, in_str);
        }
    }
}

/// Count `{` and `}` outside string literals and line comments.
fn count_braces(line: &Vec<char>) -> (r: (usize, usize))
    ensures
        r.0 as int == brace_count(line@, 0, false).0,
        r.1 as int == brace_count(line@, 0, false).1,
        r.0 + r.1 <= line.len(),
{
    let len = line.len();
    let mut opens: usize = 0;
    let mut closes: usize = 0;
    let mut i: usize = 0;
    let mut in_str = false;
    proof {
        lemma_brace_count_bounds(line@, 0, false);
    }
    while i < len
        invariant
            len == line.len(),
            0 <= i,
            opens + brace_count(line@, i as int, in_str).0 == brace_count(line@, 0, false).0,
            closes + brace_count(line@, i as int, in_str).1 == brace_count(line@, 0, false).1,
            brace_count(line@, 0, false).0 + brace_count(line@, 0, false).1 <= len,
            0 <= brace_count(line@, i as int, in_str).0,
            0 <= brace_count(line@, i as int, in_str).1,
        decreases len - i,
    {
        proof {
            lemma_brace_count_bounds(line@, i + 1, in_str);
            lemma_brace_count_bounds(line@, i + 1, !in_str);
            lemma_brace_count_bounds(line@, i + 2, in_str);
        }
        let c = line[i];
        if c == '\\' && in_str {
            if i + 1 < len {
                i = i + 2;
            } else {
                return (opens, closes);
            }
        } else if c == '"' {
            in_str = !in_str;
            i = i + 1;
        } else if !in_str && c == '/' && i + 1 < len && line[i + 1] == '/' {
            return (opens, closes);
        } else if !in_str && c == '{' {
            opens = opens + 1;
            i = i + 1;
        } else if !in_str && c == '}' {
            closes = closes + 1;
            i = i + 1;
        } else {
            i = i + 1;
        }
    }
    (opens, closes)
}

/// The index at which `line` splits into code and its trailing line comment
/// (the first `//` outside a string literal), or `line.len()`.
fn split_line_comment(line: &Vec<char>) -> (k: usize)
    ensures
        k as int == comment_index(line@, 0, false),
        k <= line.len(),
        k < line.len() ==> line@[k as int] == '/',
{
    let len = line.len();
    let mut i: usize = 0;
    let mut in_str = false;
    while i < len
        invariant
            len == line.len(),
            comment_index(line@, i as int, in_str) == comment_index(line@, 0, false),
        decreases len - i,
    {
        let c = line[i];
        if c == '\\' && in_str {
            if i + 1 < len {
                i = i + 2;
            } else {
                return len;
            }
        } else if c == '"' {
            in_str = !in_str;
            i = i + 1;
        } else if !in_str && c == '/' && i + 1 < len && line[i + 1] == '/' {
            return i;
        } else {
            i = i + 1;
        }
    }
    len
}

// ---------------------------------------------------------------------------
// Spacing rules
// ---------------------------------------------------------------------------

/// ASCII letters, digits and `_`: the characters of an identifier.
pub open spec fn is_ident_char(c: char) -> bool {
    ('a' <= c && c <= 'z') || ('A' <= c && c <= 'Z') || ('0' <= c && c <= '9') || c == '_'
}

/// The longest run of identifier characters at the end of `s`.
pub open spec fn trailing_ident(s: Seq<char>) -> Seq<char>
    decreases s.len(),
{
    if s.len() > 0 && is_ident_char(s.last()) {
        trailing_ident(s.drop_last()).push(s.last())
    } else {
        seq![]
    }
}

/// The control keywords that take a space before `(`.
pub open spec fn is_paren_keyword(w: Seq<char>) -> bool {
    ||| w == seq!['i', 'f']
    ||| w == seq!['w', 'h', 'i', 'l', 'e']
    ||| w == seq!['f', 'o', 'r']
    ||| w == seq!['s', 'w', 'i', 't', 'c', 'h']
    ||| w == seq!['r', 'e', 't', 'u', 'r', 'n']
}

/// Whether the identifier that `s` ends with is a control keyword.
pub open spec fn ends_with_keyword(s: Seq<char>) -> bool {
    is_paren_keyword(trailing_ident(s))
}

/// The first index from `j` on whose character is neither a space nor a tab, or
/// `b.len()`.
pub open spec fn skip_blanks(b: Seq<char>, j: int) -> int
    decreases b.len() - j,
{
    if j < 0 || j >= b.len() {
        b.len() as int
    } else if b[j] == ' ' || b[j] == '\t' {
        skip_blanks(b, j + 1)
    } else {
        j
    }
}

/// The result of applying the spacing rules to the characters of `b` from `i` on,
/// `in_str` telling whether `i` lies inside a string literal, after `out` has
/// been emitted for the characters before `i`.
pub open spec fn spacing(b: Seq<char>, i: int, in_str: bool, out: Seq<char>) -> Seq<char>
    decreases b.len() - i,
{
    if i < 0 || i >= b.len() {
        out
    } else if in_str {
        let o1 = out.push(b[i]);
        if b[i] == '\\' && i + 1 < b.len() {
            spacing(b, i + 2, true, o1.push(b[i + 1]))
        } else if b[i] == '"' {
            spacing(b, i + 1, false, o1)
        } else {
            spacing(b, i + 1, true, o1)
        }
    } else if b[i] == '"' {
        spacing(b, i + 1, true, out.push('"'))
    } else if b[i] == ',' {
        let k = skip_blanks(b, i + 1);
        if i + 1 <= k && k <= b.len() {
            spacing(
                b,
                k,
                false,
                if k < b.len() {
                    out.push(',').push(' ')
                } else {
                    out.push(',')
                },
            )
        } else {
            out
        }
    } else if b[i] == '(' {
        spacing(
            b,
            i + 1,
            false,
            if ends_with_keyword(out) {
                out.push(' ').push('(')
            } else {
                out.push('(')
            },
        )
    } else if b[i] == '{' {
        spacing(
            b,
            i + 1,
            false,
            if out.len() > 0 && out.last() != ' ' && out.last() != '\t' {
                out.push(' ').push('{')
            } else {
                out.push('{')
            },
        )
    } else if b[i] == ' ' || b[i] == '\t' {
        let k = skip_blanks(b, i + 1);
        if i + 1 <= k && k <= b.len() {
            spacing(b, k, false, out.push(' '))
        } else {
            out
        }
    } else {
        spacing(b, i + 1, false, out.push(b[i]))
    }
}

proof fn lemma_skip_blanks(b: Seq<char>, j: int)
    requires
        0 <= j,
    ensures
        j <= b.len() ==> j <= skip_blanks(b, j) <= b.len(),
        j > b.len() ==> skip_blanks(b, j) == b.len(),
        skip_blanks(b, j) < b.len() ==> b[skip_blanks(b, j)] != ' ' && b[skip_blanks(b, j)] != '\t',
    decreases b.len() - j,
{
    if j < b.len() && (b[j] == ' ' || b[j] == '\t') {
        lemma_skip_blanks(b, j + 1);
    }
}

fn is_ident_char_exec(c: char) -> (r: bool)
    ensures
        r == is_ident_char(c),
{
    ('a' <= c && c <= 'z') || ('A' <= c && c <= 'Z') || ('0' <= c && c <= '9') || c == '_'
}

proof fn lemma_trailing_ident_at(s: Seq<char>, start: int)
    requires
        0 <= start <= s.len(),
        forall|j: int| start <= j < s.len() ==> is_ident_char(#[trigger] s[j]),
        start == 0 || !is_ident_char(s[start - 1]),
    ensures
        trailing_ident(s) == s.subrange(start, s.len() as int),
    decreases s.len() - start,
{
    if start == s.len() {
    } else {
        let t = s.drop_last();
        assert forall|j: int| start <= j < t.len() implies is_ident_char(#[trigger] t[j]) by {
            assert(t[j] == s[j]);
        }
        lemma_trailing_ident_at(t, start);
        assert(t.subrange(start, t.len() as int).push(s.last()) == s.subrange(
            start,
            s.len() as int,
        ));
    }
}

/// Return `true` if the last identifier already written into `buf` is one of
/// the keywords that should be followed by a space before `(`.
fn trailing_word_is_keyword(buf: &Vec<char>) -> (r: bool)
    ensures
        r == ends_with_keyword(buf@),
{
    let end = buf.len();
    let mut start = end;
    while start > 0 && is_ident_char_exec(buf[start - 1])
        invariant
            start <= end == buf.len(),
            forall|j: int| start <= j < end ==> is_ident_char(#[trigger] buf@[j]),
        decreases start,
    {
        start = start - 1;
    }
    proof {
        lemma_trailing_ident_at(buf@, start as int);
    }
    let ghost w = buf@.subrange(start as int, end as int);
    let n = end - start;
    assert(w.len() == n);
    assert(forall|j: int| 0 <= j < n ==> #[trigger] w[j] == buf@[start + j]);
    let r = if n == 2 {
        buf[start] == 'i' && buf[start + 1] == 'f'
    } else if n == 3 {
        buf[start] == 'f' && buf[start + 1] == 'o' && buf[start + 2] == 'r'
    } else if n == 5 {
        buf[start] == 'w' && buf[start + 1] == 'h' && buf[start + 2] == 'i' && buf[start + 3]
            == 'l' && buf[start + 4] == 'e'
    } else if n == 6 {
        (buf[start] == 's' && buf[start + 1] == 'w' && buf[start + 2] == 'i' && buf[start + 3]
            == 't' && buf[start + 4] == 'c' && buf[start + 5] == 'h') || (buf[start] == 'r'
            && buf[start + 1] == 'e' && buf[start + 2] == 't' && buf[start + 3] == 'u' && buf[start
            + 4] == 'r' && buf[start + 5] == 'n')
    } else {
        false
    };
    proof {
        if r {
            if n == 2 {
                assert(w =~= seq!['i', 'f']);
            } else if n == 3 {
                assert(w =~= seq!['f', 'o', 'r']);
            } else if n == 5 {
                assert(w =~= seq!['w', 'h', 'i', 'l', 'e']);
            } else if buf[start as int] == 's' {
                assert(w =~= seq!['s', 'w', 'i', 't', 'c', 'h']);
            } else {
                assert(w =~= seq!['r', 'e', 't', 'u', 'r', 'n']);
            }
        } else {
            if w == seq!['i', 'f'] {
                assert(w[0] == 'i' && w[1] == 'f');
            }
            if w == seq!['f', 'o', 'r'] {
                assert(w[0] == 'f' && w[1] == 'o' && w[2] == 'r');
            }
            if w == seq!['w', 'h', 'i', 'l', 'e'] {
                assert(w[0] == 'w' && w[1] == 'h' && w[2] == 'i' && w[3] == 'l' && w[4] == 'e');
            }
            if w == seq!['s', 'w', 'i', 't', 'c', 'h'] {
                assert(w[0] == 's' && w[1] == 'w' && w[2] == 'i' && w[3] == 't' && w[4] == 'c'
                    && w[5] == 'h');
            }
            if w == seq!['r', 'e', 't', 'u', 'r', 'n'] {
                assert(w[0] == 'r' && w[1] == 'e' && w[2] == 't' && w[3] == 'u' && w[4] == 'r'
                    && w[5] == 'n');
            }
        }
    }
    r
}

/// Apply all spacing rules to the code portion of a line.
///
/// This is a single character-level pass so that spacing decisions are always
/// string-aware and can look back at what has already been emitted.
fn apply_spacing(code: &Vec<char>) -> (out: Vec<char>)
    ensures
        out@ == spacing(code@, 0, false, seq![]),
{
    let len = code.len();
    let mut out: Vec<char> = Vec::new();
    let mut i: usize = 0;
    let mut in_str = false;
    while i < len
        invariant
            len == code@.len(),
            spacing(code@, i as int, in_str, out@) == spacing(code@, 0, false, seq![]),
        decreases len - i,
    {
        let b = code[i];
        if in_str {
            out.push(b);
            if b == '\\' && i + 1 < len {
                i = i + 1;
                out.push(code[i]);
            } else if b == '"' {
                in_str = false;
            }
            i = i + 1;
        } else if b == '"' {
            out.push('"');
            in_str = true;
            i = i + 1;
        } else if b == ',' {
            let ghost i0 = i as int;
            proof {
                lemma_skip_blanks(code@, i0 + 1);
            }
            out.push(',');
            while i + 1 < len && (code[i + 1] == ' ' || code[i + 1] == '\t')
                invariant
                    len == code@.len(),
                    i0 <= i < len,
                    skip_blanks(code@, i + 1) == skip_blanks(code@, i0 + 1),
                decreases len - i,
            {
                i = i + 1;
            }
            if i + 1 < len {
                out.push(' ');
            }
            i = i + 1;
        } else if b == '(' {
            if trailing_word_is_keyword(&out) {
                out.push(' ');
            }
            out.push('(');
            i = i + 1;
        } else if b == '{' {
            if out.len() > 0 && out[out.len() - 1] != ' ' && out[out.len() - 1] != '\t' {
                out.push(' ');
            }
            out.push('{');
            i = i + 1;
        } else if b == ' ' || b == '\t' {
            let ghost i0 = i as int;
            proof {
                lemma_skip_blanks(code@, i0 + 1);
            }
            out.push(' ');
            while i + 1 < len && (code[i + 1] == ' ' || code[i + 1] == '\t')
                invariant
                    len == code@.len(),
                    i0 <= i < len,
                    skip_blanks(code@, i + 1) == skip_blanks(code@, i0 + 1),
                decreases len - i,
            {
                i = i + 1;
            }
            i = i + 1;
        } else {
            out.push(b);
            i = i + 1;
        }
    }
    out
}

// ---------------------------------------------------------------------------
// Lines
// ---------------------------------------------------------------------------

/// `s` without its leading spaces (`' '` only).
pub open spec fn strip_spaces(s: Seq<char>) -> Seq<char>
    decreases s.len(),
{
    if s.len() > 0 && s[0] == ' ' {
        strip_spaces(s.drop_first())
    } else {
        s
    }
}

/// The formatted text of one trimmed, non-empty line: the spacing rules
/// applied to its code, then its line comment, if any, after one space.
pub open spec fn format_line_spec(line: Seq<char>) -> Seq<char> {
    let k = comment_index(line, 0, false);
    let code = trim_end_spec(line.take(k));
    let comment = line.skip(k);
    let formatted = if code.len() == 0 {
        seq![]
    } else {
        spacing(code, 0, false, seq![])
    };
    if formatted.len() == 0 && comment.len() == 0 {
        seq![]
    } else if formatted.len() == 0 {
        strip_spaces(comment)
    } else if comment.len() == 0 {
        formatted
    } else {
        formatted + seq![' '] + trim_start_spec(comment)
    }
}

/// Format a single trimmed line, applying spacing rules to the code portion
/// while leaving string literals and the trailing line comment unchanged.
fn format_line(line: &Vec<char>) -> (r: Vec<char>)
    ensures
        r@ == format_line_spec(line@),
{
    let k = split_line_comment(line);
    let code = slice_chars(line, 0, k);
    let comment = slice_chars(line, k, line.len());
    assert(code@ == line@.take(k as int));
    assert(comment@ == line@.skip(k as int));
    let code = trim_end_chars(&code);
    let formatted = if code.len() == 0 {
        Vec::new()
    } else {
        apply_spacing(&code)
    };
    proof {
        if comment.len() > 0 {
            assert(comment@[0] == '/');
            assert(strip_spaces(comment@) == comment@);
            assert(!is_ws(comment@[0]));
            assert(trim_start_spec(comment@) == comment@);
        }
    }
    if formatted.len() == 0 && comment.len() == 0 {
        Vec::new()
    } else if formatted.len() == 0 {
        comment
    } else if comment.len() == 0 {
        formatted
    } else {
        let mut r = formatted;
        r.push(' ');
        let mut j: usize = 0;
        let ghost base = r@;
        while j < comment.len()
            invariant
                j <= comment.len(),
                r@ == base + comment@.take(j as int),
            decreases comment.len() - j,
        {
            r.push(comment[j]);
            j = j + 1;
            assert(comment@.take(j as int) == comment@.take(j - 1 as int).push(comment@[j - 1]));
        }
        assert(comment@.take(comment.len() as int) == comment@);
        r
    }
}

/// Four spaces for each level of depth.
pub open spec fn indent(depth: int) -> Seq<char>
    decreases depth,
{
    if depth <= 0 {
        seq![]
    } else {
        indent(depth - 1) + seq![' ', ' ', ' ', ' ']
    }
}

/// The larger of `a` and `b`.
pub open spec fn max_int(a: int, b: int) -> int {
    if a >= b {
        a
    } else {
        b
    }
}

/// One line's effect on the formatter's state `(output, depth, blank lines
/// in a row)`: a blank line is emitted only as the first of a run; any other
/// line is trimmed, indented by the depth (one less if it starts with `}`),
/// formatted and ended with `'\n'`, and its braces give the next depth.
pub open spec fn format_step(st: (Seq<char>, int, int), raw: Seq<char>) -> (Seq<char>, int, int) {
    let out = st.0;
    let depth = st.1;
    let blank = st.2;
    let t = trim_spec(raw);
    if t.len() == 0 {
        (if blank + 1 <= 1 {
            out.push('\n')
        } else {
            out
        }, depth, blank + 1)
    } else {
        let bc = brace_count(t, 0, false);
        let closes_first = t[0] == '}';
        let d1 = if closes_first {
            max_int(depth - 1, 0)
        } else {
            depth
        };
        let net = if closes_first {
            bc.0 - (bc.1 - 1)
        } else {
            bc.0 - bc.1
        };
        (out + indent(d1) + format_line_spec(t) + seq!['\n'], max_int(d1 + net, 0), 0)
    }
}

/// The formatter's state after the given lines, in order, from `st`.
pub open spec fn format_lines(lines: Seq<Seq<char>>, st: (Seq<char>, int, int)) -> (
    Seq<char>,
    int,
    int,
)
    decreases lines.len(),
{
    if lines.len() == 0 {
        st
    } else {
        format_lines(lines.drop_first(), format_step(st, lines[0]))
    }
}

/// `s` with trailing newlines reduced to at most one.
pub open spec fn strip_blank_tail(s: Seq<char>) -> Seq<char>
    decreases s.len(),
{
    if s.len() >= 2 && s.last() == '\n' && s[s.len() - 2] == '\n' {
        strip_blank_tail(s.drop_last())
    } else {
        s
    }
}

/// The output with exactly one trailing newline.
pub open spec fn finish_output(s: Seq<char>) -> Seq<char> {
    let t = strip_blank_tail(s);
    if t.len() > 0 && t.last() == '\n' {
        t
    } else {
        t.push('\n')
    }
}

/// What `format_source` gives for the characters of `source`.
pub open spec fn format_spec(source: Seq<char>) -> Seq<char> {
    finish_output(format_lines(lines_spec(source), (seq![], 0, 0)).0)
}

/// The total number of characters in a list of lines.
pub open spec fn total_len(lines: Seq<Seq<char>>) -> int
    decreases lines.len(),
{
    if lines.len() == 0 {
        0
    } else {
        lines[0].len() + total_len(lines.drop_first())
    }
}

proof fn lemma_lines_total_len(s: Seq<char>)
    ensures
        total_len(lines_spec(s)) <= s.len(),
    decreases s.len(),
{
    if s.len() > 0 {
        let k = index_of(s, '\n');
        lemma_index_of_bounds(s, '\n');
        if k < s.len() {
            lemma_lines_total_len(s.skip(k + 1));
            let l = seq![strip_cr(s.take(k))] + lines_spec(s.skip(k + 1));
            assert(l == lines_spec(s));
            assert(l[0] == strip_cr(s.take(k)));
            assert(l[0].len() <= k);
            assert(s.skip(k + 1).len() == s.len() - k - 1);
            assert(l.drop_first() == lines_spec(s.skip(k + 1)));
            assert(total_len(l) == l[0].len() + total_len(l.drop_first()));
        } else {
            let l = seq![s];
            assert(l == lines_spec(s));
            assert(l.drop_first().len() == 0);
            assert(total_len(l) == l[0].len() + total_len(l.drop_first()));
        }
    }
}

proof fn lemma_total_len_skip(lines: Seq<Seq<char>>, i: int)
    requires
        0 <= i < lines.len(),
    ensures
        total_len(lines.skip(i)) == lines[i].len() + total_len(lines.skip(i + 1)),
        total_len(lines.skip(i)) >= 0,
        total_len(lines.skip(i + 1)) >= 0,
{
    let t = lines.skip(i);
    assert(t.drop_first() == lines.skip(i + 1));
    assert(t[0] == lines[i]);
    lemma_total_len_nonneg(lines.skip(i + 1));
}

proof fn lemma_total_len_nonneg(lines: Seq<Seq<char>>)
    ensures
        total_len(lines) >= 0,
    decreases lines.len(),
{
    if lines.len() > 0 {
        lemma_total_len_nonneg(lines.drop_first());
    }
}

proof fn lemma_trim_start_len(s: Seq<char>)
    ensures
        trim_start_spec(s).len() <= s.len(),
    decreases s.len(),
{
    if s.len() > 0 {
        lemma_trim_start_len(s.drop_first());
    }
}

proof fn lemma_trim_end_len(s: Seq<char>)
    ensures
        trim_end_spec(s).len() <= s.len(),
    decreases s.len(),
{
    if s.len() > 0 {
        lemma_trim_end_len(s.drop_last());
    }
}

proof fn lemma_trim_len(s: Seq<char>)
    ensures
        trim_spec(s).len() <= s.len(),
{
    lemma_trim_start_len(s);
    lemma_trim_end_len(trim_start_spec(s));
}

fn push_indent(out: &mut Vec<char>, depth: usize)
    ensures
        final(out)@ == old(out)@ + indent(depth as int),
{
    let mut j: usize = 0;
    let ghost base = out@;
    assert(base + indent(0) == base);
    while j < depth
        invariant
            j <= depth,
            out@ == base + indent(j as int),
        decreases depth - j,
    {
        out.push(' ');
        out.push(' ');
        out.push(' ');
        out.push(' ');
        j = j + 1;
        assert(indent(j as int) == indent(j - 1 as int) + seq![' ', ' ', ' ', ' ']);
        assert(out@ =~= base + indent(j as int));
    }
}

/// Formats GPC source text: re-indents by brace depth, applies the spacing
/// rules to each line's code, allows at most one blank line in a row and
/// ends the text with exactly one newline.
pub fn format_source(source: &str) -> (r: String)
    ensures
        r@ == format_spec(source@),
{
    let chars = chars_of(source);
    let lines = lines_of(&chars);
    let ghost all = views(lines@);
    let mut out: Vec<char> = Vec::new();
    let mut depth: usize = 0;
    let mut had_blank = false;
    let ghost mut blank: int = 0;
    let ghost mut consumed: int = 0;
    let mut i: usize = 0;
    let n = chars.len();
    assert(chars@.len() <= usize::MAX);
    proof {
        lemma_lines_total_len(source@);
        lemma_total_len_nonneg(all);
        assert(all.skip(0) == all);
    }
    while i < lines.len()
        invariant
            all == views(lines@),
            all.len() == lines.len(),
            i <= lines.len(),
            format_lines(all.skip(i as int), (out@, depth as int, blank)) == format_lines(
                all,
                (seq![], 0, 0),
            ),
            blank >= 0,
            had_blank == (blank > 0),
            0 <= consumed,
            depth <= consumed,
            consumed + total_len(all.skip(i as int)) <= source@.len(),
            source@.len() <= usize::MAX,
        decreases lines.len() - i,
    {
        let ghost st = (out@, depth as int, blank);
        proof {
            lemma_total_len_skip(all, i as int);
            assert(all.skip(i as int)[0] == all[i as int]);
            assert(all.skip(i as int).drop_first() == all.skip(i + 1));
            assert(all[i as int] == lines@[i as int]@);
        }
        let trimmed = trim_chars(&lines[i]);
        proof {
            lemma_trim_len(lines@[i as int]@);
        }
        if trimmed.len() == 0 {
            if !had_blank {
                out.push('\n');
            }
            had_blank = true;
            proof {
                blank = blank + 1;
            }
        } else {
            had_blank = false;
            proof {
                blank = 0;
            }
            let (opens, closes) = count_braces(&trimmed);
            let closes_first = trimmed[0] == '}';
            proof {
                if closes_first {
                    lemma_brace_count_bounds(trimmed@, 1, false);
                    assert(brace_count(trimmed@, 0, false).1 >= 1);
                }
            }
            if closes_first && depth > 0 {
                depth = depth - 1;
            }
            let formatted = format_line(&trimmed);
            push_indent(&mut out, depth);
            let mut j: usize = 0;
            let ghost base = out@;
            while j < formatted.len()
                invariant
                    j <= formatted.len(),
                    out@ == base + formatted@.take(j as int),
                decreases formatted.len() - j,
            {
                out.push(formatted[j]);
                j = j + 1;
                assert(formatted@.take(j as int) == formatted@.take(j - 1 as int).push(
                    formatted@[j - 1],
                ));
            }
            assert(formatted@.take(formatted.len() as int) == formatted@);
            out.push('\n');
            // Net brace change for the next line. A line that opened with `}`
            // has had that close consumed above.
            let closes_left = if closes_first {
                closes - 1
            } else {
                closes
            };
            if depth + opens >= closes_left {
                depth = depth + opens - closes_left;
            } else {
                depth = 0;
            }
        }
        proof {
            consumed = consumed + all[i as int].len();
            assert(format_step(st, all[i as int]) == (out@, depth as int, blank));
        }
        i = i + 1;
    }
    proof {
        assert(all.skip(i as int).len() == 0);
    }
    while out.len() >= 2 && out[out.len() - 1] == '\n' && out[out.len() - 2] == '\n'
        invariant
            strip_blank_tail(out@) == strip_blank_tail(
                format_lines(all, (seq![], 0, 0)).0,
            ),
        decreases out.len(),
    {
        out.pop();
    }
    if out.len() == 0 || out[out.len() - 1] != '\n' {
        out.push('\n');
    }
    string_of(&out)
}

// ---------------------------------------------------------------------------
// Laws of the formatter
// ---------------------------------------------------------------------------

/// Whether `s` holds no newline.
pub open spec fn no_newline(s: Seq<char>) -> bool {
    forall|k: int| 0 <= k < s.len() ==> #[trigger] s[k] != '\n'
}

/// Whether `s` holds no three newlines in a row (no two blank lines in a
/// row).
pub open spec fn no_blank_run(s: Seq<char>) -> bool {
    forall|k: int| 0 <= k && k + 2 < s.len() ==> !(#[trigger] s[k] == '\n' && s[k + 1] == '\n' && s[k + 2] == '\n')
}

proof fn lemma_trim_start_no_newline(s: Seq<char>)
    requires
        no_newline(s),
    ensures
        no_newline(trim_start_spec(s)),
        trim_start_spec(s).len() > 0 ==> !is_ws(trim_start_spec(s)[0]),
    decreases s.len(),
{
    if s.len() > 0 && is_ws(s[0]) {
        assert(no_newline(s.drop_first())) by {
            assert forall|k: int| 0 <= k < s.drop_first().len() implies #[trigger] s.drop_first()[k] != '\n' by {
                assert(s.drop_first()[k] == s[k + 1]);
            }
        }
        lemma_trim_start_no_newline(s.drop_first());
    }
}

proof fn lemma_trim_end_prefix(s: Seq<char>)
    ensures
        trim_end_spec(s).len() <= s.len(),
        trim_end_spec(s) == s.take(trim_end_spec(s).len() as int),
        trim_end_spec(s).len() > 0 ==> !is_ws(trim_end_spec(s).last()),
        s.len() > 0 && !is_ws(s[0]) ==> trim_end_spec(s).len() > 0,
    decreases s.len(),
{
    if s.len() > 0 && is_ws(s.last()) {
        lemma_trim_end_prefix(s.drop_last());
        let t = trim_end_spec(s.drop_last());
        assert(s.drop_last().take(t.len() as int) =~= s.take(t.len() as int));
        if s.len() > 0 && !is_ws(s[0]) {
            assert(s.len() > 1);
            assert(s.drop_last()[0] == s[0]);
        }
    } else {
        assert(s.take(s.len() as int) =~= s);
    }
}

proof fn lemma_take_no_newline(s: Seq<char>, n: int)
    requires
        no_newline(s),
        0 <= n <= s.len(),
    ensures
        no_newline(s.take(n)),
        no_newline(s.skip(n)),
{
    assert forall|k: int| 0 <= k < s.take(n).len() implies #[trigger] s.take(n)[k] != '\n' by {
        assert(s.take(n)[k] == s[k]);
    }
    assert forall|k: int| 0 <= k < s.skip(n).len() implies #[trigger] s.skip(n)[k] != '\n' by {
        assert(s.skip(n)[k] == s[n + k]);
    }
}

proof fn lemma_trim_no_newline(s: Seq<char>)
    requires
        no_newline(s),
    ensures
        no_newline(trim_spec(s)),
        trim_spec(s).len() > 0 ==> !is_ws(trim_spec(s)[0]),
{
    lemma_trim_start_no_newline(s);
    let a = trim_start_spec(s);
    lemma_trim_end_prefix(a);
    let t = trim_end_spec(a);
    lemma_take_no_newline(a, t.len() as int);
    if t.len() > 0 {
        assert(t[0] == a[0]);
    }
}

proof fn lemma_spacing_grows(b: Seq<char>, i: int, in_str: bool, out: Seq<char>)
    requires
        0 <= i,
    ensures
        spacing(b, i, in_str, out).len() >= out.len(),
        0 <= i < b.len() && !in_str && b[i] != ' ' && b[i] != '\t' ==> spacing(b, i, in_str, out).len() > out.len(),
    decreases b.len() - i,
{
    if i < b.len() {
        if in_str {
            if b[i] == '\\' && i + 1 < b.len() {
                lemma_spacing_grows(b, i + 2, true, out.push(b[i]).push(b[i + 1]));
            } else if b[i] == '"' {
                lemma_spacing_grows(b, i + 1, false, out.push(b[i]));
            } else {
                lemma_spacing_grows(b, i + 1, true, out.push(b[i]));
            }
        } else if b[i] == '"' {
            lemma_spacing_grows(b, i + 1, true, out.push('"'));
        } else if b[i] == ',' {
            lemma_skip_blanks(b, i + 1);
            let k = skip_blanks(b, i + 1);
            lemma_spacing_grows(b, k, false, if k < b.len() { out.push(',').push(' ') } else { out.push(',') });
        } else if b[i] == '(' {
            lemma_spacing_grows(b, i + 1, false, if ends_with_keyword(out) { out.push(' ').push('(') } else { out.push('(') });
        } else if b[i] == '{' {
            lemma_spacing_grows(b, i + 1, false, if out.len() > 0 && out.last() != ' ' && out.last() != '\t' { out.push(' ').push('{') } else { out.push('{') });
        } else if b[i] == ' ' || b[i] == '\t' {
            lemma_skip_blanks(b, i + 1);
            let k = skip_blanks(b, i + 1);
            lemma_spacing_grows(b, k, false, out.push(' '));
        } else {
            lemma_spacing_grows(b, i + 1, false, out.push(b[i]));
        }
    }
}

proof fn lemma_push_no_newline(s: Seq<char>, c: char)
    requires
        no_newline(s),
        c != '\n',
    ensures
        no_newline(s.push(c)),
{
    assert forall|k: int| 0 <= k < s.push(c).len() implies #[trigger] s.push(c)[k] != '\n' by {
        if k < s.len() {
            assert(s.push(c)[k] == s[k]);
        }
    }
}

proof fn lemma_spacing_no_newline(b: Seq<char>, i: int, in_str: bool, out: Seq<char>)
    requires
        0 <= i,
        no_newline(out),
        forall|k: int| 0 <= k < b.len() ==> #[trigger] b[k] != '\n',
    ensures
        no_newline(spacing(b, i, in_str, out)),
    decreases b.len() - i,
{
    if i < b.len() {
        if in_str {
            assert((b[i]) != '\n');
            lemma_push_no_newline(out, b[i]);
            if b[i] == '\\' && i + 1 < b.len() {
                assert((b[i + 1]) != '\n');
                lemma_push_no_newline(out.push(b[i]), b[i + 1]);
                lemma_spacing_no_newline(b, i + 2, true, out.push(b[i]).push(b[i + 1]));
            } else if b[i] == '"' {
                lemma_spacing_no_newline(b, i + 1, false, out.push(b[i]));
            } else {
                lemma_spacing_no_newline(b, i + 1, true, out.push(b[i]));
            }
        } else if b[i] == '"' {
            lemma_push_no_newline(out, '"');
            lemma_spacing_no_newline(b, i + 1, true, out.push('"'));
        } else if b[i] == ',' {
            lemma_skip_blanks(b, i + 1);
            let k = skip_blanks(b, i + 1);
            lemma_push_no_newline(out, ',');
            lemma_push_no_newline(out.push(','), ' ');
            lemma_spacing_no_newline(b, k, false, if k < b.len() { out.push(',').push(' ') } else { out.push(',') });
        } else if b[i] == '(' {
            lemma_push_no_newline(out, ' ');
            lemma_push_no_newline(out.push(' '), '(');
            lemma_push_no_newline(out, '(');
            lemma_spacing_no_newline(b, i + 1, false, if ends_with_keyword(out) { out.push(' ').push('(') } else { out.push('(') });
        } else if b[i] == '{' {
            lemma_push_no_newline(out, ' ');
            lemma_push_no_newline(out.push(' '), '{');
            lemma_push_no_newline(out, '{');
            lemma_spacing_no_newline(b, i + 1, false, if out.len() > 0 && out.last() != ' ' && out.last() != '\t' { out.push(' ').push('{') } else { out.push('{') });
        } else if b[i] == ' ' || b[i] == '\t' {
            lemma_skip_blanks(b, i + 1);
            let k = skip_blanks(b, i + 1);
            lemma_push_no_newline(out, ' ');
            lemma_spacing_no_newline(b, k, false, out.push(' '));
        } else {
            assert((b[i]) != '\n');
            lemma_push_no_newline(out, b[i]);
            lemma_spacing_no_newline(b, i + 1, false, out.push(b[i]));
        }
    }
}

proof fn lemma_comment_index_bounds(s: Seq<char>, i: int, in_str: bool)
    requires
        0 <= i,
    ensures
        0 <= comment_index(s, i, in_str) <= s.len(),
        i <= s.len() ==> i <= comment_index(s, i, in_str),
    decreases s.len() - i,
{
    if i < s.len() {
        if s[i] == '\\' && in_str {
            if i + 1 < s.len() {
                lemma_comment_index_bounds(s, i + 2, in_str);
            }
        } else if s[i] == '"' {
            lemma_comment_index_bounds(s, i + 1, !in_str);
        } else if !in_str && s[i] == '/' && i + 1 < s.len() && s[i + 1] == '/' {
        } else {
            lemma_comment_index_bounds(s, i + 1, in_str);
        }
    }
}

proof fn lemma_strip_spaces_id(s: Seq<char>)
    requires
        s.len() > 0,
        s[0] != ' ',
    ensures
        strip_spaces(s) == s,
{
}

proof fn lemma_concat_no_newline(a: Seq<char>, b: Seq<char>)
    requires
        no_newline(a),
        no_newline(b),
    ensures
        no_newline(a + b),
{
    assert forall|k: int| 0 <= k < (a + b).len() implies #[trigger] (a + b)[k] != '\n' by {
        if k < a.len() {
            assert((a + b)[k] == a[k]);
        } else {
            assert((a + b)[k] == b[k - a.len()]);
        }
    }
}

/// A trimmed line that is not empty is formatted into a text that is not
/// empty and holds no newline.
proof fn lemma_format_line_shape(t: Seq<char>)
    requires
        t.len() > 0,
        !is_ws(t[0]),
        no_newline(t),
    ensures
        format_line_spec(t).len() > 0,
        no_newline(format_line_spec(t)),
{
    lemma_comment_index_bounds(t, 0, false);
    let k = comment_index(t, 0, false);
    lemma_take_no_newline(t, k);
    let head = t.take(k);
    let code = trim_end_spec(head);
    let comment = t.skip(k);
    lemma_trim_end_prefix(head);
    lemma_take_no_newline(head, code.len() as int);
    assert(no_newline(code));
    if code.len() > 0 {
        assert(code[0] == t[0]);
        assert(t[0] != ' ' && t[0] != '\t');
        lemma_spacing_grows(code, 0, false, seq![]);
        lemma_spacing_no_newline(code, 0, false, seq![]);
        let formatted = spacing(code, 0, false, seq![]);
        if comment.len() > 0 {
            lemma_trim_start_no_newline(comment);
            lemma_push_no_newline(formatted, ' ');
            lemma_concat_no_newline(formatted + seq![' '], trim_start_spec(comment));
        }
    } else {
        if k > 0 {
            assert(head[0] == t[0]);
            lemma_trim_end_prefix(head);
        }
        assert(k == 0);
        assert(comment =~= t);
        lemma_strip_spaces_id(t);
    }
}

proof fn lemma_indent_spaces(d: int)
    ensures
        forall|k: int| 0 <= k < indent(d).len() ==> #[trigger] indent(d)[k] == ' ',
    decreases d,
{
    if d > 0 {
        lemma_indent_spaces(d - 1);
        let a = indent(d - 1);
        assert forall|k: int| 0 <= k < indent(d).len() implies #[trigger] indent(d)[k] == ' ' by {
            if k < a.len() {
                assert(indent(d)[k] == a[k]);
            }
        }
    }
}

/// The formatter's state invariant: no blank run in the output so far, and
/// an output that ends in a blank line only while a run of blank lines is
/// being passed over.
pub open spec fn format_state_ok(st: (Seq<char>, int, int)) -> bool {
    &&& no_blank_run(st.0)
    &&& st.2 >= 0
    &&& (st.0.len() >= 2 && st.0.last() == '\n' && st.0[st.0.len() - 2] == '\n') ==> st.2 >= 1
}

proof fn lemma_format_step_ok(st: (Seq<char>, int, int), raw: Seq<char>)
    requires
        format_state_ok(st),
        no_newline(raw),
    ensures
        format_state_ok(format_step(st, raw)),
{
    let out = st.0;
    let t = trim_spec(raw);
    lemma_trim_no_newline(raw);
    if t.len() == 0 {
        if st.2 + 1 <= 1 {
            let o = out.push('\n');
            assert forall|k: int| 0 <= k && k + 2 < o.len() implies !(#[trigger] o[k] == '\n' && o[k + 1] == '\n' && o[k + 2] == '\n') by {
                if k + 2 < out.len() {
                    assert(o[k] == out[k] && o[k + 1] == out[k + 1] && o[k + 2] == out[k + 2]);
                } else {
                    assert(o[k] == out[out.len() - 2] && o[k + 1] == out.last());
                }
            }
        }
    } else {
        let bc = brace_count(t, 0, false);
        let closes_first = t[0] == '}';
        let d1 = if closes_first { max_int(st.1 - 1, 0) } else { st.1 };
        lemma_format_line_shape(t);
        lemma_indent_spaces(d1);
        let x = indent(d1) + format_line_spec(t);
        assert(no_newline(x)) by {
            assert forall|k: int| 0 <= k < indent(d1).len() implies #[trigger] indent(d1)[k] != '\n' by {
                assert(indent(d1)[k] == ' ');
            }
            lemma_concat_no_newline(indent(d1), format_line_spec(t));
        }
        let o = out + x + seq!['\n'];
        assert(o.len() == out.len() + x.len() + 1);
        assert forall|k: int| 0 <= k && k + 2 < o.len() implies !(#[trigger] o[k] == '\n' && o[k + 1] == '\n' && o[k + 2] == '\n') by {
            if k + 2 < out.len() {
                assert(o[k] == out[k] && o[k + 1] == out[k + 1] && o[k + 2] == out[k + 2]);
            } else if k + 2 < out.len() + x.len() {
                assert(o[k + 2] == x[k + 2 - out.len()]);
            } else {
                assert(o[k + 1] == x[x.len() - 1]);
            }
        }
        assert(o[o.len() - 2] == x[x.len() - 1]);
        assert(o =~= format_step(st, raw).0);
    }
}

proof fn lemma_format_lines_ok(lines: Seq<Seq<char>>, st: (Seq<char>, int, int))
    requires
        format_state_ok(st),
        forall|k: int| 0 <= k < lines.len() ==> no_newline(#[trigger] lines[k]),
    ensures
        format_state_ok(format_lines(lines, st)),
    decreases lines.len(),
{
    if lines.len() > 0 {
        lemma_format_step_ok(st, lines[0]);
        assert forall|k: int| 0 <= k < lines.drop_first().len() implies no_newline(#[trigger] lines.drop_first()[k]) by {
            assert(lines.drop_first()[k] == lines[k + 1]);
        }
        lemma_format_lines_ok(lines.drop_first(), format_step(st, lines[0]));
    }
}

proof fn lemma_lines_no_newline(s: Seq<char>)
    ensures
        forall|k: int| 0 <= k < lines_spec(s).len() ==> no_newline(#[trigger] lines_spec(s)[k]),
    decreases s.len(),
{
    if s.len() > 0 {
        let k = index_of(s, '\n');
        lemma_index_of_bounds(s, '\n');
        if k < s.len() {
            lemma_lines_no_newline(s.skip(k + 1));
            let first = strip_cr(s.take(k));
            assert(no_newline(first)) by {
                assert forall|j: int| 0 <= j < first.len() implies #[trigger] first[j] != '\n' by {
                    assert(first[j] == s[j]);
                }
            }
            let rest = lines_spec(s.skip(k + 1));
            assert(lines_spec(s) == seq![first] + rest);
            assert forall|j: int| 0 <= j < lines_spec(s).len() implies no_newline(#[trigger] lines_spec(s)[j]) by {
                if j > 0 {
                    assert(lines_spec(s)[j] == rest[j - 1]);
                }
            }
        } else {
            assert(no_newline(s));
            assert(lines_spec(s) == seq![s]);
        }
    }
}

proof fn lemma_strip_blank_tail(s: Seq<char>)
    ensures
        strip_blank_tail(s).len() <= s.len(),
        strip_blank_tail(s) == s.take(strip_blank_tail(s).len() as int),
        !(strip_blank_tail(s).len() >= 2 && strip_blank_tail(s).last() == '\n' && strip_blank_tail(s)[strip_blank_tail(s).len() - 2] == '\n'),
    decreases s.len(),
{
    if s.len() >= 2 && s.last() == '\n' && s[s.len() - 2] == '\n' {
        lemma_strip_blank_tail(s.drop_last());
        let t = strip_blank_tail(s.drop_last());
        assert(s.drop_last().take(t.len() as int) =~= s.take(t.len() as int));
    } else {
        assert(s.take(s.len() as int) =~= s);
    }
}

/// The formatted text ends with exactly one newline: it ends with `'\n'`
/// and not with two.
pub proof fn law_format_ends_with_one_newline(source: Seq<char>)
    ensures
        format_spec(source).len() > 0,
        format_spec(source).last() == '\n',
        !(format_spec(source).len() >= 2 && format_spec(source)[format_spec(source).len() - 2] == '\n'),
{
    let s = format_lines(lines_spec(source), (seq![], 0, 0)).0;
    lemma_strip_blank_tail(s);
    let t = strip_blank_tail(s);
    if !(t.len() > 0 && t.last() == '\n') {
        assert(t.push('\n')[t.len() as int] == '\n');
        if t.len() > 0 {
            assert(t.push('\n')[t.len() - 1] == t.last());
        }
    }
}

/// The formatted text never holds two blank lines in a row: no three
/// newlines follow one another.
pub proof fn law_format_no_blank_run(source: Seq<char>)
    ensures
        no_blank_run(format_spec(source)),
{
    lemma_lines_no_newline(source);
    lemma_format_lines_ok(lines_spec(source), (seq![], 0, 0));
    let s = format_lines(lines_spec(source), (seq![], 0, 0)).0;
    lemma_strip_blank_tail(s);
    let t = strip_blank_tail(s);
    assert(no_blank_run(t)) by {
        assert forall|k: int| 0 <= k && k + 2 < t.len() implies !(#[trigger] t[k] == '\n' && t[k + 1] == '\n' && t[k + 2] == '\n') by {
            assert(t[k] == s[k] && t[k + 1] == s[k + 1] && t[k + 2] == s[k + 2]);
        }
    }
    if !(t.len() > 0 && t.last() == '\n') {
        let o = t.push('\n');
        assert forall|k: int| 0 <= k && k + 2 < o.len() implies !(#[trigger] o[k] == '\n' && o[k + 1] == '\n' && o[k + 2] == '\n') by {
            if k + 2 < t.len() {
                assert(o[k] == t[k] && o[k + 1] == t[k + 1] && o[k + 2] == t[k + 2]);
            } else {
                assert(o[k + 1] == t.last());
            }
        }
    }
}

/// Whether no line of `s` ends with a space or a tab before its newline.
pub open spec fn no_trailing_blank(s: Seq<char>) -> bool {
    forall|k: int| 0 < k < s.len() && #[trigger] s[k] == '\n' ==> s[k - 1] != ' ' && s[k - 1] != '\t'
}

proof fn lemma_skip_blanks_before_last(b: Seq<char>, j: int)
    requires
        0 <= j < b.len(),
        b.last() != ' ' && b.last() != '\t',
    ensures
        j <= skip_blanks(b, j) < b.len(),
    decreases b.len() - j,
{
    if b[j] == ' ' || b[j] == '\t' {
        lemma_skip_blanks_before_last(b, j + 1);
    }
}

proof fn lemma_spacing_last(b: Seq<char>, i: int, in_str: bool, out: Seq<char>)
    requires
        0 <= i < b.len(),
        b.last() != ' ' && b.last() != '\t',
    ensures
        spacing(b, i, in_str, out).len() > 0,
        spacing(b, i, in_str, out).last() != ' ' && spacing(b, i, in_str, out).last() != '\t',
        spacing(b, i, in_str, out).last() == b.last(),
    decreases b.len() - i,
{
    let n = b.len() as int;
    if in_str {
        let o1 = out.push(b[i]);
        if b[i] == '\\' && i + 1 < n {
            let o2 = o1.push(b[i + 1]);
            if i + 2 < n {
                lemma_spacing_last(b, i + 2, true, o2);
            } else {
                assert(spacing(b, i + 2, true, o2) == o2);
                assert(b[i + 1] == b.last());
            }
        } else if b[i] == '"' {
            if i + 1 < n {
                lemma_spacing_last(b, i + 1, false, o1);
            } else {
                assert(spacing(b, i + 1, false, o1) == o1);
            }
        } else {
            if i + 1 < n {
                lemma_spacing_last(b, i + 1, true, o1);
            } else {
                assert(spacing(b, i + 1, true, o1) == o1);
                assert(b[i] == b.last());
            }
        }
    } else if b[i] == '"' {
        let o = out.push('"');
        if i + 1 < n {
            lemma_spacing_last(b, i + 1, true, o);
        } else {
            assert(spacing(b, i + 1, true, o) == o);
            assert(b[i] == b.last());
        }
    } else if b[i] == ',' {
        lemma_skip_blanks(b, i + 1);
        let k = skip_blanks(b, i + 1);
        if k < n {
            lemma_spacing_last(b, k, false, out.push(',').push(' '));
        } else {
            if i + 1 < n {
                lemma_skip_blanks_before_last(b, i + 1);
            }
            assert(b[i] == b.last());
            assert(spacing(b, k, false, out.push(',')) == out.push(','));
        }
    } else if b[i] == '(' {
        let o = if ends_with_keyword(out) { out.push(' ').push('(') } else { out.push('(') };
        if i + 1 < n {
            lemma_spacing_last(b, i + 1, false, o);
        } else {
            assert(spacing(b, i + 1, false, o) == o);
            assert(b[i] == b.last());
        }
    } else if b[i] == '{' {
        let o = if out.len() > 0 && out.last() != ' ' && out.last() != '\t' { out.push(' ').push('{') } else { out.push('{') };
        if i + 1 < n {
            lemma_spacing_last(b, i + 1, false, o);
        } else {
            assert(spacing(b, i + 1, false, o) == o);
            assert(b[i] == b.last());
        }
    } else if b[i] == ' ' || b[i] == '\t' {
        assert(i + 1 < n);
        lemma_skip_blanks_before_last(b, i + 1);
        let k = skip_blanks(b, i + 1);
        lemma_spacing_last(b, k, false, out.push(' '));
    } else {
        let o = out.push(b[i]);
        if i + 1 < n {
            lemma_spacing_last(b, i + 1, false, o);
        } else {
            assert(spacing(b, i + 1, false, o) == o);
            assert(b[i] == b.last());
        }
    }
}

proof fn lemma_ws_blank(c: char)
    ensures
        (c == ' ' || c == '\t') ==> is_ws(c),
{
    vstd::utf8::char_u32_cast(c, c as u32);
    if c == ' ' {
        assert((c as u32) == 0x20) by {
            assert((' ' as u32) == 0x20);
        }
    }
    if c == '\t' {
        assert((c as u32) == 0x09) by {
            assert(('\t' as u32) == 0x09);
        }
    }
}

/// A formatted non-empty trimmed line does not end with a space or a tab.
proof fn lemma_format_line_end(t: Seq<char>)
    requires
        t.len() > 0,
        !is_ws(t[0]),
        !is_ws(t.last()),
    ensures
        format_line_spec(t).len() > 0,
        format_line_spec(t).last() != ' ' && format_line_spec(t).last() != '\t',
{
    lemma_ws_blank(t.last());
    lemma_ws_blank(t[0]);
    lemma_comment_index_bounds(t, 0, false);
    let k = comment_index(t, 0, false);
    let head = t.take(k);
    let code = trim_end_spec(head);
    let comment = t.skip(k);
    lemma_trim_end_prefix(head);
    if code.len() > 0 {
        lemma_ws_blank(code.last());
        lemma_spacing_last(code, 0, false, seq![]);
        let formatted = spacing(code, 0, false, seq![]);
        if comment.len() > 0 {
            assert(comment.last() == t.last());
            if k < t.len() {
                assert(comment[0] == t[k]);
            }
            let c = trim_start_spec(comment);
            lemma_trim_no_newline_free_start(comment);
            assert(c.len() > 0 && c.last() == t.last());
            assert((formatted + seq![' '] + c).last() == c.last());
        }
    } else {
        if k > 0 {
            assert(head[0] == t[0]);
        }
        assert(k == 0);
        assert(comment =~= t);
        lemma_strip_spaces_id(t);
    }
}

proof fn lemma_trim_no_newline_free_start(s: Seq<char>)
    requires
        s.len() > 0,
        !is_ws(s.last()),
    ensures
        trim_start_spec(s).len() > 0,
        trim_start_spec(s).last() == s.last(),
    decreases s.len(),
{
    if is_ws(s[0]) {
        assert(s.len() > 1);
        assert(s.drop_first().last() == s.last());
        lemma_trim_no_newline_free_start(s.drop_first());
    }
}

/// The formatter's state invariant for trailing blanks: the output so far
/// is empty or ends a line, and no line of it ends with a space or a tab.
pub open spec fn format_state_trimmed(st: (Seq<char>, int, int)) -> bool {
    &&& no_trailing_blank(st.0)
    &&& st.0.len() == 0 || st.0.last() == '\n'
}

proof fn lemma_format_step_trimmed(st: (Seq<char>, int, int), raw: Seq<char>)
    requires
        format_state_trimmed(st),
        no_newline(raw),
    ensures
        format_state_trimmed(format_step(st, raw)),
{
    let out = st.0;
    let t = trim_spec(raw);
    lemma_trim_no_newline(raw);
    if t.len() == 0 {
        if st.2 + 1 <= 1 {
            let o = out.push('\n');
            assert forall|k: int| 0 < k < o.len() && #[trigger] o[k] == '\n' implies o[k - 1] != ' ' && o[k - 1] != '\t' by {
                if k < out.len() {
                    assert(o[k] == out[k] && o[k - 1] == out[k - 1]);
                } else {
                    assert(o[k - 1] == out.last());
                }
            }
        }
    } else {
        let closes_first = t[0] == '}';
        let d1 = if closes_first { max_int(st.1 - 1, 0) } else { st.1 };
        let a = trim_start_spec(raw);
        lemma_trim_end_prefix(a);
        lemma_format_line_shape(t);
        lemma_format_line_end(t);
        lemma_indent_spaces(d1);
        let fl = format_line_spec(t);
        let x = indent(d1) + fl;
        assert(no_newline(x)) by {
            assert forall|k: int| 0 <= k < indent(d1).len() implies #[trigger] indent(d1)[k] != '\n' by {
                assert(indent(d1)[k] == ' ');
            }
            lemma_concat_no_newline(indent(d1), fl);
        }
        assert(x.last() == fl.last());
        let o = out + x + seq!['\n'];
        assert forall|k: int| 0 < k < o.len() && #[trigger] o[k] == '\n' implies o[k - 1] != ' ' && o[k - 1] != '\t' by {
            if k < out.len() {
                assert(o[k] == out[k] && o[k - 1] == out[k - 1]);
            } else if k < out.len() + x.len() {
                assert(o[k] == x[k - out.len()]);
            } else {
                assert(o[k - 1] == x.last());
            }
        }
        assert(o =~= format_step(st, raw).0);
    }
}

proof fn lemma_format_lines_trimmed(lines: Seq<Seq<char>>, st: (Seq<char>, int, int))
    requires
        format_state_trimmed(st),
        forall|k: int| 0 <= k < lines.len() ==> no_newline(#[trigger] lines[k]),
    ensures
        format_state_trimmed(format_lines(lines, st)),
    decreases lines.len(),
{
    if lines.len() > 0 {
        lemma_format_step_trimmed(st, lines[0]);
        assert forall|k: int| 0 <= k < lines.drop_first().len() implies no_newline(#[trigger] lines.drop_first()[k]) by {
            assert(lines.drop_first()[k] == lines[k + 1]);
        }
        lemma_format_lines_trimmed(lines.drop_first(), format_step(st, lines[0]));
    }
}

/// No line of the formatted text ends with a space or a tab.
pub proof fn law_format_strips_trailing_whitespace(source: Seq<char>)
    ensures
        no_trailing_blank(format_spec(source)),
{
    lemma_lines_no_newline(source);
    lemma_format_lines_trimmed(lines_spec(source), (seq![], 0, 0));
    let s = format_lines(lines_spec(source), (seq![], 0, 0)).0;
    lemma_strip_blank_tail(s);
    let t = strip_blank_tail(s);
    assert(no_trailing_blank(t)) by {
        assert forall|k: int| 0 < k < t.len() && #[trigger] t[k] == '\n' implies t[k - 1] != ' ' && t[k - 1] != '\t' by {
            assert(t[k] == s[k] && t[k - 1] == s[k - 1]);
        }
    }
    if !(t.len() > 0 && t.last() == '\n') {
        let o = t.push('\n');
        assert(t.len() == 0) by {
            if t.len() > 0 {
                assert(t.last() == s[t.len() - 1]);
                lemma_strip_blank_tail_ends(s);
            }
        }
        assert forall|k: int| 0 < k < o.len() && #[trigger] o[k] == '\n' implies o[k - 1] != ' ' && o[k - 1] != '\t' by {}
    }
}

proof fn lemma_strip_blank_tail_ends(s: Seq<char>)
    requires
        s.len() == 0 || s.last() == '\n',
    ensures
        strip_blank_tail(s).len() == 0 || strip_blank_tail(s).last() == '\n',
    decreases s.len(),
{
    if s.len() >= 2 && s.last() == '\n' && s[s.len() - 2] == '\n' {
        assert(s.drop_last().last() == '\n');
        lemma_strip_blank_tail_ends(s.drop_last());
    }
}

// ---------------------------------------------------------------------------
// Spacing is stable
// ---------------------------------------------------------------------------

/// The spacing rules keep what was emitted before: the result starts with
/// `out`.
proof fn lemma_spacing_prefix(b: Seq<char>, i: int, in_str: bool, out: Seq<char>)
    requires
        0 <= i,
    ensures
        spacing(b, i, in_str, out).len() >= out.len(),
        spacing(b, i, in_str, out).take(out.len() as int) == out,
    decreases b.len() - i,
{
    if i < b.len() {
        let o: Seq<char>;
        let j: int;
        let s2: bool;
        if in_str {
            if b[i] == '\\' && i + 1 < b.len() {
                o = out.push(b[i]).push(b[i + 1]);
                j = i + 2;
                s2 = true;
            } else if b[i] == '"' {
                o = out.push(b[i]);
                j = i + 1;
                s2 = false;
            } else {
                o = out.push(b[i]);
                j = i + 1;
                s2 = true;
            }
        } else if b[i] == '"' {
            o = out.push('"');
            j = i + 1;
            s2 = true;
        } else if b[i] == ',' {
            lemma_skip_blanks(b, i + 1);
            let k = skip_blanks(b, i + 1);
            o = if k < b.len() {
                out.push(',').push(' ')
            } else {
                out.push(',')
            };
            j = k;
            s2 = false;
        } else if b[i] == '(' {
            o = if ends_with_keyword(out) {
                out.push(' ').push('(')
            } else {
                out.push('(')
            };
            j = i + 1;
            s2 = false;
        } else if b[i] == '{' {
            o = if out.len() > 0 && out.last() != ' ' && out.last() != '\t' {
                out.push(' ').push('{')
            } else {
                out.push('{')
            };
            j = i + 1;
            s2 = false;
        } else if b[i] == ' ' || b[i] == '\t' {
            lemma_skip_blanks(b, i + 1);
            o = out.push(' ');
            j = skip_blanks(b, i + 1);
            s2 = false;
        } else {
            o = out.push(b[i]);
            j = i + 1;
            s2 = false;
        }
        assert(spacing(b, i, in_str, out) == spacing(b, j, s2, o));
        lemma_spacing_prefix(b, j, s2, o);
        assert(o.len() >= out.len());
        assert(o.take(out.len() as int) =~= out);
        let r = spacing(b, j, s2, o);
        assert(r.take(out.len() as int) =~= r.take(o.len() as int).take(out.len() as int));
    }
}

proof fn lemma_no_keyword_after_space(s: Seq<char>)
    requires
        s.len() > 0,
        s.last() == ' ',
    ensures
        !ends_with_keyword(s),
{
    assert(trailing_ident(s) =~= Seq::<char>::empty());
    assert(seq!['i', 'f'].len() == 2);
}

/// The first character that the spacing rules emit from position `j`: the
/// character there (inside a string literal or after a space, where it is no
/// blank) or a space.
proof fn lemma_spacing_first(b: Seq<char>, j: int, in_str: bool, o: Seq<char>)
    requires
        0 <= j < b.len(),
    ensures
        spacing(b, j, in_str, o).len() > o.len(),
        in_str ==> spacing(b, j, in_str, o)[o.len() as int] == b[j],
        !in_str ==> spacing(b, j, in_str, o)[o.len() as int] == b[j] || spacing(b, j, in_str, o)[o.len() as int] == ' ',
        !in_str && b[j] != ' ' && b[j] != '\t' && o.len() > 0 && o.last() == ' ' ==> spacing(b, j, in_str, o)[o.len() as int] == b[j],
        !in_str && b[j] != ' ' && b[j] != '\t' && o.len() == 0 ==> spacing(b, j, in_str, o)[o.len() as int] == b[j],
{
    let r = spacing(b, j, in_str, o);
    let o1: Seq<char>;
    let k: int;
    let s2: bool;
    if in_str {
        if b[j] == '\\' && j + 1 < b.len() {
            o1 = o.push(b[j]).push(b[j + 1]);
            k = j + 2;
            s2 = true;
        } else if b[j] == '"' {
            o1 = o.push(b[j]);
            k = j + 1;
            s2 = false;
        } else {
            o1 = o.push(b[j]);
            k = j + 1;
            s2 = true;
        }
    } else if b[j] == '"' {
        o1 = o.push('"');
        k = j + 1;
        s2 = true;
    } else if b[j] == ',' {
        lemma_skip_blanks(b, j + 1);
        let m = skip_blanks(b, j + 1);
        o1 = if m < b.len() {
            o.push(',').push(' ')
        } else {
            o.push(',')
        };
        k = m;
        s2 = false;
    } else if b[j] == '(' {
        if o.len() > 0 && o.last() == ' ' {
            lemma_no_keyword_after_space(o);
        }
        if o.len() == 0 {
            assert(trailing_ident(o) =~= Seq::<char>::empty());
            assert(seq!['i', 'f'].len() == 2);
        }
        o1 = if ends_with_keyword(o) {
            o.push(' ').push('(')
        } else {
            o.push('(')
        };
        k = j + 1;
        s2 = false;
    } else if b[j] == '{' {
        o1 = if o.len() > 0 && o.last() != ' ' && o.last() != '\t' {
            o.push(' ').push('{')
        } else {
            o.push('{')
        };
        k = j + 1;
        s2 = false;
    } else if b[j] == ' ' || b[j] == '\t' {
        lemma_skip_blanks(b, j + 1);
        o1 = o.push(' ');
        k = skip_blanks(b, j + 1);
        s2 = false;
    } else {
        o1 = o.push(b[j]);
        k = j + 1;
        s2 = false;
    }
    assert(r == spacing(b, k, s2, o1));
    lemma_spacing_prefix(b, k, s2, o1);
    assert(r[o.len() as int] == r.take(o1.len() as int)[o.len() as int]);
    assert(r[o.len() as int] == o1[o.len() as int]);
}

/// Along the run of the spacing rules over `b`, the rules run over their
/// own result `y` reproduce it from the matching point on.
proof fn lemma_spacing_stable(b: Seq<char>, i: int, in_str: bool, out: Seq<char>, y: Seq<char>)
    requires
        0 <= i,
        y == spacing(b, i, in_str, out),
    ensures
        spacing(y, out.len() as int, in_str, out) == y,
    decreases b.len() - i,
{
    let p = out.len() as int;
    let n = b.len() as int;
    if i >= n {
        assert(y == out);
    } else if in_str {
        if b[i] == '\\' && i + 1 < n {
            let o2 = out.push(b[i]).push(b[i + 1]);
            lemma_spacing_prefix(b, i + 2, true, o2);
            assert(y[p] == y.take(o2.len() as int)[p]);
            assert(y[p + 1] == y.take(o2.len() as int)[p + 1]);
            assert(y[p] == '\\' && y[p + 1] == b[i + 1]);
            assert(out.push(y[p]).push(y[p + 1]) == o2);
            assert(spacing(y, p, true, out) == spacing(y, p + 2, true, o2));
            lemma_spacing_stable(b, i + 2, true, o2, y);
        } else if b[i] == '"' {
            let o1 = out.push(b[i]);
            lemma_spacing_prefix(b, i + 1, false, o1);
            assert(y[p] == y.take(o1.len() as int)[p]);
            assert(spacing(y, p, true, out) == spacing(y, p + 1, false, o1));
            lemma_spacing_stable(b, i + 1, false, o1, y);
        } else {
            let o1 = out.push(b[i]);
            lemma_spacing_prefix(b, i + 1, true, o1);
            assert(y[p] == y.take(o1.len() as int)[p]);
            if b[i] == '\\' {
                assert(i + 1 == n);
                assert(spacing(b, i + 1, true, o1) == o1);
                assert(y == o1);
                assert(spacing(y, p + 1, true, o1) == o1);
            } else {
                assert(spacing(y, p, true, out) == spacing(y, p + 1, true, o1));
            }
            lemma_spacing_stable(b, i + 1, true, o1, y);
        }
    } else if b[i] == '"' {
        let o1 = out.push('"');
        lemma_spacing_prefix(b, i + 1, true, o1);
        assert(y[p] == y.take(o1.len() as int)[p]);
        assert(spacing(y, p, false, out) == spacing(y, p + 1, true, o1));
        lemma_spacing_stable(b, i + 1, true, o1, y);
    } else if b[i] == ',' {
        lemma_skip_blanks(b, i + 1);
        let k = skip_blanks(b, i + 1);
        if k < n {
            let o2 = out.push(',').push(' ');
            lemma_spacing_prefix(b, k, false, o2);
            lemma_spacing_first(b, k, false, o2);
            assert(y[p] == y.take(o2.len() as int)[p]);
            assert(y[p + 1] == y.take(o2.len() as int)[p + 1]);
            assert(y[p + 2] == b[k]);
            assert(skip_blanks(y, p + 2) == p + 2);
            assert(skip_blanks(y, p + 1) == p + 2);
            assert(spacing(y, p, false, out) == spacing(y, p + 2, false, o2));
            lemma_spacing_stable(b, k, false, o2, y);
        } else {
            let o1 = out.push(',');
            assert(k == n);
            assert(y == spacing(b, k, false, o1));
            assert(spacing(b, k, false, o1) == o1);
            assert(y == o1);
            assert(y[p] == ',');
            assert(skip_blanks(y, p + 1) == p + 1);
            assert(spacing(y, p, false, out) == spacing(y, p + 1, false, o1));
            assert(spacing(y, p + 1, false, o1) == o1);
        }
    } else if b[i] == '(' {
        if ends_with_keyword(out) {
            let o2 = out.push(' ').push('(');
            lemma_spacing_prefix(b, i + 1, false, o2);
            assert(y[p] == y.take(o2.len() as int)[p]);
            assert(y[p + 1] == y.take(o2.len() as int)[p + 1]);
            assert(skip_blanks(y, p + 1) == p + 1);
            lemma_no_keyword_after_space(out.push(' '));
            assert(spacing(y, p + 1, false, out.push(' ')) == spacing(y, p + 2, false, o2));
            assert(spacing(y, p, false, out) == spacing(y, p + 1, false, out.push(' ')));
            lemma_spacing_stable(b, i + 1, false, o2, y);
        } else {
            let o1 = out.push('(');
            lemma_spacing_prefix(b, i + 1, false, o1);
            assert(y[p] == y.take(o1.len() as int)[p]);
            assert(spacing(y, p, false, out) == spacing(y, p + 1, false, o1));
            lemma_spacing_stable(b, i + 1, false, o1, y);
        }
    } else if b[i] == '{' {
        if out.len() > 0 && out.last() != ' ' && out.last() != '\t' {
            let o2 = out.push(' ').push('{');
            lemma_spacing_prefix(b, i + 1, false, o2);
            assert(y[p] == y.take(o2.len() as int)[p]);
            assert(y[p + 1] == y.take(o2.len() as int)[p + 1]);
            assert(skip_blanks(y, p + 1) == p + 1);
            assert(out.push(' ').last() == ' ');
            assert(spacing(y, p + 1, false, out.push(' ')) == spacing(y, p + 2, false, o2));
            assert(spacing(y, p, false, out) == spacing(y, p + 1, false, out.push(' ')));
            lemma_spacing_stable(b, i + 1, false, o2, y);
        } else {
            let o1 = out.push('{');
            lemma_spacing_prefix(b, i + 1, false, o1);
            assert(y[p] == y.take(o1.len() as int)[p]);
            assert(spacing(y, p, false, out) == spacing(y, p + 1, false, o1));
            lemma_spacing_stable(b, i + 1, false, o1, y);
        }
    } else if b[i] == ' ' || b[i] == '\t' {
        lemma_skip_blanks(b, i + 1);
        let k = skip_blanks(b, i + 1);
        let o1 = out.push(' ');
        lemma_spacing_prefix(b, k, false, o1);
        assert(y[p] == y.take(o1.len() as int)[p]);
        if k < n {
            lemma_spacing_first(b, k, false, o1);
            assert(y[p + 1] == b[k]);
        } else {
            assert(y == o1);
        }
        assert(skip_blanks(y, p + 1) == p + 1);
        assert(spacing(y, p, false, out) == spacing(y, p + 1, false, o1));
        lemma_spacing_stable(b, k, false, o1, y);
    } else {
        let o1 = out.push(b[i]);
        lemma_spacing_prefix(b, i + 1, false, o1);
        assert(y[p] == y.take(o1.len() as int)[p]);
        assert(spacing(y, p, false, out) == spacing(y, p + 1, false, o1));
        lemma_spacing_stable(b, i + 1, false, o1, y);
    }
}

/// The spacing rules change nothing in text they have already spaced.
pub proof fn law_spacing_idempotent(code: Seq<char>)
    ensures
        spacing(spacing(code, 0, false, seq![]), 0, false, seq![]) == spacing(code, 0, false, seq![]),
{
    lemma_spacing_stable(code, 0, false, seq![], spacing(code, 0, false, seq![]));
}


// ---------------------------------------------------------------------------
// Formatting a formatted line
// ---------------------------------------------------------------------------

/// Whether the comment scan of `s` from `i`, with `in_str` telling whether
/// `i` lies inside a string literal, reaches offset `j` outside a string
/// literal without meeting a line comment on the way.
pub open spec fn scan_reaches(s: Seq<char>, i: int, in_str: bool, j: int) -> bool
    decreases s.len() - i,
{
    if i == j {
        !in_str
    } else if i < 0 || i > j || i >= s.len() {
        false
    } else if s[i] == '\\' && in_str {
        if i + 1 < s.len() {
            scan_reaches(s, i + 2, in_str, j)
        } else {
            false
        }
    } else if s[i] == '"' {
        scan_reaches(s, i + 1, !in_str, j)
    } else if !in_str && s[i] == '/' && i + 1 < s.len() && s[i + 1] == '/' {
        false
    } else {
        scan_reaches(s, i + 1, in_str, j)
    }
}

proof fn lemma_not_special_ws(c: char)
    requires
        is_ws(c),
    ensures
        c != '\\' && c != '"' && c != '/',
{
    vstd::utf8::char_u32_cast(c, c as u32);
    if c == '\\' {
        assert(('\\' as u32) == 0x5C);
    }
    if c == '"' {
        assert(('"' as u32) == 0x22);
    }
    if c == '/' {
        assert(('/' as u32) == 0x2F);
    }
}

proof fn lemma_slash_not_ws()
    ensures
        !is_ws('/'),
{
    assert(('/' as u32) == 0x2F);
}

proof fn lemma_scan_reaches_index(s: Seq<char>, i: int, st: bool, j: int)
    requires
        scan_reaches(s, i, st, j),
        j <= s.len(),
    ensures
        comment_index(s, i, st) == comment_index(s, j, false),
    decreases s.len() - i,
{
    if i != j {
        if s[i] == '\\' && st {
            lemma_scan_reaches_index(s, i + 2, st, j);
        } else if s[i] == '"' {
            lemma_scan_reaches_index(s, i + 1, !st, j);
        } else {
            lemma_scan_reaches_index(s, i + 1, st, j);
        }
    }
}

proof fn lemma_index_scan_reaches(s: Seq<char>, i: int, st: bool)
    requires
        0 <= i,
        comment_index(s, i, st) < s.len(),
    ensures
        scan_reaches(s, i, st, comment_index(s, i, st)),
        s[comment_index(s, i, st)] == '/',
        comment_index(s, i, st) + 1 < s.len(),
        s[comment_index(s, i, st) + 1] == '/',
    decreases s.len() - i,
{
    let k = comment_index(s, i, st);
    if i < s.len() {
        if s[i] == '\\' && st {
            if i + 1 < s.len() {
                lemma_index_scan_reaches(s, i + 2, st);
                lemma_comment_index_bounds(s, i + 2, st);
            }
        } else if s[i] == '"' {
            lemma_index_scan_reaches(s, i + 1, !st);
            lemma_comment_index_bounds(s, i + 1, !st);
        } else if !st && s[i] == '/' && i + 1 < s.len() && s[i + 1] == '/' {
        } else {
            lemma_index_scan_reaches(s, i + 1, st);
            lemma_comment_index_bounds(s, i + 1, st);
        }
    }
}

proof fn lemma_scan_ws_state(s: Seq<char>, i: int, st: bool, j: int)
    requires
        0 <= i <= j <= s.len(),
        scan_reaches(s, i, st, j),
        forall|q: int| i <= q < j ==> is_ws(#[trigger] s[q]),
    ensures
        !st,
    decreases j - i,
{
    if i < j {
        lemma_not_special_ws(s[i]);
        lemma_scan_ws_state(s, i + 1, st, j);
    }
}

proof fn lemma_scan_prefix(s: Seq<char>, i: int, st: bool, m: int, j: int)
    requires
        0 <= i <= m <= j <= s.len(),
        scan_reaches(s, i, st, j),
        forall|q: int| m <= q < j ==> is_ws(#[trigger] s[q]),
    ensures
        scan_reaches(s.take(m), i, st, m),
    decreases m - i,
{
    let c = s.take(m);
    if i == m {
        lemma_scan_ws_state(s, m, st, j);
    } else {
        assert(c[i] == s[i]);
        if s[i] == '\\' && st {
            if i + 1 < m {
                assert(c[i + 1] == s[i + 1]);
                lemma_scan_prefix(s, i + 2, st, m, j);
            } else {
                if m + 1 <= j {
                    lemma_scan_ws_state(s, m + 1, st, j);
                }
            }
        } else if s[i] == '"' {
            lemma_scan_prefix(s, i + 1, !st, m, j);
        } else {
            if i + 1 < m {
                assert(c[i + 1] == s[i + 1]);
            }
            lemma_scan_prefix(s, i + 1, st, m, j);
        }
    }
}

proof fn lemma_scan_blanks(c: Seq<char>, j: int, k: int, st: bool)
    requires
        0 <= j <= k <= c.len(),
        forall|q: int| j <= q < k ==> #[trigger] c[q] == ' ' || c[q] == '\t',
    ensures
        scan_reaches(c, j, st, c.len() as int) ==> scan_reaches(c, k, st, c.len() as int),
        comment_index(c, j, st) == comment_index(c, k, st),
    decreases k - j,
{
    if j < k {
        lemma_scan_blanks(c, j + 1, k, st);
    }
}

proof fn lemma_skip_blanks_all(b: Seq<char>, j: int)
    requires
        0 <= j <= b.len(),
    ensures
        forall|q: int| j <= q < skip_blanks(b, j) ==> #[trigger] b[q] == ' ' || b[q] == '\t',
    decreases b.len() - j,
{
    if j < b.len() && (b[j] == ' ' || b[j] == '\t') {
        lemma_skip_blanks_all(b, j + 1);
    }
}

/// The comment scan of the spaced text mirrors the scan of the code: where
/// the code holds no line comment, neither does its spaced form.
proof fn lemma_spaced_no_comment(c: Seq<char>, i: int, st: bool, out: Seq<char>, y: Seq<char>)
    requires
        0 <= i,
        y == spacing(c, i, st, out),
        comment_index(c, i, st) == c.len(),
    ensures
        comment_index(y, out.len() as int, st) == y.len(),
    decreases c.len() - i,
{
    let p = out.len() as int;
    let n = c.len() as int;
    if i >= n {
        assert(y == out);
    } else if st {
        if c[i] == '\\' && i + 1 < n {
            let o2 = out.push(c[i]).push(c[i + 1]);
            lemma_spacing_prefix(c, i + 2, true, o2);
            assert(y[p] == y.take(o2.len() as int)[p]);
            assert(y[p + 1] == y.take(o2.len() as int)[p + 1]);
            assert(comment_index(c, i, st) == comment_index(c, i + 2, true));
            assert(comment_index(y, p, st) == comment_index(y, p + 2, true));
            lemma_spaced_no_comment(c, i + 2, true, o2, y);
        } else if c[i] == '"' {
            let o1 = out.push(c[i]);
            lemma_spacing_prefix(c, i + 1, false, o1);
            assert(y[p] == y.take(o1.len() as int)[p]);
            assert(comment_index(c, i, st) == comment_index(c, i + 1, false));
            assert(comment_index(y, p, st) == comment_index(y, p + 1, false));
            lemma_spaced_no_comment(c, i + 1, false, o1, y);
        } else {
            let o1 = out.push(c[i]);
            lemma_spacing_prefix(c, i + 1, true, o1);
            assert(y[p] == y.take(o1.len() as int)[p]);
            if c[i] == '\\' {
                assert(spacing(c, i + 1, true, o1) == o1);
                assert(y.len() == p + 1);
                assert(comment_index(y, p, st) == y.len());
            } else {
                assert(comment_index(c, i, st) == comment_index(c, i + 1, true));
                assert(comment_index(y, p, st) == comment_index(y, p + 1, true));
                lemma_spaced_no_comment(c, i + 1, true, o1, y);
            }
        }
    } else if c[i] == '"' {
        let o1 = out.push('"');
        lemma_spacing_prefix(c, i + 1, true, o1);
        assert(y[p] == y.take(o1.len() as int)[p]);
        assert(comment_index(c, i, st) == comment_index(c, i + 1, true));
        assert(comment_index(y, p, st) == comment_index(y, p + 1, true));
        lemma_spaced_no_comment(c, i + 1, true, o1, y);
    } else if c[i] == ',' || c[i] == ' ' || c[i] == '\t' {
        lemma_skip_blanks(c, i + 1);
        let k = skip_blanks(c, i + 1);
        lemma_skip_blanks_all(c, i + 1);
        lemma_scan_blanks(c, i + 1, k, false);
        assert(comment_index(c, i, st) == comment_index(c, i + 1, false));
        if c[i] == ',' && k < n {
            let o2 = out.push(',').push(' ');
            lemma_spacing_prefix(c, k, false, o2);
            assert(y[p] == y.take(o2.len() as int)[p]);
            assert(y[p + 1] == y.take(o2.len() as int)[p + 1]);
            assert(comment_index(y, p, st) == comment_index(y, p + 1, false));
            assert(comment_index(y, p + 1, st) == comment_index(y, p + 2, false));
            lemma_spaced_no_comment(c, k, false, o2, y);
        } else if c[i] == ',' {
            assert(spacing(c, k, false, out.push(',')) == out.push(','));
            assert(y[p] == ',');
            assert(comment_index(y, p, st) == comment_index(y, p + 1, false));
        } else {
            let o1 = out.push(' ');
            lemma_spacing_prefix(c, k, false, o1);
            assert(y[p] == y.take(o1.len() as int)[p]);
            assert(comment_index(y, p, st) == comment_index(y, p + 1, false));
            lemma_spaced_no_comment(c, k, false, o1, y);
        }
    } else if c[i] == '(' || c[i] == '{' {
        let two = if c[i] == '(' {
            ends_with_keyword(out)
        } else {
            out.len() > 0 && out.last() != ' ' && out.last() != '\t'
        };
        assert(comment_index(c, i, st) == comment_index(c, i + 1, false));
        if two {
            let o2 = out.push(' ').push(c[i]);
            assert(spacing(c, i, st, out) == spacing(c, i + 1, false, o2));
            lemma_spacing_prefix(c, i + 1, false, o2);
            assert(y[p] == y.take(o2.len() as int)[p]);
            assert(y[p + 1] == y.take(o2.len() as int)[p + 1]);
            assert(comment_index(y, p, st) == comment_index(y, p + 1, false));
            assert(comment_index(y, p + 1, st) == comment_index(y, p + 2, false));
            lemma_spaced_no_comment(c, i + 1, false, o2, y);
        } else {
            let o1 = out.push(c[i]);
            assert(spacing(c, i, st, out) == spacing(c, i + 1, false, o1));
            lemma_spacing_prefix(c, i + 1, false, o1);
            assert(y[p] == y.take(o1.len() as int)[p]);
            assert(comment_index(y, p, st) == comment_index(y, p + 1, false));
            lemma_spaced_no_comment(c, i + 1, false, o1, y);
        }
    } else {
        let o1 = out.push(c[i]);
        lemma_spacing_prefix(c, i + 1, false, o1);
        assert(y[p] == y.take(o1.len() as int)[p]);
        if c[i] == '/' && i + 1 < n {
            lemma_spacing_first(c, i + 1, false, o1);
            assert(y[p + 1] != '/');
        }
        assert(comment_index(c, i, st) == comment_index(c, i + 1, false));
        assert(comment_index(y, p, st) == comment_index(y, p + 1, false));
        lemma_spaced_no_comment(c, i + 1, false, o1, y);
    }
}

/// Where the comment scan of the code reaches its end outside a string
/// literal, the scan of a text that starts with the spaced code and goes on
/// with a space reaches the end of the spaced code in the same way.
proof fn lemma_spaced_scan(c: Seq<char>, i: int, st: bool, out: Seq<char>, y: Seq<char>, big: Seq<char>)
    requires
        0 <= i,
        y == spacing(c, i, st, out),
        scan_reaches(c, i, st, c.len() as int),
        big.len() > y.len(),
        big.take(y.len() as int) == y,
        big[y.len() as int] == ' ',
    ensures
        scan_reaches(big, out.len() as int, st, y.len() as int),
    decreases c.len() - i,
{
    let p = out.len() as int;
    let n = c.len() as int;
    let e = y.len() as int;
    lemma_spacing_prefix(c, i, st, out);
    if i >= n {
        assert(y == out);
    } else if st {
        if c[i] == '\\' && i + 1 < n {
            let o2 = out.push(c[i]).push(c[i + 1]);
            lemma_spacing_prefix(c, i + 2, true, o2);
            assert(big[p] == y[p] && y[p] == y.take(o2.len() as int)[p]);
            assert(big[p + 1] == y[p + 1] && y[p + 1] == y.take(o2.len() as int)[p + 1]);
            assert(scan_reaches(c, i, st, n) == scan_reaches(c, i + 2, true, n));
            assert(scan_reaches(big, p, st, e) == scan_reaches(big, p + 2, true, e));
            lemma_spaced_scan(c, i + 2, true, o2, y, big);
        } else if c[i] == '"' {
            let o1 = out.push(c[i]);
            lemma_spacing_prefix(c, i + 1, false, o1);
            assert(big[p] == y[p] && y[p] == y.take(o1.len() as int)[p]);
            assert(scan_reaches(c, i, st, n) == scan_reaches(c, i + 1, false, n));
            assert(scan_reaches(big, p, st, e) == scan_reaches(big, p + 1, false, e));
            lemma_spaced_scan(c, i + 1, false, o1, y, big);
        } else {
            let o1 = out.push(c[i]);
            lemma_spacing_prefix(c, i + 1, true, o1);
            assert(big[p] == y[p] && y[p] == y.take(o1.len() as int)[p]);
            assert(scan_reaches(c, i, st, n) == scan_reaches(c, i + 1, true, n));
            assert(scan_reaches(big, p, st, e) == scan_reaches(big, p + 1, true, e));
            lemma_spaced_scan(c, i + 1, true, o1, y, big);
        }
    } else if c[i] == '"' {
        let o1 = out.push('"');
        lemma_spacing_prefix(c, i + 1, true, o1);
        assert(big[p] == y[p] && y[p] == y.take(o1.len() as int)[p]);
        assert(scan_reaches(c, i, st, n) == scan_reaches(c, i + 1, true, n));
        assert(scan_reaches(big, p, st, e) == scan_reaches(big, p + 1, true, e));
        lemma_spaced_scan(c, i + 1, true, o1, y, big);
    } else if c[i] == ',' || c[i] == ' ' || c[i] == '\t' {
        lemma_skip_blanks(c, i + 1);
        let k = skip_blanks(c, i + 1);
        lemma_skip_blanks_all(c, i + 1);
        lemma_scan_blanks(c, i + 1, k, false);
        assert(scan_reaches(c, i, st, n) == scan_reaches(c, i + 1, false, n));
        if c[i] == ',' && k < n {
            let o2 = out.push(',').push(' ');
            lemma_spacing_prefix(c, k, false, o2);
            assert(big[p] == y[p] && y[p] == y.take(o2.len() as int)[p]);
            assert(big[p + 1] == y[p + 1] && y[p + 1] == y.take(o2.len() as int)[p + 1]);
            assert(scan_reaches(big, p, st, e) == scan_reaches(big, p + 1, false, e));
            assert(scan_reaches(big, p + 1, st, e) == scan_reaches(big, p + 2, false, e));
            lemma_spaced_scan(c, k, false, o2, y, big);
        } else if c[i] == ',' {
            assert(spacing(c, k, false, out.push(',')) == out.push(','));
            assert(big[p] == y[p] && y[p] == ',');
            assert(scan_reaches(big, p, st, e) == scan_reaches(big, p + 1, false, e));
        } else {
            let o1 = out.push(' ');
            lemma_spacing_prefix(c, k, false, o1);
            assert(big[p] == y[p] && y[p] == y.take(o1.len() as int)[p]);
            assert(scan_reaches(big, p, st, e) == scan_reaches(big, p + 1, false, e));
            lemma_spaced_scan(c, k, false, o1, y, big);
        }
    } else if c[i] == '(' || c[i] == '{' {
        let two = if c[i] == '(' {
            ends_with_keyword(out)
        } else {
            out.len() > 0 && out.last() != ' ' && out.last() != '\t'
        };
        assert(scan_reaches(c, i, st, n) == scan_reaches(c, i + 1, false, n));
        if two {
            let o2 = out.push(' ').push(c[i]);
            assert(spacing(c, i, st, out) == spacing(c, i + 1, false, o2));
            lemma_spacing_prefix(c, i + 1, false, o2);
            assert(big[p] == y[p] && y[p] == y.take(o2.len() as int)[p]);
            assert(big[p + 1] == y[p + 1] && y[p + 1] == y.take(o2.len() as int)[p + 1]);
            assert(scan_reaches(big, p, st, e) == scan_reaches(big, p + 1, false, e));
            assert(scan_reaches(big, p + 1, st, e) == scan_reaches(big, p + 2, false, e));
            lemma_spaced_scan(c, i + 1, false, o2, y, big);
        } else {
            let o1 = out.push(c[i]);
            assert(spacing(c, i, st, out) == spacing(c, i + 1, false, o1));
            lemma_spacing_prefix(c, i + 1, false, o1);
            assert(big[p] == y[p] && y[p] == y.take(o1.len() as int)[p]);
            assert(scan_reaches(big, p, st, e) == scan_reaches(big, p + 1, false, e));
            lemma_spaced_scan(c, i + 1, false, o1, y, big);
        }
    } else {
        let o1 = out.push(c[i]);
        lemma_spacing_prefix(c, i + 1, false, o1);
        assert(big[p] == y[p] && y[p] == y.take(o1.len() as int)[p]);
        if c[i] == '/' {
            if i + 1 < n {
                lemma_spacing_first(c, i + 1, false, o1);
                assert(big[p + 1] == y[p + 1]);
                assert(big[p + 1] != '/');
            } else {
                assert(spacing(c, i + 1, false, o1) == o1);
                assert(big[p + 1] == ' ');
            }
        }
        assert(scan_reaches(c, i, st, n) == scan_reaches(c, i + 1, false, n));
        assert(scan_reaches(big, p, st, e) == scan_reaches(big, p + 1, false, e));
        lemma_spaced_scan(c, i + 1, false, o1, y, big);
    }
}

proof fn lemma_trim_end_tail(s: Seq<char>)
    ensures
        forall|q: int| trim_end_spec(s).len() <= q < s.len() ==> is_ws(#[trigger] s[q]),
    decreases s.len(),
{
    lemma_trim_end_prefix(s);
    if s.len() > 0 && is_ws(s.last()) {
        lemma_trim_end_tail(s.drop_last());
        assert forall|q: int| trim_end_spec(s).len() <= q < s.len() implies is_ws(#[trigger] s[q]) by {
            if q < s.len() - 1 {
                assert(s.drop_last()[q] == s[q]);
            }
        }
    }
}

/// Formatting a line that is already formatted changes nothing.
pub proof fn law_format_line_idempotent(t: Seq<char>)
    requires
        t.len() > 0,
        !is_ws(t[0]),
        !is_ws(t.last()),
    ensures
        format_line_spec(format_line_spec(t)) == format_line_spec(t),
{
    let n = t.len() as int;
    lemma_comment_index_bounds(t, 0, false);
    let k = comment_index(t, 0, false);
    let head = t.take(k);
    let code = trim_end_spec(head);
    let cm = t.skip(k);
    lemma_trim_end_prefix(head);
    lemma_ws_blank(t[0]);
    if code.len() == 0 {
        if k > 0 {
            assert(head[0] == t[0]);
        }
        assert(k == 0);
        assert(cm =~= t);
        lemma_strip_spaces_id(t);
        assert(format_line_spec(t) == t);
    } else {
        let y = spacing(code, 0, false, seq![]);
        lemma_ws_blank(code.last());
        lemma_spacing_last(code, 0, false, seq![]);
        law_spacing_idempotent(code);
        assert(y.len() > 0 && y.last() == code.last());
        assert(trim_end_spec(y) == y);
        if k == n {
            assert(head =~= t);
            assert(trim_end_spec(t) == t);
            assert(code == t);
            assert(cm.len() == 0);
            assert(format_line_spec(t) == y);
            lemma_spaced_no_comment(t, 0, false, seq![], y);
            assert(comment_index(y, 0, false) == y.len());
            assert(y.take(y.len() as int) =~= y);
            assert(y.skip(y.len() as int) =~= Seq::<char>::empty());
        } else {
            lemma_index_scan_reaches(t, 0, false);
            assert(cm[0] == '/' && cm.len() >= 2 && cm[1] == '/');
            lemma_slash_not_ws();
            assert(trim_start_spec(cm) == cm);
            let big = y + seq![' '] + cm;
            assert(format_line_spec(t) == big);
            lemma_trim_end_tail(head);
            assert forall|q: int| code.len() <= q < k implies is_ws(#[trigger] t[q]) by {
                assert(head[q] == t[q]);
            }
            lemma_scan_prefix(t, 0, false, code.len() as int, k);
            assert(t.take(code.len() as int) =~= code);
            assert(big.take(y.len() as int) =~= y);
            assert(big[y.len() as int] == ' ');
            lemma_spaced_scan(code, 0, false, seq![], y, big);
            lemma_scan_reaches_index(big, 0, false, y.len() as int);
            let m: int = y.len() as int;
            assert(big[m + 1] == '/' && big[m + 2] == '/');
            assert(comment_index(big, m, false) == comment_index(big, m + 1, false));
            assert(comment_index(big, 0, false) == m + 1);
            let head2 = big.take(m + 1);
            assert(head2 =~= y.push(' '));
            lemma_ws_blank(' ');
            assert(trim_end_spec(y.push(' ')) == trim_end_spec(y.push(' ').drop_last()));
            assert(y.push(' ').drop_last() =~= y);
            assert(big.skip(m + 1) =~= cm);
        }
    }
}


// ---------------------------------------------------------------------------
// Braces of a formatted line
// ---------------------------------------------------------------------------

/// The sum of two brace counts.
pub open spec fn add_counts(a: (int, int), b: (int, int)) -> (int, int) {
    (a.0 + b.0, a.1 + b.1)
}

proof fn lemma_scan_visit(s: Seq<char>, i: int, st: bool, m: int, j: int)
    requires
        0 <= i <= m <= j <= s.len(),
        scan_reaches(s, i, st, j),
        forall|q: int| m <= q < j ==> is_ws(#[trigger] s[q]),
    ensures
        scan_reaches(s, i, st, m),
    decreases m - i,
{
    if i == m {
        lemma_scan_ws_state(s, m, st, j);
    } else {
        if s[i] == '\\' && st {
            if i + 1 < m {
                lemma_scan_visit(s, i + 2, st, m, j);
            } else if m + 1 <= j {
                lemma_scan_ws_state(s, m + 1, st, j);
            }
        } else if s[i] == '"' {
            lemma_scan_visit(s, i + 1, !st, m, j);
        } else {
            lemma_scan_visit(s, i + 1, st, m, j);
        }
    }
}

/// Along a scan that reaches `j`, the braces counted from `i` are those
/// before `j` and those from `j` on.
proof fn lemma_brace_split(s: Seq<char>, i: int, st: bool, j: int)
    requires
        0 <= i <= j <= s.len(),
        scan_reaches(s, i, st, j),
    ensures
        brace_count(s, i, st) == add_counts(brace_count(s.take(j), i, st), brace_count(s, j, false)),
    decreases j - i,
{
    let c = s.take(j);
    if i < j {
        assert(c[i] == s[i]);
        if s[i] == '\\' && st {
            assert(scan_reaches(s, i + 2, st, j));
            if i + 1 >= j {
                assert(!scan_reaches(s, i + 2, st, j));
            }
            assert(c[i + 1] == s[i + 1]);
            lemma_brace_split(s, i + 2, st, j);
        } else if s[i] == '"' {
            lemma_brace_split(s, i + 1, !st, j);
        } else {
            if i + 1 < j {
                assert(c[i + 1] == s[i + 1]);
            }
            lemma_brace_split(s, i + 1, st, j);
        }
    }
}

proof fn lemma_brace_ws_comment(s: Seq<char>, m: int, k: int)
    requires
        0 <= m <= k,
        k + 1 < s.len(),
        s[k] == '/' && s[k + 1] == '/',
        forall|q: int| m <= q < k ==> is_ws(#[trigger] s[q]),
    ensures
        brace_count(s, m, false) == (0int, 0int),
    decreases k - m,
{
    if m < k {
        lemma_not_special_ws(s[m]);
        assert(s[m] != '{' && s[m] != '}') by {
            vstd::utf8::char_u32_cast(s[m], s[m] as u32);
            assert(('{' as u32) == 0x7B);
            assert(('}' as u32) == 0x7D);
            if s[m] == '{' {
                assert((s[m] as u32) == 0x7B);
            }
            if s[m] == '}' {
                assert((s[m] as u32) == 0x7D);
            }
        }
        lemma_brace_ws_comment(s, m + 1, k);
    }
}

/// The braces of the spaced code are those of the code.
proof fn lemma_spaced_braces(c: Seq<char>, i: int, st: bool, out: Seq<char>, y: Seq<char>)
    requires
        0 <= i,
        y == spacing(c, i, st, out),
        comment_index(c, i, st) == c.len(),
    ensures
        brace_count(y, out.len() as int, st) == brace_count(c, i, st),
    decreases c.len() - i,
{
    let p = out.len() as int;
    let n = c.len() as int;
    if i >= n {
        assert(y == out);
    } else if st {
        if c[i] == '\\' && i + 1 < n {
            let o2 = out.push(c[i]).push(c[i + 1]);
            lemma_spacing_prefix(c, i + 2, true, o2);
            assert(y[p] == y.take(o2.len() as int)[p]);
            assert(y[p + 1] == y.take(o2.len() as int)[p + 1]);
            assert(comment_index(c, i, st) == comment_index(c, i + 2, true));
            assert(brace_count(y, p, st) == brace_count(y, p + 2, true));
            lemma_spaced_braces(c, i + 2, true, o2, y);
        } else if c[i] == '"' {
            let o1 = out.push(c[i]);
            lemma_spacing_prefix(c, i + 1, false, o1);
            assert(y[p] == y.take(o1.len() as int)[p]);
            assert(comment_index(c, i, st) == comment_index(c, i + 1, false));
            assert(brace_count(y, p, st) == brace_count(y, p + 1, false));
            lemma_spaced_braces(c, i + 1, false, o1, y);
        } else {
            let o1 = out.push(c[i]);
            lemma_spacing_prefix(c, i + 1, true, o1);
            assert(y[p] == y.take(o1.len() as int)[p]);
            if c[i] == '\\' {
                assert(spacing(c, i + 1, true, o1) == o1);
                assert(y.len() == p + 1);
            } else {
                assert(comment_index(c, i, st) == comment_index(c, i + 1, true));
                assert(brace_count(y, p, st) == brace_count(y, p + 1, true));
                lemma_spaced_braces(c, i + 1, true, o1, y);
            }
        }
    } else if c[i] == '"' {
        let o1 = out.push('"');
        lemma_spacing_prefix(c, i + 1, true, o1);
        assert(y[p] == y.take(o1.len() as int)[p]);
        assert(comment_index(c, i, st) == comment_index(c, i + 1, true));
        assert(brace_count(y, p, st) == brace_count(y, p + 1, true));
        lemma_spaced_braces(c, i + 1, true, o1, y);
    } else if c[i] == ',' || c[i] == ' ' || c[i] == '\t' {
        lemma_skip_blanks(c, i + 1);
        let k = skip_blanks(c, i + 1);
        lemma_skip_blanks_all(c, i + 1);
        lemma_scan_blanks(c, i + 1, k, false);
        lemma_brace_blanks(c, i + 1, k);
        assert(comment_index(c, i, st) == comment_index(c, i + 1, false));
        assert(brace_count(c, i, st) == brace_count(c, i + 1, false));
        if c[i] == ',' && k < n {
            let o2 = out.push(',').push(' ');
            lemma_spacing_prefix(c, k, false, o2);
            assert(y[p] == y.take(o2.len() as int)[p]);
            assert(y[p + 1] == y.take(o2.len() as int)[p + 1]);
            assert(brace_count(y, p, st) == brace_count(y, p + 1, false));
            assert(brace_count(y, p + 1, st) == brace_count(y, p + 2, false));
            lemma_spaced_braces(c, k, false, o2, y);
        } else if c[i] == ',' {
            assert(spacing(c, k, false, out.push(',')) == out.push(','));
            assert(y[p] == ',');
            assert(brace_count(y, p, st) == brace_count(y, p + 1, false));
        } else {
            let o1 = out.push(' ');
            lemma_spacing_prefix(c, k, false, o1);
            assert(y[p] == y.take(o1.len() as int)[p]);
            assert(brace_count(y, p, st) == brace_count(y, p + 1, false));
            lemma_spaced_braces(c, k, false, o1, y);
        }
    } else if c[i] == '(' || c[i] == '{' {
        let two = if c[i] == '(' {
            ends_with_keyword(out)
        } else {
            out.len() > 0 && out.last() != ' ' && out.last() != '\t'
        };
        assert(comment_index(c, i, st) == comment_index(c, i + 1, false));
        if two {
            let o2 = out.push(' ').push(c[i]);
            assert(spacing(c, i, st, out) == spacing(c, i + 1, false, o2));
            lemma_spacing_prefix(c, i + 1, false, o2);
            assert(y[p] == y.take(o2.len() as int)[p]);
            assert(y[p + 1] == y.take(o2.len() as int)[p + 1]);
            assert(brace_count(y, p, st) == brace_count(y, p + 1, false));
            lemma_spaced_braces(c, i + 1, false, o2, y);
        } else {
            let o1 = out.push(c[i]);
            assert(spacing(c, i, st, out) == spacing(c, i + 1, false, o1));
            lemma_spacing_prefix(c, i + 1, false, o1);
            assert(y[p] == y.take(o1.len() as int)[p]);
            lemma_spaced_braces(c, i + 1, false, o1, y);
        }
    } else {
        let o1 = out.push(c[i]);
        lemma_spacing_prefix(c, i + 1, false, o1);
        assert(y[p] == y.take(o1.len() as int)[p]);
        if c[i] == '/' && i + 1 < n {
            lemma_spacing_first(c, i + 1, false, o1);
            assert(y[p + 1] != '/');
        }
        assert(comment_index(c, i, st) == comment_index(c, i + 1, false));
        lemma_spaced_braces(c, i + 1, false, o1, y);
    }
}

proof fn lemma_brace_blanks(c: Seq<char>, j: int, k: int)
    requires
        0 <= j <= k <= c.len(),
        forall|q: int| j <= q < k ==> #[trigger] c[q] == ' ' || c[q] == '\t',
    ensures
        brace_count(c, j, false) == brace_count(c, k, false),
    decreases k - j,
{
    if j < k {
        lemma_brace_blanks(c, j + 1, k);
    }
}

/// Formatting a line keeps its braces, and its first and last characters.
proof fn lemma_format_line_braces(t: Seq<char>)
    requires
        t.len() > 0,
        !is_ws(t[0]),
        !is_ws(t.last()),
    ensures
        format_line_spec(t).len() > 0,
        format_line_spec(t)[0] == t[0],
        format_line_spec(t).last() == t.last(),
        brace_count(format_line_spec(t), 0, false) == brace_count(t, 0, false),
{
    let n = t.len() as int;
    lemma_comment_index_bounds(t, 0, false);
    let k = comment_index(t, 0, false);
    let head = t.take(k);
    let code = trim_end_spec(head);
    let cm = t.skip(k);
    lemma_trim_end_prefix(head);
    lemma_ws_blank(t[0]);
    if code.len() == 0 {
        if k > 0 {
            assert(head[0] == t[0]);
        }
        assert(cm =~= t);
        lemma_strip_spaces_id(t);
    } else {
        let y = spacing(code, 0, false, seq![]);
        lemma_ws_blank(code.last());
        lemma_spacing_last(code, 0, false, seq![]);
        assert(code[0] == t[0]);
        lemma_spacing_first(code, 0, false, seq![]);
        if k == n {
            assert(head =~= t);
            assert(code == t);
            lemma_spaced_braces(t, 0, false, seq![], y);
        } else {
            lemma_index_scan_reaches(t, 0, false);
            lemma_slash_not_ws();
            let big = y + seq![' '] + cm;
            lemma_trim_end_tail(head);
            assert forall|q: int| code.len() <= q < k implies is_ws(#[trigger] t[q]) by {
                assert(head[q] == t[q]);
            }
            lemma_scan_prefix(t, 0, false, code.len() as int, k);
            assert(t.take(code.len() as int) =~= code);
            lemma_scan_reaches_index(code, 0, false, code.len() as int);
            lemma_spaced_braces(code, 0, false, seq![], y);
            assert(big.take(y.len() as int) =~= y);
            lemma_spaced_scan(code, 0, false, seq![], y, big);
            lemma_brace_split(big, 0, false, y.len() as int);
            let m: int = y.len() as int;
            assert(brace_count(big, m, false) == brace_count(big, m + 1, false));
            assert(brace_count(big, m + 1, false) == (0int, 0int));
            lemma_scan_visit(t, 0, false, code.len() as int, k);
            lemma_brace_split(t, 0, false, code.len() as int);
            lemma_brace_ws_comment(t, code.len() as int, k);
            assert(format_line_spec(t) == big);
            assert(big.last() == cm.last());
        }
    }
}


// ---------------------------------------------------------------------------
// Formatting formatted text
// ---------------------------------------------------------------------------

/// The lines `es`, each followed by a newline.
pub open spec fn join_lines(es: Seq<Seq<char>>) -> Seq<char>
    decreases es.len(),
{
    if es.len() == 0 {
        seq![]
    } else {
        es[0] + seq!['\n'] + join_lines(es.drop_first())
    }
}

/// The line that one source line adds to the formatter's output, if any.
pub open spec fn step_entry(st: (Seq<char>, int, int), raw: Seq<char>) -> Seq<Seq<char>> {
    let t = trim_spec(raw);
    if t.len() == 0 {
        if st.2 + 1 <= 1 {
            seq![seq![]]
        } else {
            seq![]
        }
    } else {
        let d1 = if t[0] == '}' {
            max_int(st.1 - 1, 0)
        } else {
            st.1
        };
        seq![indent(d1) + format_line_spec(t)]
    }
}

/// The lines that the formatter emits for `lines`, from state `st`.
pub open spec fn emitted(lines: Seq<Seq<char>>, st: (Seq<char>, int, int)) -> Seq<Seq<char>>
    decreases lines.len(),
{
    if lines.len() == 0 {
        seq![]
    } else {
        step_entry(st, lines[0]) + emitted(lines.drop_first(), format_step(st, lines[0]))
    }
}

/// Emitted lines hold no newline, end with no whitespace, and no two empty
/// ones follow each other.
pub open spec fn good_lines(es: Seq<Seq<char>>) -> bool {
    &&& forall|i: int| 0 <= i < es.len() ==> no_newline(#[trigger] es[i])
    &&& forall|i: int| 0 <= i < es.len() && #[trigger] es[i].len() > 0 ==> !is_ws(es[i].last())
    &&& forall|i: int| 0 <= i < es.len() - 1 && #[trigger] es[i].len() == 0 ==> es[i + 1].len() > 0
}

proof fn lemma_join_concat(a: Seq<Seq<char>>, b: Seq<Seq<char>>)
    ensures
        join_lines(a + b) == join_lines(a) + join_lines(b),
    decreases a.len(),
{
    if a.len() == 0 {
        assert(a + b =~= b);
        assert(join_lines(a) + join_lines(b) =~= join_lines(b));
    } else {
        assert((a + b).drop_first() =~= a.drop_first() + b);
        assert((a + b)[0] == a[0]);
        lemma_join_concat(a.drop_first(), b);
        assert(join_lines(a + b) =~= join_lines(a) + join_lines(b));
    }
}

proof fn lemma_fold_concat(a: Seq<Seq<char>>, b: Seq<Seq<char>>, st: (Seq<char>, int, int))
    ensures
        format_lines(a + b, st) == format_lines(b, format_lines(a, st)),
    decreases a.len(),
{
    if a.len() == 0 {
        assert(a + b =~= b);
    } else {
        assert((a + b).drop_first() =~= a.drop_first() + b);
        assert((a + b)[0] == a[0]);
        lemma_fold_concat(a.drop_first(), b, format_step(st, a[0]));
    }
}

proof fn lemma_format_lines_output(lines: Seq<Seq<char>>, st: (Seq<char>, int, int))
    ensures
        format_lines(lines, st).0 == st.0 + join_lines(emitted(lines, st)),
    decreases lines.len(),
{
    if lines.len() == 0 {
        assert(st.0 + join_lines(seq![]) =~= st.0);
    } else {
        let e = step_entry(st, lines[0]);
        let st1 = format_step(st, lines[0]);
        lemma_format_lines_output(lines.drop_first(), st1);
        lemma_join_concat(e, emitted(lines.drop_first(), st1));
        if e.len() == 1 {
            assert(e.drop_first() =~= Seq::<Seq<char>>::empty());
            assert(join_lines(e) == e[0] + seq!['\n'] + join_lines(e.drop_first()));
            assert(st1.0 =~= st.0 + join_lines(e));
        } else {
            assert(st1.0 =~= st.0 + join_lines(e));
        }
        assert(format_lines(lines, st).0 =~= st.0 + join_lines(emitted(lines, st)));
    }
}

proof fn lemma_trim_indented(d: int, f: Seq<char>)
    requires
        f.len() > 0,
        !is_ws(f[0]),
        !is_ws(f.last()),
    ensures
        trim_spec(indent(d) + f) == f,
{
    let x = indent(d) + f;
    let a = indent(d).len() as int;
    lemma_indent_spaces(d);
    lemma_ws_blank(' ');
    assert forall|j: int| 0 <= j < a implies is_ws(#[trigger] x[j]) by {
        assert(x[j] == indent(d)[j]);
    }
    assert(x[a] == f[0]);
    lemma_trim_start_at(x, a);
    assert(x.subrange(a, x.len() as int) =~= f);
}

/// A source line's entry is a good line: the formatted line under its
/// indentation, or an empty line.
proof fn lemma_step_entry_good(st: (Seq<char>, int, int), raw: Seq<char>)
    requires
        no_newline(raw),
    ensures
        good_lines(step_entry(st, raw)),
        trim_spec(raw).len() == 0 ==> step_entry(st, raw).len() <= 1,
        trim_spec(raw).len() > 0 ==> step_entry(st, raw).len() == 1 && step_entry(st, raw)[0].len() > 0,
{
    let t = trim_spec(raw);
    lemma_trim_no_newline(raw);
    if t.len() > 0 {
        let a = trim_start_spec(raw);
        lemma_trim_end_prefix(a);
        lemma_format_line_shape(t);
        lemma_format_line_braces(t);
        let d1 = if t[0] == '}' { max_int(st.1 - 1, 0) } else { st.1 };
        let fl = format_line_spec(t);
        let x = indent(d1) + fl;
        lemma_indent_spaces(d1);
        assert(no_newline(x)) by {
            assert forall|k: int| 0 <= k < indent(d1).len() implies #[trigger] indent(d1)[k] != '\n' by {
                assert(indent(d1)[k] == ' ');
            }
            lemma_concat_no_newline(indent(d1), fl);
        }
        assert(x.last() == fl.last());
        assert(step_entry(st, raw) =~= seq![x]);
    } else {
        assert(no_newline(Seq::<char>::empty()));
    }
}

proof fn lemma_emitted_good(lines: Seq<Seq<char>>, st: (Seq<char>, int, int))
    requires
        forall|k: int| 0 <= k < lines.len() ==> no_newline(#[trigger] lines[k]),
        st.2 >= 0,
    ensures
        good_lines(emitted(lines, st)),
        st.2 > 0 && emitted(lines, st).len() > 0 ==> emitted(lines, st)[0].len() > 0,
    decreases lines.len(),
{
    if lines.len() > 0 {
        let raw = lines[0];
        let e = step_entry(st, raw);
        let st1 = format_step(st, raw);
        let rest = emitted(lines.drop_first(), st1);
        assert(no_newline(raw));
        assert forall|k: int| 0 <= k < lines.drop_first().len() implies no_newline(#[trigger] lines.drop_first()[k]) by {
            assert(lines.drop_first()[k] == lines[k + 1]);
        }
        lemma_emitted_good(lines.drop_first(), st1);
        lemma_step_entry_good(st, raw);
        let all = e + rest;
        assert(emitted(lines, st) == all);
        if trim_spec(raw).len() == 0 {
            assert(st1.2 == st.2 + 1);
        } else {
            assert(st1.2 == 0);
        }
        assert forall|i: int| 0 <= i < all.len() implies no_newline(#[trigger] all[i]) by {
            if i < e.len() {
                assert(all[i] == e[i]);
            } else {
                assert(all[i] == rest[i - e.len()]);
            }
        }
        assert forall|i: int| 0 <= i < all.len() && #[trigger] all[i].len() > 0 implies !is_ws(all[i].last()) by {
            if i < e.len() {
                assert(all[i] == e[i]);
            } else {
                assert(all[i] == rest[i - e.len()]);
            }
        }
        assert forall|i: int| 0 <= i < all.len() - 1 && #[trigger] all[i].len() == 0 implies all[i + 1].len() > 0 by {
            if i < e.len() {
                assert(all[i] == e[i]);
                assert(e.len() == 1 && i == 0);
                assert(trim_spec(raw).len() == 0);
                assert(all[i + 1] == rest[0]);
            } else {
                assert(all[i] == rest[i - e.len()]);
                assert(all[i + 1] == rest[i + 1 - e.len()]);
            }
        }
        if st.2 > 0 && all.len() > 0 {
            if e.len() > 0 {
                assert(all[0] == e[0]);
            } else {
                assert(all[0] == rest[0]);
            }
        }
    }
}

/// Formatting the lines that the formatter emitted, from a state with the
/// same depth and the same blank-line standing, emits them again.
proof fn lemma_reformat(lines: Seq<Seq<char>>, st1: (Seq<char>, int, int), st2: (Seq<char>, int, int))
    requires
        forall|k: int| 0 <= k < lines.len() ==> no_newline(#[trigger] lines[k]),
        st1.1 == st2.1,
        st1.2 >= 0,
        st2.2 >= 0,
        (st1.2 > 0) == (st2.2 > 0),
    ensures
        format_lines(emitted(lines, st1), st2).0 == st2.0 + join_lines(emitted(lines, st1)),
    decreases lines.len(),
{
    if lines.len() == 0 {
        assert(st2.0 + join_lines(seq![]) =~= st2.0);
    } else {
        let raw = lines[0];
        let e = step_entry(st1, raw);
        let n1 = format_step(st1, raw);
        let rest = emitted(lines.drop_first(), n1);
        assert forall|k: int| 0 <= k < lines.drop_first().len() implies no_newline(#[trigger] lines.drop_first()[k]) by {
            assert(lines.drop_first()[k] == lines[k + 1]);
        }
        lemma_fold_concat(e, rest, st2);
        lemma_join_concat(e, rest);
        let t = trim_spec(raw);
        let n2 = format_lines(e, st2);
        if t.len() == 0 {
            if st1.2 + 1 <= 1 {
                let empty = Seq::<char>::empty();
                assert(trim_spec(empty) =~= empty) by {
                    assert(trim_start_spec(empty) == empty);
                    assert(trim_end_spec(empty) == empty);
                }
                assert(e =~= seq![empty]);
                assert(e.drop_first() =~= Seq::<Seq<char>>::empty());
                assert(e[0] == empty);
                assert(format_lines(e, st2) == format_lines(e.drop_first(), format_step(st2, e[0])));
                assert(n2 == format_step(st2, empty));
                assert(join_lines(e.drop_first()) == Seq::<char>::empty());
                assert(n2 == (st2.0.push('\n'), st2.1, st2.2 + 1));
                assert(join_lines(e) =~= seq!['\n']);
            } else {
                assert(e =~= Seq::<Seq<char>>::empty());
                assert(n2 == st2);
            }
            lemma_reformat(lines.drop_first(), n1, n2);
        } else {
            assert(no_newline(raw));
            lemma_trim_no_newline(raw);
            let a = trim_start_spec(raw);
            lemma_trim_end_prefix(a);
            lemma_format_line_braces(t);
            law_format_line_idempotent(t);
            let f = format_line_spec(t);
            let d1 = if t[0] == '}' { max_int(st1.1 - 1, 0) } else { st1.1 };
            let x = indent(d1) + f;
            lemma_trim_indented(d1, f);
            assert(e =~= seq![x]);
            assert(e.drop_first() =~= Seq::<Seq<char>>::empty());
            assert(e[0] == x);
            assert(format_lines(e, st2) == format_lines(e.drop_first(), format_step(st2, e[0])));
            assert(n2 == format_step(st2, x));
            assert(join_lines(e.drop_first()) == Seq::<char>::empty());
            assert(f[0] == t[0]);
            assert(n2.0 =~= st2.0 + x + seq!['\n']);
            assert(n2.1 == n1.1);
            assert(join_lines(e) =~= x + seq!['\n']);
            lemma_reformat(lines.drop_first(), n1, n2);
        }
        assert(format_lines(emitted(lines, st1), st2).0 =~= st2.0 + join_lines(emitted(lines, st1)));
    }
}

proof fn lemma_index_of_concat(a: Seq<char>, b: Seq<char>)
    requires
        no_newline(a),
        b.len() > 0,
        b[0] == '\n',
    ensures
        index_of(a + b, '\n') == a.len(),
    decreases a.len(),
{
    if a.len() > 0 {
        assert((a + b)[0] == a[0]);
        assert((a + b).drop_first() =~= a.drop_first() + b);
        assert(no_newline(a.drop_first())) by {
            assert forall|k: int| 0 <= k < a.drop_first().len() implies #[trigger] a.drop_first()[k] != '\n' by {
                assert(a.drop_first()[k] == a[k + 1]);
            }
        }
        lemma_index_of_concat(a.drop_first(), b);
    } else {
        assert(a + b =~= b);
    }
}

proof fn lemma_cr_is_ws()
    ensures
        is_ws('\r'),
{
    assert(('\r' as u32) == 0x0D);
}

/// The lines of joined good lines are those lines.
proof fn lemma_lines_of_join(es: Seq<Seq<char>>)
    requires
        good_lines(es),
    ensures
        lines_spec(join_lines(es)) == es,
    decreases es.len(),
{
    if es.len() > 0 {
        let rest = es.drop_first();
        let x = es[0];
        let s = join_lines(es);
        assert(good_lines(rest)) by {
            assert forall|i: int| 0 <= i < rest.len() implies no_newline(#[trigger] rest[i]) by {
                assert(rest[i] == es[i + 1]);
            }
            assert forall|i: int| 0 <= i < rest.len() && #[trigger] rest[i].len() > 0 implies !is_ws(rest[i].last()) by {
                assert(rest[i] == es[i + 1]);
            }
            assert forall|i: int| 0 <= i < rest.len() - 1 && #[trigger] rest[i].len() == 0 implies rest[i + 1].len() > 0 by {
                assert(rest[i] == es[i + 1]);
                assert(rest[i + 1] == es[i + 2]);
            }
        }
        lemma_lines_of_join(rest);
        assert(no_newline(x));
        assert(s == x + (seq!['\n'] + join_lines(rest)));
        lemma_index_of_concat(x, seq!['\n'] + join_lines(rest));
        let k = x.len() as int;
        assert(s.take(k) =~= x);
        assert(s.skip(k + 1) =~= join_lines(rest));
        lemma_cr_is_ws();
        if x.len() > 0 {
            assert(!is_ws(x.last()));
        }
        assert(strip_cr(x) == x);
        assert(lines_spec(s) =~= seq![x] + rest);
        assert(seq![x] + rest =~= es);
    }
}

proof fn lemma_join_last(es: Seq<Seq<char>>)
    requires
        es.len() > 0,
    ensures
        join_lines(es) == join_lines(es.drop_last()) + es.last() + seq!['\n'],
{
    lemma_join_concat(es.drop_last(), seq![es.last()]);
    assert(es.drop_last() + seq![es.last()] =~= es);
    let one: Seq<Seq<char>> = seq![es.last()];
    assert(one.drop_first() =~= Seq::<Seq<char>>::empty());
    assert(one[0] == es.last());
    assert(join_lines(one.drop_first()) == Seq::<char>::empty());
    assert(join_lines(one) =~= es.last() + seq!['\n']);
    assert(join_lines(es.drop_last()) + (es.last() + seq!['\n']) =~= join_lines(es.drop_last()) + es.last() + seq!['\n']);
}

/// Joined good lines whose last line is not empty are finished output.
proof fn lemma_finish_join(es: Seq<Seq<char>>)
    requires
        es.len() > 0,
        es.last().len() > 0,
        no_newline(es.last()),
    ensures
        finish_output(join_lines(es)) == join_lines(es),
        finish_output(join_lines(es) + seq!['\n']) == join_lines(es),
{
    lemma_join_last(es);
    let s = join_lines(es);
    let x = es.last();
    assert(s[s.len() - 2] == x.last());
    assert(s.last() == '\n');
    assert(strip_blank_tail(s) == s);
    let s2 = s + seq!['\n'];
    assert(s2.drop_last() =~= s);
    assert(s2[s2.len() - 2] == '\n');
    assert(strip_blank_tail(s2) == strip_blank_tail(s));
}

/// Formatting formatted text changes nothing.
pub proof fn law_format_idempotent(source: Seq<char>)
    ensures
        format_spec(format_spec(source)) == format_spec(source),
{
    let st0: (Seq<char>, int, int) = (seq![], 0, 0);
    let lines = lines_spec(source);
    lemma_lines_no_newline(source);
    let es = emitted(lines, st0);
    lemma_format_lines_output(lines, st0);
    lemma_emitted_good(lines, st0);
    let s = join_lines(es);
    assert(format_lines(lines, st0).0 == s) by {
        assert(Seq::<char>::empty() + s =~= s);
    }
    let o = format_spec(source);
    assert(o == finish_output(s));
    let nl: Seq<char> = seq!['\n'];
    if es.len() == 0 || (es.len() == 1 && es[0].len() == 0) {
        if es.len() == 0 {
            assert(s == Seq::<char>::empty());
        } else {
            assert(es.drop_first() =~= Seq::<Seq<char>>::empty());
            assert(join_lines(es.drop_first()) == Seq::<char>::empty());
            assert(s =~= nl);
        }
        assert(o =~= nl);
        let e1: Seq<Seq<char>> = seq![Seq::<char>::empty()];
        assert(good_lines(e1)) by {
            assert(no_newline(Seq::<char>::empty()));
        }
        lemma_lines_of_join(e1);
        assert(e1.drop_first() =~= Seq::<Seq<char>>::empty());
        assert(join_lines(e1) =~= nl);
        assert(lines_spec(o) == e1);
        let empty = Seq::<char>::empty();
        assert(trim_spec(empty) =~= empty) by {
            assert(trim_start_spec(empty) == empty);
            assert(trim_end_spec(empty) == empty);
        }
        assert(format_lines(e1, st0) == format_lines(e1.drop_first(), format_step(st0, e1[0])));
        assert(format_lines(e1, st0).0 =~= nl);
    } else if es.last().len() > 0 {
        lemma_finish_join(es);
        assert(o == s);
        lemma_lines_of_join(es);
        lemma_reformat(lines, st0, st0);
        assert(format_lines(es, st0).0 =~= s);
    } else {
        let front = es.drop_last();
        assert(es.len() >= 2);
        assert(es[es.len() - 2].len() > 0);
        assert(front.last() == es[es.len() - 2]);
        assert(no_newline(front.last()));
        lemma_join_last(es);
        assert(s =~= join_lines(front) + nl) by {
            assert(es.last() =~= Seq::<char>::empty());
        }
        lemma_finish_join(front);
        assert(o == join_lines(front));
        assert(good_lines(front)) by {
            assert forall|i: int| 0 <= i < front.len() implies no_newline(#[trigger] front[i]) by {
                assert(front[i] == es[i]);
            }
            assert forall|i: int| 0 <= i < front.len() && #[trigger] front[i].len() > 0 implies !is_ws(front[i].last()) by {
                assert(front[i] == es[i]);
            }
            assert forall|i: int| 0 <= i < front.len() - 1 && #[trigger] front[i].len() == 0 implies front[i + 1].len() > 0 by {
                assert(front[i] == es[i]);
                assert(front[i + 1] == es[i + 1]);
            }
        }
        lemma_lines_of_join(front);
        assert(lines_spec(o) == front);
        lemma_reformat(lines, st0, st0);
        assert(format_lines(es, st0).0 =~= s);
        let e1: Seq<Seq<char>> = seq![Seq::<char>::empty()];
        assert(es.last() =~= Seq::<char>::empty());
        assert(front + e1 =~= es);
        lemma_fold_concat(front, e1, st0);
        let x = format_lines(front, st0);
        let empty = Seq::<char>::empty();
        assert(trim_spec(empty) =~= empty) by {
            assert(trim_start_spec(empty) == empty);
            assert(trim_end_spec(empty) == empty);
        }
        assert(e1.drop_first() =~= Seq::<Seq<char>>::empty());
        assert(e1[0] == empty);
        assert(format_lines(e1, x) == format_lines(e1.drop_first(), format_step(x, e1[0])));
        assert(format_lines(e1, x) == format_step(x, empty));
        if x.2 + 1 <= 1 {
            assert(x.0.push('\n') == s);
            assert(x.0 =~= s.drop_last());
            assert(s.drop_last() =~= join_lines(front));
            assert(finish_output(x.0) == o);
        } else {
            assert(x.0 == s);
            assert(finish_output(x.0) == o);
        }
    }
}

} // verus!
