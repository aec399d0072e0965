//! Documentation written in comments just above a declaration.
use vstd::prelude::*;
use crate::text::{trim_spec, trim_chars, lines_of, lines_spec, views, chars_of, string_of, slice_chars};

verus! {

/// Whether `s` starts with `p`.
pub open spec fn starts_with(s: Seq<char>, p: Seq<char>) -> bool {
    p.len() <= s.len() && s.take(p.len() as int) == p
}

/// Whether `s` ends with `p`.
pub open spec fn ends_with(s: Seq<char>, p: Seq<char>) -> bool {
    p.len() <= s.len() && s.skip(s.len() - p.len()) == p
}

/// Whether `p` occurs in `s`.
pub open spec fn contains_seq(s: Seq<char>, p: Seq<char>) -> bool {
    exists|i: int| 0 <= i && i + p.len() <= s.len() && #[trigger] s.subrange(i, i + p.len()) == p
}

/// `s` with every leading repetition of `p` removed (`trim_start_matches`).
pub open spec fn strip_prefixes(s: Seq<char>, p: Seq<char>) -> Seq<char>
    decreases s.len(),
{
    if p.len() > 0 && starts_with(s, p) {
        strip_prefixes(s.skip(p.len() as int), p)
    } else {
        s
    }
}

/// `s` with every trailing repetition of `p` removed (`trim_end_matches`).
pub open spec fn strip_suffixes(s: Seq<char>, p: Seq<char>) -> Seq<char>
    decreases s.len(),
{
    if p.len() > 0 && ends_with(s, p) {
        strip_suffixes(s.take(s.len() - p.len()), p)
    } else {
        s
    }
}

/// `//`
pub open spec fn line_comment_mark() -> Seq<char> {
    seq!['/', '/']
}

/// `/*`
pub open spec fn block_open_mark() -> Seq<char> {
    seq!['/', '*']
}

/// `*/`
pub open spec fn block_close_mark() -> Seq<char> {
    seq!['*', '/']
}

/// `*`
pub open spec fn star_mark() -> Seq<char> {
    seq!['*']
}

/// The text of a `//` comment line (already trimmed).
pub open spec fn line_comment_text(l: Seq<char>) -> Seq<char> {
    trim_spec(strip_prefixes(l, line_comment_mark()))
}

/// The text of a line of a `/* ... */` comment (already trimmed).
pub open spec fn block_comment_text(l: Seq<char>) -> Seq<char> {
    trim_spec(
        strip_prefixes(
            strip_suffixes(strip_prefixes(l, block_open_mark()), block_close_mark()),
            star_mark(),
        ),
    )
}

/// The comment texts found going up from line `cur` of `lines`: `//`
/// lines always, comment-block lines when they hold text, blank lines
/// skipped, and the search ending at the first other line.
pub open spec fn doc_collect(lines: Seq<Seq<char>>, cur: int) -> Seq<Seq<char>>
    decreases cur,
{
    if cur < 0 || cur >= lines.len() {
        seq![]
    } else {
        let l = trim_spec(lines[cur]);
        let next = if cur == 0 {
            seq![]
        } else {
            doc_collect(lines, cur - 1)
        };
        if starts_with(l, line_comment_mark()) {
            seq![line_comment_text(l)] + next
        } else if starts_with(l, block_open_mark()) || contains_seq(l, block_close_mark()) {
            (if block_comment_text(l).len() > 0 {
                seq![block_comment_text(l)]
            } else {
                seq![]
            }) + next
        } else if l.len() > 0 {
            seq![]
        } else {
            next
        }
    }
}

/// The pieces joined with newlines between them.
pub open spec fn join_lines(parts: Seq<Seq<char>>) -> Seq<char>
    decreases parts.len(),
{
    if parts.len() == 0 {
        seq![]
    } else if parts.len() == 1 {
        parts[0]
    } else {
        parts[0] + seq!['\n'] + join_lines(parts.drop_first())
    }
}

/// The documentation of a declaration that starts on line `row` of
/// `source`: the comment lines just above it, top to bottom, joined with
/// newlines; `None` for a declaration on the first line or with none.
pub open spec fn documentation_spec(row: int, source: Seq<char>) -> Option<Seq<char>> {
    if row == 0 {
        None
    } else {
        let c = doc_collect(lines_spec(source), row - 1);
        if c.len() == 0 {
            None
        } else {
            Some(join_lines(c.reverse()))
        }
    }
}

fn starts_with_chars(s: &Vec<char>, p: &[char]) -> (r: bool)
    ensures
        r == starts_with(s@, p@),
{
    if p.len() > s.len() {
        return false;
    }
    let mut j: usize = 0;
    while j < p.len()
        invariant
            p@.len() <= s@.len(),
            j <= p@.len(),
            forall|t: int| 0 <= t < j ==> s@[t] == p@[t],
        decreases p.len() - j,
    {
        if s[j] != p[j] {
            assert(s@.take(p@.len() as int)[j as int] != p@[j as int]);
            return false;
        }
        j = j + 1;
    }
    assert(s@.take(p@.len() as int) =~= p@);
    true
}

pub fn ends_with_chars(s: &Vec<char>, p: &[char]) -> (r: bool)
    ensures
        r == ends_with(s@, p@),
{
    if p.len() > s.len() {
        return false;
    }
    let off = s.len() - p.len();
    let slen = s.len();
    let mut j: usize = 0;
    while j < p.len()
        invariant
            slen == s@.len(),
            p@.len() <= s@.len(),
            off == s@.len() - p@.len(),
            j <= p@.len(),
            forall|t: int| 0 <= t < j ==> s@[off + t] == p@[t],
        decreases p.len() - j,
    {
        if s[off + j] != p[j] {
            assert(s@.skip(off as int)[j as int] != p@[j as int]);
            return false;
        }
        j = j + 1;
    }
    assert(s@.skip(off as int) =~= p@);
    true
}

fn strip_prefixes_chars(s: &Vec<char>, p: &[char]) -> (r: Vec<char>)
    ensures
        r@ == strip_prefixes(s@, p@),
    decreases s@.len(),
{
    if p.len() > 0 && starts_with_chars(s, p) {
        let rest = slice_chars(s, p.len(), s.len());
        assert(rest@ == s@.skip(p@.len() as int));
        strip_prefixes_chars(&rest, p)
    } else {
        slice_chars(s, 0, s.len())
    }
}

fn strip_suffixes_chars(s: &Vec<char>, p: &[char]) -> (r: Vec<char>)
    ensures
        r@ == strip_suffixes(s@, p@),
    decreases s@.len(),
{
    if p.len() > 0 && ends_with_chars(s, p) {
        let rest = slice_chars(s, 0, s.len() - p.len());
        assert(rest@ == s@.take(s@.len() - p@.len()));
        strip_suffixes_chars(&rest, p)
    } else {
        slice_chars(s, 0, s.len())
    }
}

pub fn contains_chars(s: &Vec<char>, p: &[char]) -> (r: bool)
    ensures
        r == contains_seq(s@, p@),
{
    if p.len() > s.len() {
        return false;
    }
    let slen = s.len();
    let mut i: usize = 0;
    while i <= s.len() - p.len()
        invariant
            slen == s@.len(),
            p@.len() <= s@.len(),
            forall|k: int| 0 <= k < i && k + p@.len() <= s@.len() ==> #[trigger] s@.subrange(k, k + p@.len()) != p@,
        decreases s.len() + 1 - i,
    {
        let mut j: usize = 0;
        let mut same = true;
        while j < p.len()
            invariant
                slen == s@.len(),
                p@.len() <= s@.len(),
                i + p@.len() <= s@.len(),
                j <= p@.len(),
                same == forall|t: int| 0 <= t < j ==> s@[i + t] == p@[t],
            decreases p.len() - j,
        {
            if s[i + j] != p[j] {
                same = false;
            }
            j = j + 1;
        }
        if same {
            assert(s@.subrange(i as int, i + p@.len()) =~= p@);
            return true;
        } else {
            assert(s@.subrange(i as int, i + p@.len()) != p@) by {
                let t = choose|t: int| 0 <= t < p@.len() && s@[i + t] != p@[t];
                assert(s@.subrange(i as int, i + p@.len())[t] != p@[t]);
            }
        }
        if i == s.len() - p.len() {
            assert forall|k: int| 0 <= k && k + p@.len() <= s@.len() implies #[trigger] s@.subrange(k, k + p@.len()) != p@ by {
                assert(k <= i);
            }
            return false;
        }
        i = i + 1;
    }
    false
}

fn join_rev(parts: &Vec<Vec<char>>) -> (r: Vec<char>)
    ensures
        r@ == join_lines(views(parts@).reverse()),
    decreases parts@.len(),
{
    let n = parts.len();
    if n == 0 {
        assert(views(parts@).reverse() =~= Seq::<Seq<char>>::empty());
        return Vec::new();
    }
    let ghost rv = views(parts@).reverse();
    let mut out = slice_chars(&parts[n - 1], 0, parts[n - 1].len());
    assert(rv[0] == parts@[n - 1]@);
    let mut k: usize = n - 1;
    // out holds join_lines(rv.take(n - k)); rv[t] == parts[n - 1 - t].
    assert(rv.take(1) =~= seq![rv[0]]);
    while k > 0
        invariant
            n == parts@.len(),
            0 <= k < n,
            rv == views(parts@).reverse(),
            rv.len() == n,
            out@ == join_lines(rv.take((n - k) as int)),
        decreases k,
    {
        let part = &parts[k - 1];
        out.push('\n');
        let mut j: usize = 0;
        let ghost base = out@;
        while j < part.len()
            invariant
                j <= part@.len(),
                out@ == base + part@.take(j as int),
            decreases part.len() - j,
        {
            out.push(part[j]);
            j = j + 1;
            assert(out@ =~= base + part@.take(j as int));
        }
        proof {
            assert(part@.take(part@.len() as int) =~= part@);
            assert(rv[(n - k) as int] == part@);
            lemma_join_lines_push(rv.take((n - k) as int), part@);
            assert(rv.take((n - k + 1) as int) =~= rv.take((n - k) as int).push(part@));
        }
        k = k - 1;
    }
    assert(rv.take(n as int) =~= rv);
    out
}

proof fn lemma_join_lines_push(parts: Seq<Seq<char>>, last: Seq<char>)
    requires
        parts.len() > 0,
    ensures
        join_lines(parts.push(last)) == join_lines(parts) + seq!['\n'] + last,
    decreases parts.len(),
{
    if parts.len() == 1 {
        assert(parts.push(last).drop_first() =~= seq![last]);
        assert(join_lines(seq![last]) == last);
        assert(join_lines(parts) == parts[0]);
        assert(join_lines(parts.push(last)) == parts[0] + seq!['\n'] + join_lines(seq![last]));
    } else {
        lemma_join_lines_push(parts.drop_first(), last);
        assert(parts.push(last).drop_first() =~= parts.drop_first().push(last));
        assert(join_lines(parts.push(last)) == parts[0] + seq!['\n'] + join_lines(
            parts.drop_first().push(last),
        ));
        assert(join_lines(parts) == parts[0] + seq!['\n'] + join_lines(parts.drop_first()));
        assert(join_lines(parts.push(last)) =~= join_lines(parts) + seq!['\n'] + last);
    }
}

/// The documentation of a declaration that starts on line `row` of
/// `source`: the comment lines just above it, joined with newlines.
pub fn documentation_before(row: usize, source: &str) -> (r: Option<String>)
    ensures
        match r {
            Some(s) => documentation_spec(row as int, source@) == Some(s@),
            None => documentation_spec(row as int, source@) is None,
        },
{
    if row == 0 {
        return None;
    }
    let chars = chars_of(source);
    let lines = lines_of(&chars);
    let ghost ls = views(lines@);
    let line_mark = ['/', '/'];
    let open_mark = ['/', '*'];
    let close_mark = ['*', '/'];
    let star = ['*'];
    assert(line_mark@ == line_comment_mark());
    assert(open_mark@ == block_open_mark());
    assert(close_mark@ == block_close_mark());
    assert(star@ == star_mark());
    let mut doc_lines: Vec<Vec<char>> = Vec::new();
    let mut cur: usize = row - 1;
    assert(views(doc_lines@) =~= Seq::<Seq<char>>::empty());
    loop
        invariant_except_break
            doc_collect(ls, (row - 1) as int) == views(doc_lines@) + doc_collect(ls, cur as int),
        invariant
            ls == views(lines@),
            ls == lines_spec(source@),
            line_mark@ == line_comment_mark(),
            open_mark@ == block_open_mark(),
            close_mark@ == block_close_mark(),
            star@ == star_mark(),
            cur < row,
        ensures
            doc_collect(ls, (row - 1) as int) == views(doc_lines@),
        decreases cur,
    {
        if cur >= lines.len() {
            assert(views(doc_lines@) + doc_collect(ls, cur as int) =~= views(doc_lines@));
            break ;
        }
        let line = trim_chars(&lines[cur]);
        let ghost before = views(doc_lines@);
        let ghost next = if cur == 0 {
            Seq::<Seq<char>>::empty()
        } else {
            doc_collect(ls, cur - 1)
        };
        if starts_with_chars(&line, line_mark.as_slice()) {
            let stripped = strip_prefixes_chars(&line, line_mark.as_slice());
            let comment = trim_chars(&stripped);
            doc_lines.push(comment);
            assert(views(doc_lines@) =~= before.push(comment@));
            assert(views(doc_lines@) + next =~= before + doc_collect(ls, cur as int));
        } else if starts_with_chars(&line, open_mark.as_slice()) || contains_chars(
            &line,
            close_mark.as_slice(),
        ) {
            let a = strip_prefixes_chars(&line, open_mark.as_slice());
            let b = strip_suffixes_chars(&a, close_mark.as_slice());
            let c = strip_prefixes_chars(&b, star.as_slice());
            let comment = trim_chars(&c);
            if comment.len() > 0 {
                doc_lines.push(comment);
                assert(views(doc_lines@) =~= before.push(comment@));
            }
            assert(views(doc_lines@) + next =~= before + doc_collect(ls, cur as int));
        } else if line.len() > 0 {
            assert(views(doc_lines@) + doc_collect(ls, cur as int) =~= views(doc_lines@));
            break ;
        } else {
            assert(views(doc_lines@) + next =~= before + doc_collect(ls, cur as int));
        }
        if cur == 0 {
            assert(views(doc_lines@) + next =~= views(doc_lines@));
            break ;
        }
        assert(next == doc_collect(ls, cur - 1));
        cur = cur - 1;
    }
    if doc_lines.len() == 0 {
        None
    } else {
        let joined = join_rev(&doc_lines);
        Some(string_of(&joined))
    }
}

} // verus!
