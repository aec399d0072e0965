//! Helpers on call syntax: matching parentheses and splitting an argument
//! list at its top-level commas. Positions are character indices.
use vstd::prelude::*;
use vstd::string::StrSliceExecFns;
use crate::text::chars_of;

verus! {

/// Scanning `s` from `i` with `depth` parentheses open: the index of the `)`
/// that closes the last of them, if any.
pub open spec fn closing_paren_from(s: Seq<char>, i: int, depth: int) -> Option<int>
    decreases s.len() - i,
{
    if i < 0 || i >= s.len() {
        None
    } else if s[i] == '(' {
        closing_paren_from(s, i + 1, depth + 1)
    } else if s[i] == ')' {
        if depth - 1 == 0 {
            Some(i)
        } else {
            closing_paren_from(s, i + 1, depth - 1)
        }
    } else {
        closing_paren_from(s, i + 1, depth)
    }
}

/// Helper function to find the matching closing parenthesis: with one
/// parenthesis taken as open just before character `start`, the index of the
/// `)` that closes it.
pub fn find_closing_paren(text: &str, start: usize) -> (r: Option<usize>)
    ensures
        r matches Some(i) ==> closing_paren_from(text@, start as int, 1) == Some(i as int),
        r is None ==> closing_paren_from(text@, start as int, 1) is None,
{
    let chars = chars_of(text);
    let len = chars.len();
    let mut opens: usize = 0;
    let mut closes: usize = 0;
    let mut i = start;
    if i >= len {
        return None;
    }
    while i < len
        invariant
            len == chars@.len(),
            chars@ == text@,
            start <= i,
            opens + closes <= i - start,
            1 + opens - closes > 0,
            closing_paren_from(text@, i as int, 1 + opens - closes) == closing_paren_from(
                text@,
                start as int,
                1,
            ),
        decreases len - i,
    {
        let ch = chars[i];
        if ch == '(' {
            opens = opens + 1;
        } else if ch == ')' {
            if 1 + opens - closes == 1 {
                return Some(i);
            }
            closes = closes + 1;
        }
        i = i + 1;
    }
    None
}

/// The pieces of `s` from `i` on between the commas that stand outside all
/// parentheses, `depth` being the nesting (which a `)` without its `(` takes
/// below zero) and `start` where the current piece began; an empty last
/// piece is left out.
pub open spec fn split_from(s: Seq<char>, i: int, depth: int, start: int) -> Seq<Seq<char>>
    decreases s.len() - i,
{
    if i < 0 || i >= s.len() {
        if start < s.len() {
            seq![s.subrange(start, s.len() as int)]
        } else {
            seq![]
        }
    } else if s[i] == '(' {
        split_from(s, i + 1, depth + 1, start)
    } else if s[i] == ')' {
        split_from(s, i + 1, depth - 1, start)
    } else if s[i] == ',' && depth == 0 {
        seq![s.subrange(start, i)] + split_from(s, i + 1, depth, i + 1)
    } else {
        split_from(s, i + 1, depth, start)
    }
}

/// The arguments of `s` split at top-level commas.
pub open spec fn split_arguments_spec(s: Seq<char>) -> Seq<Seq<char>> {
    split_from(s, 0, 0, 0)
}

/// The character sequences of a list of string slices.
pub open spec fn str_views<'a>(v: Seq<&'a str>) -> Seq<Seq<char>> {
    v.map_values(|p: &'a str| p@)
}

/// Helper function to split arguments respecting nested parentheses.
pub fn split_arguments<'a>(args: &'a str) -> (r: Vec<&'a str>)
    ensures
        str_views(r@) == split_arguments_spec(args@),
{
    let chars = chars_of(args);
    let len = chars.len();
    let mut result: Vec<&'a str> = Vec::new();
    let mut opens: usize = 0;
    let mut closes: usize = 0;
    let mut start: usize = 0;
    let mut i: usize = 0;
    assert(str_views(result@) =~= Seq::<Seq<char>>::empty());
    while i < len
        invariant
            len == chars@.len(),
            chars@ == args@,
            start <= i <= len,
            opens <= i,
            closes <= i,
            str_views(result@) + split_from(args@, i as int, opens - closes, start as int)
                == split_arguments_spec(args@),
        decreases len - i,
    {
        let ch = chars[i];
        if ch == '(' {
            opens = opens + 1;
        } else if ch == ')' {
            closes = closes + 1;
        } else if ch == ',' && opens == closes {
            let piece = args.substring_char(start, i);
            let ghost old_r = str_views(result@);
            result.push(piece);
            assert(str_views(result@) =~= old_r.push(piece@));
            assert(str_views(result@) + split_from(args@, i + 1, opens - closes, i + 1) =~= old_r
                + split_from(args@, i as int, opens - closes, start as int));
            start = i + 1;
        }
        i = i + 1;
    }
    if start < len {
        let piece = args.substring_char(start, len);
        let ghost old_r = str_views(result@);
        result.push(piece);
        assert(str_views(result@) =~= old_r.push(piece@));
        assert(str_views(result@) =~= old_r + split_from(
            args@,
            i as int,
            opens - closes,
            start as int,
        ));
    } else {
        assert(str_views(result@) =~= str_views(result@) + split_from(
            args@,
            i as int,
            opens - closes,
            start as int,
        ));
    }
    result
}

/// The number of `(` minus the number of `)` in `s[i..j]`.
pub open spec fn paren_balance(s: Seq<char>, i: int, j: int) -> int
    decreases j - i,
{
    if i >= j {
        0
    } else {
        paren_balance(s, i, j - 1) + if s[j - 1] == '(' {
            1int
        } else if s[j - 1] == ')' {
            -1int
        } else {
            0int
        }
    }
}

proof fn lemma_closing_paren_from(s: Seq<char>, start: int, i: int, depth: int)
    requires
        0 <= start <= i,
        depth == 1 + paren_balance(s, start, i),
        depth > 0,
        forall|k: int| start < k <= i ==> 1 + paren_balance(s, start, k) > 0,
    ensures
        closing_paren_from(s, i, depth) matches Some(r) ==> i <= r < s.len() && s[r] == ')'
            && paren_balance(s, start, r) == 0 && forall|k: int| start < k <= r ==> 1 + paren_balance(s, start, k) > 0,
    decreases s.len() - i,
{
    if i < s.len() {
        if s[i] == '(' {
            lemma_closing_paren_from(s, start, i + 1, depth + 1);
        } else if s[i] == ')' {
            if depth - 1 != 0 {
                lemma_closing_paren_from(s, start, i + 1, depth - 1);
            }
        } else {
            lemma_closing_paren_from(s, start, i + 1, depth);
        }
    }
}

/// The parenthesis found closes the one taken as open before `start`: it
/// is a `)` at or after `start`, the text between is balanced, and no `)`
/// before it closes that parenthesis.
pub proof fn law_closing_paren_matches(s: Seq<char>, start: int)
    requires
        0 <= start,
    ensures
        closing_paren_from(s, start, 1) matches Some(r) ==> start <= r < s.len() && s[r] == ')'
            && paren_balance(s, start, r) == 0 && forall|k: int| start < k <= r ==> 1 + paren_balance(s, start, k) > 0,
{
    lemma_closing_paren_from(s, start, start, 1);
}

} // verus!
