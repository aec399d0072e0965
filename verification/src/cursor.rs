//! The text at the cursor: the line it stands on, the word under it and the
//! word that ends just before it, with the way an editor request can fail
//! when the server would have to cut a string inside a character.
use vstd::prelude::*;
use vstd::utf8::{encode_utf8, valid_utf8, decode_utf8};
use crate::types::Position;
use crate::text::{lines_spec, text_lines, chars_of, string_of};
use crate::search::{
    word_at,
    trailing_word,
    word_start_cuttable,
    min_int,
    extract_word_at_position,
    word_start_is_cuttable,
    trailing_word_of,
};

verus! {

/// Why the server cannot answer a request on the given input.
#[derive(Clone, Copy, Debug, PartialEq, Eq, Structural)]
pub enum Fault {
    /// A line would be sliced at a byte offset that is not a character
    /// boundary or that lies past its end.
    BadSlice,
    /// A position would be subtracted from a smaller one.
    Underflow,
    /// A line number would be counted past the largest `u32`.
    Overflow,
    /// A URI that has to be sent does not parse.
    BadUri,
}

/// Line number `line` of `text`, as `str::lines` splits it.
pub open spec fn line_at(text: Seq<char>, line: int) -> Option<Seq<char>> {
    let ls = lines_spec(text);
    if 0 <= line < ls.len() {
        Some(ls[line])
    } else {
        None
    }
}

/// The characters of `line` before character position `ch`.
pub open spec fn before_cursor(line: Seq<char>, ch: int) -> Seq<char> {
    line.take(min_int(ch, line.len() as int))
}

/// The word under the cursor at `pos` in `text`: `Ok(None)` where the text
/// has no such line, `Err` where the word's start cannot be cut out of the
/// line.
pub open spec fn cursor_word_spec(text: Seq<char>, pos: Position) -> Result<Option<Seq<char>>, Fault> {
    match line_at(text, pos.line as int) {
        None => Ok(None),
        Some(l) => if word_start_cuttable(before_cursor(l, pos.character as int)) {
            Ok(Some(word_at(l, pos.character as int)))
        } else {
            Err(Fault::BadSlice)
        },
    }
}

/// The word that ends at the cursor at `pos` in `text`, under the same
/// conditions as [`cursor_word_spec`].
pub open spec fn cursor_prefix_spec(text: Seq<char>, pos: Position) -> Result<Option<Seq<char>>, Fault> {
    match line_at(text, pos.line as int) {
        None => Ok(None),
        Some(l) => if word_start_cuttable(before_cursor(l, pos.character as int)) {
            Ok(Some(trailing_word(before_cursor(l, pos.character as int))))
        } else {
            Err(Fault::BadSlice)
        },
    }
}

/// The characters of an optional string inside a result.
pub open spec fn text_result_view(r: Result<Option<String>, Fault>) -> Result<Option<Seq<char>>, Fault> {
    match r {
        Ok(Some(s)) => Ok(Some(s@)),
        Ok(None) => Ok(None),
        Err(e) => Err(e),
    }
}

/// Line number `line` of `text`, if it has one.
pub fn line_of(text: &str, line: u32) -> (r: Option<String>)
    ensures
        match r {
            Some(s) => line_at(text@, line as int) == Some(s@),
            None => line_at(text@, line as int) is None,
        },
{
    let lines = text_lines(text);
    let k = line as usize;
    if k < lines.len() {
        let s = lines[k].clone();
        assert(lines@[k as int]@ == lines_spec(text@)[k as int]);
        Some(s)
    } else {
        None
    }
}

/// The characters of `line` before character position `ch`.
pub fn cursor_chars(line: &String, ch: u32) -> (r: Vec<char>)
    ensures
        r@ == before_cursor(line@, ch as int),
{
    let chars = chars_of(line.as_str());
    let p = if (ch as usize) < chars.len() {
        ch as usize
    } else {
        chars.len()
    };
    crate::text::slice_chars(&chars, 0, p)
}

/// The word under the cursor at `pos` in `text`.
pub fn cursor_word(text: &str, pos: Position) -> (r: Result<Option<String>, Fault>)
    ensures
        text_result_view(r) == cursor_word_spec(text@, pos),
{
    match line_of(text, pos.line) {
        None => Ok(None),
        Some(l) => {
            let before = cursor_chars(&l, pos.character);
            if word_start_is_cuttable(&before) {
                Ok(Some(extract_word_at_position(l.as_str(), pos.character as usize)))
            } else {
                Err(Fault::BadSlice)
            }
        },
    }
}

/// The word that ends at the cursor at `pos` in `text`.
pub fn cursor_prefix(text: &str, pos: Position) -> (r: Result<Option<String>, Fault>)
    ensures
        text_result_view(r) == cursor_prefix_spec(text@, pos),
{
    match line_of(text, pos.line) {
        None => Ok(None),
        Some(l) => {
            let before = cursor_chars(&l, pos.character);
            if word_start_is_cuttable(&before) {
                let w = trailing_word_of(&before);
                Ok(Some(string_of(&w)))
            } else {
                Err(Fault::BadSlice)
            }
        },
    }
}

/// The text of `s` between byte offsets `lo` and `hi`, where both lie on
/// character boundaries in order (what `&s[lo..hi]` takes without
/// panicking).
pub open spec fn byte_slice_spec(s: Seq<char>, lo: int, hi: int) -> Option<Seq<char>> {
    let b = encode_utf8(s);
    if 0 <= lo <= hi <= b.len() && valid_utf8(b.subrange(lo, hi)) {
        Some(decode_utf8(b.subrange(lo, hi)))
    } else {
        None
    }
}

/// The text of `s` between byte offsets `lo` and `hi`, if they cut it at
/// character boundaries.
pub fn byte_slice(s: &str, lo: usize, hi: usize) -> (r: Option<String>)
    ensures
        match r {
            Some(t) => byte_slice_spec(s@, lo as int, hi as int) == Some(t@),
            None => byte_slice_spec(s@, lo as int, hi as int) is None,
        },
{
    let bytes = s.as_bytes();
    if !(lo <= hi && hi <= bytes.len()) {
        return None;
    }
    let mut v: Vec<u8> = Vec::new();
    let mut i = lo;
    while i < hi
        invariant
            lo <= i <= hi <= bytes@.len(),
            bytes@ == encode_utf8(s@),
            v@ == bytes@.subrange(lo as int, i as int),
        decreases hi - i,
    {
        v.push(bytes[i]);
        i = i + 1;
        assert(v@ =~= bytes@.subrange(lo as int, i as int));
    }
    match crate::syntax::str_from_utf8(v.as_slice()) {
        Some(t) => {
            proof {
                vstd::utf8::encode_utf8_decode_utf8(t@);
            }
            Some(t.to_owned())
        },
        None => None,
    }
}

} // verus!
