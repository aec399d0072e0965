//! The built-in vocabulary of the language: data types, keywords, constants,
//! built-in functions and snippets.
use vstd::prelude::*;
use crate::text::string_views;

verus! {

/// A function that the language provides.
#[derive(Debug)]
pub struct BuiltinFunction {
    pub name: String,
    pub parameters: Vec<String>,
    pub description: String,
}

/// A completion snippet.
#[derive(Debug)]
pub struct Snippet {
    pub name: String,
    pub snippet: String,
    pub description: String,
}

/// The names of the language's data types.
pub open spec fn datatype_list() -> Seq<Seq<char>> {
    seq![
        "int"@,
        "uint8"@,
        "uint16"@,
        "int8"@,
        "int16"@,
        "char"@,
        "ps5adt"@,
        "byte"@,
        "string"@,
    ]
}

/// The language's keywords.
pub open spec fn keyword_list() -> Seq<Seq<char>> {
    seq![
        "main"@,
        "init"@,
        "combo"@,
        "fcombo"@,
        "function"@,
        "if"@,
        "else"@,
        "while"@,
        "for"@,
        "return"@,
        "break"@,
        "continue"@,
        "const"@,
        "enum"@,
        "define"@,
        "do"@,
        "switch"@,
        "case"@,
        "default"@,
    ]
}

fn owned_all(words: &[&str]) -> (r: Vec<String>)
    ensures
        string_views(r@) == words@.map_values(|w: &str| w@),
{
    let mut out: Vec<String> = Vec::new();
    let mut i: usize = 0;
    while i < words.len()
        invariant
            i <= words@.len(),
            string_views(out@) == words@.map_values(|w: &str| w@).take(i as int),
        decreases words.len() - i,
    {
        let s = words[i].to_owned();
        let ghost before = string_views(out@);
        out.push(s);
        assert(string_views(out@) =~= before.push(s@));
        i = i + 1;
        assert(words@.map_values(|w: &str| w@).take(i as int) =~= words@.map_values(|w: &str| w@).take(i - 1 as int).push(words@[i - 1 as int]@));
    }
    assert(words@.map_values(|w: &str| w@).take(words@.len() as int) =~= words@.map_values(|w: &str| w@));
    out
}

/// The names of the language's data types.
pub fn datatypes() -> (r: Vec<String>)
    ensures
        string_views(r@) == datatype_list(),
{
    let words = ["int", "uint8", "uint16", "int8", "int16", "char", "ps5adt", "byte", "string"];
    let r = owned_all(words.as_slice());
    assert(words@.map_values(|w: &str| w@) =~= datatype_list());
    r
}

/// The language's keywords.
pub fn keywords() -> (r: Vec<String>)
    ensures
        string_views(r@) == keyword_list(),
{
    let words = [
        "main", "init", "combo", "fcombo", "function", "if", "else", "while", "for", "return",
        "break", "continue", "const", "enum", "define", "do", "switch", "case", "default",
    ];
    let r = owned_all(words.as_slice());
    assert(words@.map_values(|w: &str| w@) =~= keyword_list());
    r
}

#[verifier::external_type_specification]
#[verifier::external_body]
pub struct ExJsonError(serde_json::Error);

/// What `serde_json::from_str::<Vec<String>>` reads from `text`: the
/// strings of a JSON array of strings, `None` where `text` is no such
/// document.
pub uninterp spec fn json_string_list(text: Seq<char>) -> Option<Seq<Seq<char>>>;

/// `serde_json::from_str::<Vec<String>>`: the strings of a JSON array of
/// strings. Its result is named, not stated.
#[verifier::external_body]
fn parse_string_list(text: &str) -> (r: Result<Vec<String>, serde_json::Error>)
    ensures
        match r {
            Ok(v) => json_string_list(text@) == Some(string_views(v@)),
            Err(_) => json_string_list(text@) is None,
        },
{
    serde_json::from_str::<Vec<String>>(text)
}

/// Why a list of the vocabulary could not be read.
#[derive(Clone, Copy, Debug, PartialEq, Eq, Structural)]
pub enum DataError {
    /// The text is not a JSON array of strings.
    Malformed,
}

/// The language's constants, read from their JSON list.
pub fn get_constants(json: &str) -> (r: Result<Vec<String>, DataError>)
    ensures
        match r {
            Ok(v) => json_string_list(json@) == Some(string_views(v@)),
            Err(e) => json_string_list(json@) is None && e == DataError::Malformed,
        },
{
    match parse_string_list(json) {
        Ok(v) => Ok(v),
        Err(_) => Err(DataError::Malformed),
    }
}

} // verus!
