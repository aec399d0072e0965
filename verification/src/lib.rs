//! The verified core of a language server for the GPC scripting language:
//! a source formatter, text search helpers, symbol extraction from a parsed
//! syntax tree, diagnostics and the answers to editor requests.
use vstd::prelude::*;

pub mod completion;
pub mod cursor;
pub mod data;
pub mod diagnostics;
pub mod doc_comments;
pub mod formatter;
pub mod hints;
pub mod navigation;
pub mod parser;
pub mod search;
pub mod server;
pub mod strings;
pub mod syntax;
pub mod types;
pub mod text;
pub mod tokens;
pub mod utils;

verus! {

} // verus!
