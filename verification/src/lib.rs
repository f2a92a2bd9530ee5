//! The reader stage of a small Lisp: text is scanned into lexemes, each lexeme
//! is classified as a token, and a cursor-based reader nests the tokens into
//! lists and vectors. A printer renders a value back to text.
use vstd::prelude::*;

pub mod environment;
pub mod laws;
pub mod model;
pub mod print;
pub mod read;
pub mod scan;
pub mod text;

verus! {

/// A parsed value: an atom, or a container of tokens.
#[derive(Debug, PartialEq)]
pub enum MalDataType {
    Nil,
    Boolean(bool),
    Int(usize),
    String(String),
    Keyword(String),
    Vector(Vec<MalToken>),
    List(Vec<MalToken>),
    Symbol(String),
}

/// One of the four brackets, or a value.
#[derive(Debug, PartialEq)]
pub enum MalToken {
    OpenParen,
    CloseParen,
    OpenBracket,
    CloseBracket,
    Data(MalDataType),
}

} // verus!
