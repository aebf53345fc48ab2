//! The closed error taxonomy of the front end. The two file-loading
//! variants belong to the collaborator that reads source text before the
//! scanner sees it; they are carried here so that one error type covers
//! the whole boundary.

use vstd::prelude::*;

verus! {

/// Everything that can go wrong between reading a source string and
/// handing back a syntax tree. Scanner failures carry the 1-based line
/// on which scanning stopped; a parse failure carries its diagnostic
/// text, with the line and the offending lexeme embedded.
#[derive(Debug, PartialEq)]
pub enum Error {
    FileNotFound(String),
    FileNotUtf8(String),
    UnexpectedCharacter(usize),
    UnterminatedString(usize),
    ParseError(String),
}

/// Mathematical model of an `Error`.
pub ghost enum ErrorV {
    FileNotFound(Seq<char>),
    FileNotUtf8(Seq<char>),
    UnexpectedCharacter(nat),
    UnterminatedString(nat),
    ParseError(Seq<char>),
}

impl View for Error {
    type V = ErrorV;

    open spec fn view(&self) -> ErrorV {
        match self {
            Error::FileNotFound(s) => ErrorV::FileNotFound(s@),
            Error::FileNotUtf8(s) => ErrorV::FileNotUtf8(s@),
            Error::UnexpectedCharacter(line) => ErrorV::UnexpectedCharacter(*line as nat),
            Error::UnterminatedString(line) => ErrorV::UnterminatedString(*line as nat),
            Error::ParseError(s) => ErrorV::ParseError(s@),
        }
    }
}

} // verus!
