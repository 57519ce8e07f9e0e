//! The one error of this library: the text is not a DID.
use crate::chars::Token;
use crate::grammar::SyntaxError;
use vstd::prelude::*;

verus! {

/// A text was rejected: it stops matching the grammar at `offset`, a count
/// of bytes from the start, where one of `expected` would have been
/// accepted. The error holds no part of the text.
#[derive(Clone, Debug, PartialEq, Eq)]
pub struct ParseError {
    pub offset: usize,
    pub expected: Vec<Token>,
}

impl View for ParseError {
    type V = SyntaxError;

    open spec fn view(&self) -> SyntaxError {
        SyntaxError { offset: self.offset as int, expected: self.expected@ }
    }
}

} // verus!
