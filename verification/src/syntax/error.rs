//! The two error types: lexical and syntactic.

use vstd::prelude::*;
use crate::syntax::token::TokenType;

verus! {

/// Why the lexer stopped.
#[derive(Debug, Clone, Copy, PartialEq, Eq)]
pub enum SyntaxError {
    /// A string literal was opened and the input ended before its closing quote.
    UnterminatedString,
    /// A token was to be started and no character was left.
    UnexpectedEOF,
}

/// Why the parser stopped: the first failure, with the line it was found on.
#[derive(Debug, Clone, Copy, PartialEq, Eq)]
pub enum ParserError {
    /// A token was to be consumed and none was left.
    UnexpectedEOF,
    /// `Expect(expected, actual, line)`: another kind of token was required.
    Expect(TokenType, TokenType, usize),
    /// `UnsupportedConstruct(kind, line)`: the token opens or continues a
    /// construct that the grammar reserves and has no production for.
    UnsupportedConstruct(TokenType, usize),
}

} // verus!
