//! Front end of a small scripting language: a lexer that turns source text
//! into position-tagged tokens, and a recursive-descent parser with an
//! operator-precedence expression parser that turns tokens into a syntax tree.
//!
//! Every executable function is verified against a mathematical model: the
//! lexical grammar over the UTF-8 bytes of the source, and the syntactic
//! grammar over the sequence of token views.

pub mod syntax;
