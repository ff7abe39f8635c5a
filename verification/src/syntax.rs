//! The syntax front end, leaf modules first.

pub mod token;
pub mod error;
pub mod lexical;
pub mod lexer_proofs;
pub mod lexer;
pub mod ast;
pub mod expr_parser;
pub mod grammar;
pub mod parser;
pub mod parser_proofs;
