//! Reader front end for a small S-expression language: a scanner that turns
//! source text into tokens, and a recursive-descent reader that turns tokens
//! into an expression tree.
pub mod error;
pub mod lexer;
pub mod ast;
pub mod editor;
