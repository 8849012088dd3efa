//! Errors of scanning and reading.
use vstd::prelude::*;

verus! {

/// The classified failures of scanning and reading. Every failure is an
/// ordinary value handed back to the caller.
#[derive(Debug, Clone, Copy, PartialEq, Eq, Structural)]
pub enum ReadError {
    /// A string literal was still open when the input ended.
    UnterminatedString,
    /// A run of digits did not fit the numeric type it selected.
    InvalidNumericLiteral,
    /// A token stood where the grammar expects another class of token.
    UnexpectedToken,
    /// The tokens ran out while a list or a quoted operand was still open.
    UnexpectedEndOfInput,
}

impl ReadError {
    /// A short human-readable description of the error.
    pub fn message(&self) -> (r: String) {
        match self {
            ReadError::UnterminatedString => String::from_str("Unterminated string"),
            ReadError::InvalidNumericLiteral => String::from_str("Invalid numeric literal"),
            ReadError::UnexpectedToken => String::from_str("Unexpected token"),
            ReadError::UnexpectedEndOfInput => String::from_str("Unexpected end of input"),
        }
    }
}

} // verus!
