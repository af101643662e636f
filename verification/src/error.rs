//! The error taxonomy of the whole pipeline. Every stage returns its first
//! error as a value; no stage panics on malformed input. Each error carries
//! the offending token or lexeme so a caller can cite the source position.

use vstd::prelude::*;

use crate::lexer::LexemeModel;
use crate::tokenizer::{TokenContainer, TokenContainerModel};

verus! {

/// An error from tokenizing, parsing or evaluating.
#[derive(PartialEq, Debug)]
pub enum Error {
    /// The digits after a radix prefix (or a plain decimal literal) are
    /// malformed for that radix, missing, or too large for a 64-bit value.
    RadixParse { radix: u32, text: String, line: usize, column: usize },
    /// A token appeared where the grammar forbids it.
    UnexpectedToken { found: TokenContainer },
    /// The token stream ran out in the middle of a production.
    UnexpectedEnd,
    /// Two adjacent operands (implicit multiplication or a call): reserved,
    /// not yet supported.
    UnsupportedConstruct { found: TokenContainer },
    /// Division or modulo by zero, including a zero base under a negative
    /// exponent.
    DivisionByZero,
    /// An identifier reached evaluation; no symbol table exists.
    EvaluationUnsupported { name: String },
    /// An intermediate value left the 64-bit signed range.
    Overflow,
}

/// Mathematical image of an `Error`.
pub enum ErrorModel {
    RadixParse { radix: int, text: Seq<char>, line: int, column: int },
    UnexpectedToken { found: TokenContainerModel },
    UnexpectedEnd,
    UnsupportedConstruct { found: TokenContainerModel },
    DivisionByZero,
    EvaluationUnsupported { name: Seq<char> },
    Overflow,
}

impl View for Error {
    type V = ErrorModel;

    open spec fn view(&self) -> ErrorModel {
        match self {
            Error::RadixParse { radix, text, line, column } => (ErrorModel::RadixParse {
                radix: *radix as int,
                text: text@,
                line: *line as int,
                column: *column as int,
            }),
            Error::UnexpectedToken { found } => (ErrorModel::UnexpectedToken { found: found@ }),
            Error::UnexpectedEnd => ErrorModel::UnexpectedEnd,
            Error::UnsupportedConstruct { found } => (ErrorModel::UnsupportedConstruct {
                found: found@,
            }),
            Error::DivisionByZero => ErrorModel::DivisionByZero,
            Error::EvaluationUnsupported { name } => (ErrorModel::EvaluationUnsupported {
                name: name@,
            }),
            Error::Overflow => ErrorModel::Overflow,
        }
    }
}

/// The radix-parse error for a whole lexeme whose text should have been a
/// number in the given radix.
pub open spec fn radix_err(radix: int, lx: LexemeModel) -> ErrorModel {
    ErrorModel::RadixParse { radix: radix, text: lx.text, line: lx.line, column: lx.column }
}

} // verus!
