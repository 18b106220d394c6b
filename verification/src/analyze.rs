//! Front-end data model: the token set, the abstract syntax tree, and the
//! error codes that diagnostics carry. The lexer, the parser and the
//! diagnostic renderer themselves live outside the verified core; they hand
//! the core a validated tree and take plain error values back.

use vstd::prelude::*;

pub mod ast;
pub mod token;

verus! {

/// Stable identifiers for the diagnostics the front end can raise.
#[derive(Clone, Copy, Debug, PartialEq, Eq, Structural)]
pub enum ErrorCode {
    MissingSemicolon,
    UnexpectedToken,
}

impl ErrorCode {
    /// The numeric code a diagnostic prints after the letter `E`.
    pub open spec fn code_spec(self) -> u32 {
        match self {
            ErrorCode::MissingSemicolon => 0,
            ErrorCode::UnexpectedToken => 1,
        }
    }

    pub fn code(self) -> (r: u32)
        ensures
            r == self.code_spec(),
    {
        match self {
            ErrorCode::MissingSemicolon => 0,
            ErrorCode::UnexpectedToken => 1,
        }
    }
}

} // verus!
