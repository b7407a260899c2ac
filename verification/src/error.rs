//! What a failed parse reports.

use vstd::prelude::*;

verus! {

/// Why a rule could not match.
#[derive(Debug, PartialEq, Eq, Clone, Copy, Structural)]
pub enum ErrorKind {
    /// The input at this position starts none of the forms that were tried.
    UnexpectedToken,
    /// A string or character literal ends before its closer.
    UnterminatedLiteral,
    /// A digit is out of range for the radix of its number.
    InvalidDigit,
    /// A keyword fragment is not followed by an argument.
    IncompleteKeywordMessage,
    /// A block, a parenthesis or a literal array is not closed.
    UnclosedDelimiter,
}

/// A failed parse: what went wrong and how far into the input, counted in
/// characters, the rule had come.
#[derive(Debug, PartialEq, Eq, Clone, Copy)]
pub struct ParseError {
    pub kind: ErrorKind,
    pub position: usize,
}

/// Model of a [`ParseError`], with the position as a mathematical integer.
pub struct Failure {
    pub kind: ErrorKind,
    pub at: int,
}

impl View for ParseError {
    type V = Failure;

    open spec fn view(&self) -> Failure {
        Failure { kind: self.kind, at: self.position as int }
    }
}

/// Shorthand for the model of a failure of `kind` at `at`.
pub open spec fn fail(kind: ErrorKind, at: int) -> Failure {
    Failure { kind, at }
}

/// Of two failures, the one that reached further; the first where both
/// reached equally far.
pub open spec fn furthest(a: Failure, b: Failure) -> Failure {
    if b.at > a.at {
        b
    } else {
        a
    }
}

impl ParseError {
    /// A failure of `kind` at `position`.
    pub fn new(kind: ErrorKind, position: usize) -> (e: ParseError)
        ensures
            e@ == fail(kind, position as int),
    {
        ParseError { kind, position }
    }

    /// Of `self` and `other`, the one that reached further; `self` where both
    /// reached equally far.
    pub fn or_further(self, other: ParseError) -> (e: ParseError)
        ensures
            e@ == furthest(self@, other@),
            e == self || e == other,
    {
        if other.position > self.position {
            other
        } else {
            self
        }
    }
}

} // verus!
