//! What a rule gives: a value and the position after it, or a failure; and
//! how outcomes combine.

use crate::error::{fail, furthest, ErrorKind, Failure, ParseError};
use crate::glyph::Glyph;
use crate::syntax::views;
use vstd::prelude::*;

verus! {

/// The outcome of a rule in the model: the value read and the position after
/// it, or the failure.
pub type Parsed<T> = Result<(T, int), Failure>;

/// The model of an executable rule's outcome.
pub open spec fn model<T: View>(r: Result<(T, usize), ParseError>) -> Parsed<T::V> {
    match r {
        Ok((value, next)) => Ok((value@, next as int)),
        Err(e) => Err(e@),
    }
}

/// The model of the outcome of an executable rule that reads a sequence of
/// nodes.
pub open spec fn model_all<T: View>(r: Result<(Vec<T>, usize), ParseError>) -> Parsed<
    Seq<T::V>,
> {
    match r {
        Ok((nodes, next)) => Ok((views(nodes@), next as int)),
        Err(e) => Err(e@),
    }
}

/// Ordered choice: the first outcome where it is a success, else the second;
/// where both fail, the failure that reached further.
pub open spec fn or_else<T>(first: Parsed<T>, second: Parsed<T>) -> Parsed<T> {
    match first {
        Ok(_) => first,
        Err(e1) => match second {
            Ok(_) => second,
            Err(e2) => Err(furthest(e1, e2)),
        },
    }
}

/// The outcome, where it is a failure or ends between `p` and the end of the
/// input; else the failure to read anything at `p`.
pub open spec fn within<T>(outcome: Parsed<T>, p: int, s: Seq<Glyph>) -> Parsed<T> {
    match outcome {
        Ok((_, next)) => if p <= next <= s.len() {
            outcome
        } else {
            Err(fail(ErrorKind::UnexpectedToken, p))
        },
        Err(_) => outcome,
    }
}

} // verus!
