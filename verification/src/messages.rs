//! The three tiers of message sends, and cascades, as executable rules.
//!
//! Each rule returns what its model in `grammar` says. An operand is read
//! once, however many of the alternatives above it are tried on it.

use crate::error::{ErrorKind, Failure, ParseError};
use crate::expression::primary;
use crate::glyph::Glyph;
use crate::grammar::{
    lemma_message_by_parts, spec_binary_expr, spec_binary_object, spec_binary_part,
    spec_binary_tail, spec_cascade_message, spec_cascade_tail, spec_cascaded_message_expr,
    spec_keyword_expr, spec_keyword_part, spec_keyword_parts, spec_keyword_tail, spec_message_expr,
    spec_primary, spec_unary_expr, spec_unary_object, spec_unary_selector, spec_unary_tail,
};
use crate::lexical::{at, binary_selector, ident, keyword_lit, spaces};
use crate::outcome::{model, model_all};
use crate::syntax::{send, views, Expr, ExprView, Keyword, KeywordView, Msg};
use vstd::prelude::*;

verus! {

/// Reads a unary selector at `p`.
pub fn unary_selector(glyphs: &[Glyph], p: usize) -> (r: Result<(Msg, usize), ParseError>)
    ensures
        model(r) == spec_unary_selector(glyphs@, p as int),
        r matches Ok((_, next)) ==> p < next <= glyphs.len(),
{
    match ident(glyphs, p) {
        Ok((name, next)) => {
            if at(glyphs, next, ':') {
                Err(ParseError::new(ErrorKind::UnexpectedToken, next))
            } else {
                Ok((Msg::Unary(name), next))
            }
        },
        Err(e) => Err(e),
    }
}

/// Reads the unary messages at `p` and sends them to `receiver`.
pub fn unary_tail(glyphs: &[Glyph], receiver: Expr, p: usize) -> (r: (Expr, usize))
    ensures
        (r.0@, r.1 as int) == spec_unary_tail(glyphs@, receiver@, p as int),
        p <= r.1,
        p <= glyphs.len() ==> r.1 <= glyphs.len(),
{
    let ghost first = receiver@;
    let mut acc = receiver;
    let mut i: usize = p;
    loop
        invariant
            p <= i,
            p <= glyphs.len() ==> i <= glyphs.len(),
            first == receiver@,
            spec_unary_tail(glyphs@, first, p as int) == spec_unary_tail(glyphs@, acc@, i as int),
        decreases glyphs.len() - i,
    {
        match unary_selector(glyphs, i) {
            Ok((selector, next)) => {
                acc = Expr::message(acc, selector);
                i = next;
            },
            Err(_) => {
                return (acc, i);
            },
        }
    }
}

/// Reads the operand of a binary message at `p`.
pub fn unary_object(glyphs: &[Glyph], p: usize) -> (r: Result<(Expr, usize), ParseError>)
    ensures
        model(r) == spec_unary_object(glyphs@, p as int),
        r matches Ok((_, next)) ==> p < next <= glyphs.len(),
    decreases glyphs.len() - p, 2int,
{
    proof {
        reveal(spec_unary_object);
        reveal(spec_primary);
    }
    match primary(glyphs, p) {
        Ok((receiver, next)) => Ok(unary_tail(glyphs, receiver, next)),
        Err(e) => Err(e),
    }
}

/// Reads a unary message send at `p`.
pub fn unary_expr(glyphs: &[Glyph], p: usize) -> (r: Result<(Expr, usize), ParseError>)
    ensures
        model(r) == spec_unary_expr(glyphs@, p as int),
        r matches Ok((_, next)) ==> p < next <= glyphs.len(),
    decreases glyphs.len() - p, 2int,
{
    proof {
        reveal(spec_unary_expr);
        reveal(spec_primary);
    }
    match primary(glyphs, p) {
        Ok((receiver, next)) => match unary_selector(glyphs, next) {
            Ok((selector, after)) => Ok(
                unary_tail(glyphs, Expr::message(receiver, selector), after),
            ),
            Err(e) => Err(e),
        },
        Err(e) => Err(e),
    }
}

/// Reads a binary selector and its operand at `p`.
pub fn binary_part(glyphs: &[Glyph], p: usize) -> (r: Result<(Msg, usize), ParseError>)
    ensures
        model(r) == spec_binary_part(glyphs@, p as int),
        r matches Ok((_, next)) ==> p < next <= glyphs.len(),
    decreases glyphs.len() - p, 0int,
{
    proof {
        reveal(spec_binary_part);
        reveal(spec_unary_object);
    }
    match binary_selector(glyphs, p) {
        Ok((selector, operand_at)) => match unary_object(glyphs, operand_at) {
            Ok((operand, next)) => Ok((Msg::binary(selector, operand), next)),
            Err(e) => Err(e),
        },
        Err(e) => Err(e),
    }
}

/// Reads the binary messages at `p` and sends them to `receiver`.
pub fn binary_tail(glyphs: &[Glyph], receiver: Expr, p: usize) -> (r: (Expr, usize))
    ensures
        (r.0@, r.1 as int) == spec_binary_tail(glyphs@, receiver@, p as int),
        p <= r.1,
        p <= glyphs.len() ==> r.1 <= glyphs.len(),
    decreases glyphs.len() - p, 3int,
{
    let ghost first = receiver@;
    let mut acc = receiver;
    let mut i: usize = p;
    loop
        invariant
            p <= i,
            p <= glyphs.len() ==> i <= glyphs.len(),
            first == receiver@,
            spec_binary_tail(glyphs@, first, p as int) == spec_binary_tail(glyphs@, acc@, i as int),
        decreases glyphs.len() - i,
    {
        proof {
            reveal(spec_binary_tail);
            reveal(spec_binary_part);
        }
        match binary_part(glyphs, i) {
            Ok((message, next)) => {
                acc = Expr::message(acc, message);
                i = next;
            },
            Err(_) => {
                return (acc, i);
            },
        }
    }
}

/// Reads the operand of a keyword message at `p`.
pub fn binary_object(glyphs: &[Glyph], p: usize) -> (r: Result<(Expr, usize), ParseError>)
    ensures
        model(r) == spec_binary_object(glyphs@, p as int),
        r matches Ok((_, next)) ==> p < next <= glyphs.len(),
    decreases glyphs.len() - p, 4int,
{
    proof {
        reveal(spec_binary_object);
        reveal(spec_unary_object);
        reveal(spec_binary_tail);
    }
    match unary_object(glyphs, p) {
        Ok((receiver, next)) => Ok(binary_tail(glyphs, receiver, next)),
        Err(e) => Err(e),
    }
}

/// Reads a binary message send at `p`.
pub fn binary_expr(glyphs: &[Glyph], p: usize) -> (r: Result<(Expr, usize), ParseError>)
    ensures
        model(r) == spec_binary_expr(glyphs@, p as int),
        r matches Ok((_, next)) ==> p < next <= glyphs.len(),
    decreases glyphs.len() - p, 4int,
{
    proof {
        reveal(spec_binary_expr);
        reveal(spec_unary_object);
        reveal(spec_binary_part);
        reveal(spec_binary_tail);
    }
    match unary_object(glyphs, p) {
        Ok((receiver, next)) => match binary_part(glyphs, next) {
            Ok((message, after)) => Ok(
                binary_tail(glyphs, Expr::message(receiver, message), after),
            ),
            Err(e) => Err(e),
        },
        Err(e) => Err(e),
    }
}

/// Reads one keyword with its argument at `p`.
pub fn keyword_part(glyphs: &[Glyph], p: usize) -> (r: Result<(Keyword, usize), ParseError>)
    ensures
        model(r) == spec_keyword_part(glyphs@, p as int),
        r matches Ok((_, next)) ==> p < next <= glyphs.len(),
    decreases glyphs.len() - p, 0int,
{
    proof {
        reveal(spec_keyword_part);
        reveal(spec_binary_object);
    }
    match keyword_lit(glyphs, p) {
        Ok((id, argument_at)) => match binary_object(glyphs, argument_at) {
            Ok((val, next)) => Ok((Keyword::new(id, val), next)),
            Err(e) => Err(
                ParseError::new(ErrorKind::IncompleteKeywordMessage, argument_at).or_further(e),
            ),
        },
        Err(e) => Err(e),
    }
}

/// Reads one or more keywords with their arguments at `p`.
pub fn keyword_parts(glyphs: &[Glyph], p: usize) -> (r: Result<(Vec<Keyword>, usize), ParseError>)
    ensures
        model_all(r) == spec_keyword_parts(glyphs@, p as int),
        r matches Ok((_, next)) ==> p < next <= glyphs.len(),
    decreases glyphs.len() - p, 6int,
{
    proof {
        reveal(spec_keyword_parts);
        reveal(spec_keyword_part);
        reveal(spec_keyword_tail);
    }
    let (pair, mut i) = match keyword_part(glyphs, p) {
        Ok(found) => found,
        Err(e) => {
            return Err(e);
        },
    };
    let ghost first = seq![pair@];
    let ghost start = i as int;
    let mut pairs: Vec<Keyword> = Vec::new();
    pairs.push(pair);
    assert(views(pairs@) =~= first);
    loop
        invariant
            p < i <= glyphs.len(),
            spec_keyword_parts(glyphs@, p as int) == Ok::<(Seq<KeywordView>, int), Failure>(
                spec_keyword_tail(glyphs@, first, start),
            ),
            spec_keyword_tail(glyphs@, first, start) == spec_keyword_tail(
                glyphs@,
                views(pairs@),
                i as int,
            ),
        decreases glyphs.len() - i,
    {
        proof {
            reveal(spec_keyword_tail);
            reveal(spec_keyword_part);
        }
        match keyword_part(glyphs, i) {
            Ok((pair, next)) => {
                assert(views(pairs@.push(pair)) =~= views(pairs@).push(pair@));
                pairs.push(pair);
                i = next;
            },
            Err(_) => {
                return Ok((pairs, i));
            },
        }
    }
}

/// Reads a keyword message send at `p`.
pub fn keyword_expr(glyphs: &[Glyph], p: usize) -> (r: Result<(Expr, usize), ParseError>)
    ensures
        model(r) == spec_keyword_expr(glyphs@, p as int),
        r matches Ok((_, next)) ==> p < next <= glyphs.len(),
    decreases glyphs.len() - p, 7int,
{
    proof {
        reveal(spec_keyword_expr);
        reveal(spec_binary_object);
        reveal(spec_keyword_parts);
    }
    match binary_object(glyphs, p) {
        Ok((receiver, next)) => match keyword_parts(glyphs, next) {
            Ok((pairs, after)) => Ok((Expr::message(receiver, Msg::kwargs(pairs)), after)),
            Err(e) => Err(e),
        },
        Err(e) => Err(e),
    }
}

/// What was found where a message send may start.
pub(crate) enum Start {
    /// A message send, and the position after it.
    Send(Expr, usize),
    /// A primary that no message follows, the position after it, and why no
    /// message send could be read.
    Bare(Expr, usize, ParseError),
    /// Not even a primary.
    Nothing(ParseError),
}

/// Reads a message send at `p`, or the primary there where no message
/// follows it. The primary and each operand are read once.
pub(crate) fn start(glyphs: &[Glyph], p: usize) -> (r: Start)
    ensures
        match r {
            Start::Send(e, next) => {
                &&& spec_message_expr(glyphs@, p as int) == Ok::<(ExprView, int), Failure>(
                    (e@, next as int),
                )
                &&& p < next <= glyphs.len()
            },
            Start::Bare(e, next, err) => {
                &&& spec_primary(glyphs@, p as int) == Ok::<(ExprView, int), Failure>(
                    (e@, next as int),
                )
                &&& spec_message_expr(glyphs@, p as int) == Err::<(ExprView, int), Failure>(err@)
                &&& p < next <= glyphs.len()
            },
            Start::Nothing(err) => {
                &&& spec_primary(glyphs@, p as int) == Err::<(ExprView, int), Failure>(err@)
                &&& spec_message_expr(glyphs@, p as int) == Err::<(ExprView, int), Failure>(err@)
            },
        },
    decreases glyphs.len() - p, 8int,
{
    proof {
        lemma_message_by_parts(glyphs@, p as int);
    }
    let (first, after_first) = match primary(glyphs, p) {
        Ok(found) => found,
        Err(e) => {
            return Start::Nothing(e);
        },
    };
    let unary_failure = match unary_selector(glyphs, after_first) {
        Ok(_) => None,
        Err(e) => Some(e),
    };
    let (operand, after_unary) = unary_tail(glyphs, first, after_first);
    let ghost operand_model = operand@;
    let (receiver, after_binary, binary_failure) = match binary_part(glyphs, after_unary) {
        Ok((message, next)) => {
            let (sent, after) = binary_tail(glyphs, Expr::message(operand, message), next);
            (sent, after, None)
        },
        Err(e) => (operand, after_unary, Some(e)),
    };
    assert((receiver@, after_binary as int) == spec_binary_tail(
        glyphs@,
        operand_model,
        after_unary as int,
    )) by {
        reveal(spec_binary_tail);
        reveal(spec_binary_part);
    }
    match keyword_parts(glyphs, after_binary) {
        Ok((pairs, next)) => Start::Send(Expr::message(receiver, Msg::kwargs(pairs)), next),
        Err(keyword_failure) => match binary_failure {
            None => Start::Send(receiver, after_binary),
            Some(e2) => match unary_failure {
                None => Start::Send(receiver, after_binary),
                Some(e3) => Start::Bare(
                    receiver,
                    after_binary,
                    keyword_failure.or_further(e2).or_further(e3),
                ),
            },
        },
    }
}

/// Reads a message send at `p`.
pub fn message_expr(glyphs: &[Glyph], p: usize) -> (r: Result<(Expr, usize), ParseError>)
    ensures
        model(r) == spec_message_expr(glyphs@, p as int),
        r matches Ok((_, next)) ==> p < next <= glyphs.len(),
    decreases glyphs.len() - p, 9int,
{
    match start(glyphs, p) {
        Start::Send(e, next) => Ok((e, next)),
        Start::Bare(_, _, err) => Err(err),
        Start::Nothing(err) => Err(err),
    }
}

/// Reads one further message of a cascade at `p`.
pub fn cascade_message(glyphs: &[Glyph], p: usize) -> (r: Result<(Msg, usize), ParseError>)
    ensures
        model(r) == spec_cascade_message(glyphs@, p as int),
        r matches Ok((_, next)) ==> p < next <= glyphs.len(),
    decreases glyphs.len() - p, 8int,
{
    proof {
        reveal(spec_cascade_message);
        reveal(spec_binary_part);
        reveal(spec_keyword_parts);
    }
    let q = if at(glyphs, p, ';') {
        spaces(glyphs, p + 1)
    } else {
        p
    };
    let e1 = match unary_selector(glyphs, q) {
        Ok(found) => {
            return Ok(found);
        },
        Err(e) => e,
    };
    let e2 = match binary_part(glyphs, q) {
        Ok(found) => {
            return Ok(found);
        },
        Err(e) => e,
    };
    match keyword_parts(glyphs, q) {
        Ok((pairs, next)) => Ok((Msg::kwargs(pairs), next)),
        Err(e3) => Err(e1.or_further(e2).or_further(e3)),
    }
}

/// Reads the further messages of a cascade at `p` and sends them, each to
/// what the one before it gave, the first to `receiver`.
pub fn cascade_tail(glyphs: &[Glyph], receiver: Expr, p: usize) -> (r: (Expr, usize))
    ensures
        (r.0@, r.1 as int) == spec_cascade_tail(glyphs@, receiver@, p as int),
        p <= r.1,
        p <= glyphs.len() ==> r.1 <= glyphs.len(),
    decreases glyphs.len() - p, 9int,
{
    let ghost first = receiver@;
    let mut acc = receiver;
    let mut i: usize = p;
    loop
        invariant
            p <= i,
            p <= glyphs.len() ==> i <= glyphs.len(),
            first == receiver@,
            spec_cascade_tail(glyphs@, first, p as int) == spec_cascade_tail(
                glyphs@,
                acc@,
                i as int,
            ),
        decreases glyphs.len() - i,
    {
        proof {
            reveal(spec_cascade_tail);
            reveal(spec_cascade_message);
        }
        match cascade_message(glyphs, i) {
            Ok((message, next)) => {
                acc = Expr::message(acc, message);
                i = next;
            },
            Err(_) => {
                return (acc, i);
            },
        }
    }
}

/// Reads a cascade at `p`.
pub fn cascaded_message_expr(glyphs: &[Glyph], p: usize) -> (r: Result<
    (Expr, usize),
    ParseError,
>)
    ensures
        model(r) == spec_cascaded_message_expr(glyphs@, p as int),
        r matches Ok((_, next)) ==> p < next <= glyphs.len(),
    decreases glyphs.len() - p, 10int,
{
    match message_expr(glyphs, p) {
        Ok((head, next)) => match cascade_message(glyphs, next) {
            Ok((message, after)) => {
                proof {
                    let s = glyphs@;
                    let sent = spec_cascade_tail(s, send(head@, message@), after as int);
                    assert(spec_cascaded_message_expr(s, p as int) == Ok::<
                        (ExprView, int),
                        Failure,
                    >(sent)) by {
                        reveal(spec_cascaded_message_expr);
                        reveal(spec_message_expr);
                        reveal(spec_cascade_message);
                        reveal(spec_cascade_tail);
                    }
                }
                Ok(cascade_tail(glyphs, Expr::message(head, message), after))
            },
            Err(e) => {
                proof {
                    assert(spec_cascaded_message_expr(glyphs@, p as int) == Err::<
                        (ExprView, int),
                        Failure,
                    >(e@)) by {
                        reveal(spec_cascaded_message_expr);
                        reveal(spec_message_expr);
                        reveal(spec_cascade_message);
                    }
                }
                Err(e)
            },
        },
        Err(e) => {
            proof {
                assert(spec_cascaded_message_expr(glyphs@, p as int) == Err::<
                    (ExprView, int),
                    Failure,
                >(e@)) by {
                    reveal(spec_cascaded_message_expr);
                    reveal(spec_message_expr);
                }
            }
            Err(e)
        },
    }
}

} // verus!
