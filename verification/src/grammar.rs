//! The expression grammar: primaries, the three tiers of messages, cascades,
//! assignment, blocks and statement sequences.
//!
//! This module is the model: every rule as a `spec` function on glyphs and a
//! position. The executable rules are in `expression` and `messages`. Unary
//! messages bind tighter than binary ones, and binary ones tighter than
//! keyword messages. Alternatives are tried in order and the first that
//! matches wins; one that fails leaves no trace but its failure, and where
//! all fail the failure that reached furthest is reported.
//!
//! Statements are read with commitment. After `^`, the expression must
//! follow; after an expression, its full stop; and an expression that begins
//! and fails further on fails the sequence. Only where nothing begins a
//! statement does the sequence end without failure.
//!
//! A cascade sends each further message to what the message before it gave:
//! `a foo; bar` is `bar` sent to the result of `a foo`. The tree has no node
//! for several messages to one receiver.
//!
//! The rules call each other in a circle. The models take care that each
//! call in the circle is at a later position, or at the same position in a
//! rule that stands lower: `within` lets an outcome through only where its
//! position lies between the start and the end of the input.
//! `lemma_rules_advance` shows that every outcome does.
//!
//! The models of the rules in the circle are opaque, which keeps the proofs
//! about them short. `lemma_rules_unfold` and `lemma_tails_unfold` give their
//! definitions at one position; `lemma_message_by_parts` and
//! `lemma_expr_by_parts` tell a message send and an expression without the
//! ordered choice; `lemma_trees_are_well_formed` gives the invariant of what
//! is read.

use crate::error::{fail, furthest, ErrorKind, Failure};
use crate::glyph::{faithful, Glyph};
use crate::lexical::{
    holds, lemma_name_shape, lemma_tokens_advance, skip_spaces, spec_assignment,
    spec_binary_selector, spec_ident, spec_keyword_lit,
};
use crate::literal::{lemma_literal_advances, lemma_literal_well_formed, spec_literal};
use crate::outcome::{or_else, within, Parsed};
use crate::syntax::{
    all_well_formed, is_name, send, ExprView, KeywordView, LiteralView, MsgView, StatementView,
};
use vstd::prelude::*;

verus! {

/// A name as an expression.
pub open spec fn as_id(outcome: Parsed<Seq<char>>) -> Parsed<ExprView> {
    match outcome {
        Ok((name, next)) => Ok((ExprView::Id(name), next)),
        Err(e) => Err(e),
    }
}

/// A literal as an expression.
pub open spec fn as_lit(outcome: Parsed<LiteralView>) -> Parsed<ExprView> {
    match outcome {
        Ok((value, next)) => Ok((ExprView::Lit(value), next)),
        Err(e) => Err(e),
    }
}

/// Keyword pairs as a message.
pub open spec fn as_kwargs(outcome: Parsed<Seq<KeywordView>>) -> Parsed<MsgView> {
    match outcome {
        Ok((pairs, next)) => Ok((MsgView::Kwargs(pairs), next)),
        Err(e) => Err(e),
    }
}

/// The parameters of a block from `p` on, after the parameters `acc`: each a
/// colon and a name. Where no colon stands there are no more of them. A
/// colon that no name follows is a failure.
pub open spec fn spec_block_vars(s: Seq<Glyph>, acc: Seq<Seq<char>>, p: int) -> Parsed<
    Seq<Seq<char>>,
>
    decreases s.len() - p,
{
    if holds(s, p, ':') {
        match spec_ident(s, p + 1) {
            Ok((name, next)) => {
                proof {
                    lemma_tokens_advance(s, p + 1);
                }
                spec_block_vars(s, acc.push(name), next)
            },
            Err(e) => Err(e),
        }
    } else {
        Ok((acc, p))
    }
}

/// A unary selector: a name that no colon follows.
pub open spec fn spec_unary_selector(s: Seq<Glyph>, p: int) -> Parsed<MsgView> {
    match spec_ident(s, p) {
        Ok((name, next)) => if holds(s, next, ':') {
            Err(fail(ErrorKind::UnexpectedToken, next))
        } else {
            Ok((MsgView::Unary(name), next))
        },
        Err(e) => Err(e),
    }
}

/// The unary messages from `p` on, as many as there are, sent one after the
/// other, the first of them to `receiver`.
pub open spec fn spec_unary_tail(s: Seq<Glyph>, receiver: ExprView, p: int) -> (ExprView, int)
    decreases s.len() - p,
{
    match spec_unary_selector(s, p) {
        Ok((selector, next)) => {
            proof {
                lemma_tokens_advance(s, p);
            }
            spec_unary_tail(s, send(receiver, selector), next)
        },
        Err(_) => (receiver, p),
    }
}

/// A block: `[`, the parameters, `|`, the statements, `]`; whitespace may
/// follow each bracket and the bar. A failure of the parameters or of the
/// statements is the failure of the block.
#[verifier::opaque]
pub open spec fn spec_block(s: Seq<Glyph>, p: int) -> Parsed<ExprView>
    decreases s.len() - p, 0int,
{
    if holds(s, p, '[') {
        match spec_block_vars(s, Seq::empty(), skip_spaces(s, p + 1)) {
            Ok((vars, bar)) => if holds(s, bar, '|') {
                proof {
                    lemma_tokens_advance(s, p + 1);
                    lemma_block_vars_bounds(s, Seq::empty(), skip_spaces(s, p + 1));
                    lemma_tokens_advance(s, bar + 1);
                }
                match spec_statements(s, Seq::empty(), skip_spaces(s, bar + 1)) {
                    Ok((statements, close)) => if holds(s, close, ']') {
                        Ok((ExprView::Block { vars, statements }, skip_spaces(s, close + 1)))
                    } else {
                        Err(fail(ErrorKind::UnclosedDelimiter, close))
                    },
                    Err(e) => Err(e),
                }
            } else {
                Err(fail(ErrorKind::UnexpectedToken, bar))
            },
            Err(e) => Err(e),
        }
    } else {
        Err(fail(ErrorKind::UnexpectedToken, p))
    }
}

/// An expression in parentheses; whitespace may follow each parenthesis.
#[verifier::opaque]
pub open spec fn spec_paren(s: Seq<Glyph>, p: int) -> Parsed<ExprView>
    decreases s.len() - p, 0int,
{
    if holds(s, p, '(') {
        proof {
            lemma_tokens_advance(s, p + 1);
        }
        match spec_expr(s, skip_spaces(s, p + 1)) {
            Ok((inner, close)) => if holds(s, close, ')') {
                Ok((inner, skip_spaces(s, close + 1)))
            } else {
                Err(fail(ErrorKind::UnclosedDelimiter, close))
            },
            Err(e) => Err(e),
        }
    } else {
        Err(fail(ErrorKind::UnexpectedToken, p))
    }
}

/// A primary: a name, a literal, a block, or an expression in parentheses.
#[verifier::opaque]
pub open spec fn spec_primary(s: Seq<Glyph>, p: int) -> Parsed<ExprView>
    decreases s.len() - p, 1int,
{
    or_else(
        or_else(or_else(as_id(spec_ident(s, p)), as_lit(spec_literal(s, p))), spec_block(s, p)),
        spec_paren(s, p),
    )
}

/// The operand of a binary message: a primary and the unary messages sent to
/// it, if any.
#[verifier::opaque]
pub open spec fn spec_unary_object(s: Seq<Glyph>, p: int) -> Parsed<ExprView>
    decreases s.len() - p, 2int,
{
    match spec_primary(s, p) {
        Ok((receiver, next)) => Ok(spec_unary_tail(s, receiver, next)),
        Err(e) => Err(e),
    }
}

/// A unary message send: a primary and one or more unary messages.
#[verifier::opaque]
pub open spec fn spec_unary_expr(s: Seq<Glyph>, p: int) -> Parsed<ExprView>
    decreases s.len() - p, 2int,
{
    match spec_primary(s, p) {
        Ok((receiver, next)) => match spec_unary_selector(s, next) {
            Ok(_) => Ok(spec_unary_tail(s, receiver, next)),
            Err(e) => Err(e),
        },
        Err(e) => Err(e),
    }
}

/// A binary selector and its operand.
#[verifier::opaque]
pub open spec fn spec_binary_part(s: Seq<Glyph>, p: int) -> Parsed<MsgView>
    decreases s.len() - p, 0int,
{
    match spec_binary_selector(s, p) {
        Ok((selector, operand_at)) => {
            proof {
                lemma_tokens_advance(s, p);
            }
            match spec_unary_object(s, operand_at) {
                Ok((operand, next)) => Ok((MsgView::Binary(selector, Box::new(operand)), next)),
                Err(e) => Err(e),
            }
        },
        Err(e) => Err(e),
    }
}

/// The binary messages from `p` on, as many as there are, sent one after the
/// other, the first of them to `receiver`.
#[verifier::opaque]
pub open spec fn spec_binary_tail(s: Seq<Glyph>, receiver: ExprView, p: int) -> (ExprView, int)
    decreases s.len() - p, 3int,
{
    match within(spec_binary_part(s, p), p + 1, s) {
        Ok((message, next)) => spec_binary_tail(s, send(receiver, message), next),
        Err(_) => (receiver, p),
    }
}

/// The operand of a keyword message: a unary operand and the binary messages
/// sent to it, if any.
#[verifier::opaque]
pub open spec fn spec_binary_object(s: Seq<Glyph>, p: int) -> Parsed<ExprView>
    decreases s.len() - p, 4int,
{
    match within(spec_unary_object(s, p), p, s) {
        Ok((receiver, next)) => Ok(spec_binary_tail(s, receiver, next)),
        Err(e) => Err(e),
    }
}

/// A binary message send: a unary operand and one or more binary messages.
#[verifier::opaque]
pub open spec fn spec_binary_expr(s: Seq<Glyph>, p: int) -> Parsed<ExprView>
    decreases s.len() - p, 4int,
{
    match within(spec_unary_object(s, p), p, s) {
        Ok((receiver, next)) => match spec_binary_part(s, next) {
            Ok(_) => Ok(spec_binary_tail(s, receiver, next)),
            Err(e) => Err(e),
        },
        Err(e) => Err(e),
    }
}

/// One keyword with its argument. A keyword that no argument follows makes
/// the message incomplete, unless the argument failed further on.
#[verifier::opaque]
pub open spec fn spec_keyword_part(s: Seq<Glyph>, p: int) -> Parsed<KeywordView>
    decreases s.len() - p, 0int,
{
    match spec_keyword_lit(s, p) {
        Ok((id, argument_at)) => {
            proof {
                lemma_tokens_advance(s, p);
            }
            match spec_binary_object(s, argument_at) {
                Ok((val, next)) => Ok((KeywordView { id, val }, next)),
                Err(e) => Err(
                    furthest(fail(ErrorKind::IncompleteKeywordMessage, argument_at), e),
                ),
            }
        },
        Err(e) => Err(e),
    }
}

/// The keywords with their arguments from `p` on, as many as there are,
/// after the pairs `acc`.
#[verifier::opaque]
pub open spec fn spec_keyword_tail(s: Seq<Glyph>, acc: Seq<KeywordView>, p: int) -> (
    Seq<KeywordView>,
    int,
)
    decreases s.len() - p, 5int,
{
    match within(spec_keyword_part(s, p), p + 1, s) {
        Ok((pair, next)) => spec_keyword_tail(s, acc.push(pair), next),
        Err(_) => (acc, p),
    }
}

/// One or more keywords with their arguments: the selector and arguments of
/// one keyword message.
#[verifier::opaque]
pub open spec fn spec_keyword_parts(s: Seq<Glyph>, p: int) -> Parsed<Seq<KeywordView>>
    decreases s.len() - p, 6int,
{
    match within(spec_keyword_part(s, p), p, s) {
        Ok((pair, next)) => Ok(spec_keyword_tail(s, seq![pair], next)),
        Err(e) => Err(e),
    }
}

/// A keyword message send: a binary operand and one or more keywords with
/// their arguments, all of them one message.
#[verifier::opaque]
pub open spec fn spec_keyword_expr(s: Seq<Glyph>, p: int) -> Parsed<ExprView>
    decreases s.len() - p, 7int,
{
    match within(spec_binary_object(s, p), p, s) {
        Ok((receiver, next)) => match spec_keyword_parts(s, next) {
            Ok((pairs, after)) => Ok((send(receiver, MsgView::Kwargs(pairs)), after)),
            Err(e) => Err(e),
        },
        Err(e) => Err(e),
    }
}

/// A message send: a keyword send, else a binary send, else a unary send.
#[verifier::opaque]
pub open spec fn spec_message_expr(s: Seq<Glyph>, p: int) -> Parsed<ExprView>
    decreases s.len() - p, 8int,
{
    or_else(or_else(spec_keyword_expr(s, p), spec_binary_expr(s, p)), spec_unary_expr(s, p))
}

/// One further message of a cascade: an optional `;` with whitespace, then a
/// unary selector, or a binary selector with its operand, or keywords with
/// their arguments.
#[verifier::opaque]
pub open spec fn spec_cascade_message(s: Seq<Glyph>, p: int) -> Parsed<MsgView>
    decreases s.len() - p, 8int,
{
    let q = if holds(s, p, ';') {
        skip_spaces(s, p + 1)
    } else {
        p
    };
    proof {
        lemma_tokens_advance(s, p + 1);
    }
    or_else(
        or_else(spec_unary_selector(s, q), spec_binary_part(s, q)),
        as_kwargs(spec_keyword_parts(s, q)),
    )
}

/// The further messages of a cascade from `p` on, as many as there are, each
/// sent to what the one before it gave, the first of them to `receiver`.
#[verifier::opaque]
pub open spec fn spec_cascade_tail(s: Seq<Glyph>, receiver: ExprView, p: int) -> (ExprView, int)
    decreases s.len() - p, 9int,
{
    match within(spec_cascade_message(s, p), p + 1, s) {
        Ok((message, next)) => spec_cascade_tail(s, send(receiver, message), next),
        Err(_) => (receiver, p),
    }
}

/// A cascade: a message send and one or more further messages.
#[verifier::opaque]
pub open spec fn spec_cascaded_message_expr(s: Seq<Glyph>, p: int) -> Parsed<ExprView>
    decreases s.len() - p, 10int,
{
    match within(spec_message_expr(s, p), p, s) {
        Ok((head, next)) => match spec_cascade_message(s, next) {
            Ok(_) => Ok(spec_cascade_tail(s, head, next)),
            Err(e) => Err(e),
        },
        Err(e) => Err(e),
    }
}

/// An assignment: a name, the arrow, and the expression that is assigned,
/// which may be an assignment again.
#[verifier::opaque]
pub open spec fn spec_assign(s: Seq<Glyph>, p: int) -> Parsed<ExprView>
    decreases s.len() - p, 0int,
{
    match spec_ident(s, p) {
        Ok((name, arrow_at)) => match spec_assignment(s, arrow_at) {
            Ok((_, value_at)) => {
                proof {
                    lemma_tokens_advance(s, p);
                    lemma_tokens_advance(s, arrow_at);
                }
                match spec_expr(s, value_at) {
                    Ok((value, next)) => Ok((ExprView::Assign(name, Box::new(value)), next)),
                    Err(e) => Err(e),
                }
            },
            Err(e) => Err(e),
        },
        Err(e) => Err(e),
    }
}

/// An expression: an assignment, else a cascade, else a message send, else a
/// primary.
#[verifier::opaque]
pub open spec fn spec_expr(s: Seq<Glyph>, p: int) -> Parsed<ExprView>
    decreases s.len() - p, 11int,
{
    or_else(
        or_else(
            or_else(spec_assign(s, p), spec_cascaded_message_expr(s, p)),
            spec_message_expr(s, p),
        ),
        spec_primary(s, p),
    )
}

/// The statements from `p` on, after the statements `acc`.
///
/// * Where `^` stands, the sequence ends with a return: the expression after
///   it is the last statement, and its failure is the failure of the
///   sequence.
/// * Else, where an expression is read, a full stop must follow it, and the
///   statements after the full stop follow in their turn. An expression
///   without its full stop is a failure.
/// * Where an expression begins and fails further on, its failure is the
///   failure of the sequence.
/// * Where nothing at `p` begins an expression, the sequence ends there, and
///   is empty if nothing was read before.
#[verifier::opaque]
pub open spec fn spec_statements(s: Seq<Glyph>, acc: Seq<StatementView>, p: int) -> Parsed<
    Seq<StatementView>,
>
    decreases s.len() - p, 12int,
{
    if holds(s, p, '^') {
        proof {
            lemma_tokens_advance(s, p + 1);
        }
        match spec_expr(s, skip_spaces(s, p + 1)) {
            Ok((value, next)) => Ok((acc.push(StatementView::Ret(value)), next)),
            Err(e) => Err(e),
        }
    } else {
        match within(spec_expr(s, p), p, s) {
            Ok((value, stop)) => if holds(s, stop, '.') {
                proof {
                    lemma_tokens_advance(s, stop + 1);
                }
                spec_statements(s, acc.push(StatementView::E(value)), skip_spaces(s, stop + 1))
            } else {
                Err(fail(ErrorKind::UnexpectedToken, stop))
            },
            Err(e) => if e.at > p {
                Err(e)
            } else {
                Ok((acc, p))
            },
        }
    }
}

/// The parameters of a block that are read end at or after `p`, and inside
/// the input where `p` is.
pub proof fn lemma_block_vars_bounds(s: Seq<Glyph>, acc: Seq<Seq<char>>, p: int)
    ensures
        spec_block_vars(s, acc, p) matches Ok((_, next)) ==> p <= next && (0 <= p <= s.len()
            ==> next <= s.len()),
    decreases s.len() - p,
{
    lemma_tokens_advance(s, p + 1);
    if holds(s, p, ':') {
        if let Ok((name, next)) = spec_ident(s, p + 1) {
            lemma_block_vars_bounds(s, acc.push(name), next);
        }
    }
}

/// A unary selector that is read takes at least one character; the unary
/// messages from `p` on end between `p` and the end of the input.
pub proof fn lemma_unary_tail_bounds(s: Seq<Glyph>, receiver: ExprView, p: int)
    ensures
        spec_unary_selector(s, p) matches Ok((_, next)) ==> p < next <= s.len(),
        p <= spec_unary_tail(s, receiver, p).1,
        0 <= p <= s.len() ==> spec_unary_tail(s, receiver, p).1 <= s.len(),
    decreases s.len() - p,
{
    lemma_tokens_advance(s, p);
    if let Ok((selector, next)) = spec_unary_selector(s, p) {
        lemma_unary_tail_bounds(s, send(receiver, selector), next);
    }
}

proof fn lemma_block_advances(s: Seq<Glyph>, p: int)
    ensures
        spec_block(s, p) matches Ok((_, next)) ==> p < next <= s.len(),
    decreases s.len() - p, 0int,
{
    reveal(spec_block);
    reveal(spec_statements);
    if holds(s, p, '[') {
        lemma_tokens_advance(s, p + 1);
        lemma_block_vars_bounds(s, Seq::empty(), skip_spaces(s, p + 1));
        if let Ok((vars, bar)) = spec_block_vars(s, Seq::empty(), skip_spaces(s, p + 1)) {
            if holds(s, bar, '|') {
                lemma_tokens_advance(s, bar + 1);
                let body_at = skip_spaces(s, bar + 1);
                lemma_statements_bounds(s, Seq::empty(), body_at);
                if let Ok((statements, close)) = spec_statements(s, Seq::empty(), body_at) {
                    lemma_tokens_advance(s, close + 1);
                }
            }
        }
    }
}

proof fn lemma_paren_advances(s: Seq<Glyph>, p: int)
    ensures
        spec_paren(s, p) matches Ok((_, next)) ==> p < next <= s.len(),
    decreases s.len() - p, 0int,
{
    reveal(spec_paren);
    reveal(spec_expr);
    if holds(s, p, '(') {
        lemma_tokens_advance(s, p + 1);
        lemma_expr_advances(s, skip_spaces(s, p + 1));
        if let Ok((inner, close)) = spec_expr(s, skip_spaces(s, p + 1)) {
            lemma_tokens_advance(s, close + 1);
        }
    }
}

proof fn lemma_primary_advances(s: Seq<Glyph>, p: int)
    ensures
        spec_primary(s, p) matches Ok((_, next)) ==> p < next <= s.len(),
    decreases s.len() - p, 1int,
{
    reveal(spec_primary);
    reveal(spec_block);
    reveal(spec_paren);
    lemma_tokens_advance(s, p);
    lemma_literal_advances(s, p);
    lemma_block_advances(s, p);
    lemma_paren_advances(s, p);
}

proof fn lemma_unary_advances(s: Seq<Glyph>, p: int)
    ensures
        spec_unary_object(s, p) matches Ok((_, next)) ==> p < next <= s.len(),
        spec_unary_expr(s, p) matches Ok((_, next)) ==> p < next <= s.len(),
    decreases s.len() - p, 2int,
{
    reveal(spec_unary_object);
    reveal(spec_unary_expr);
    reveal(spec_primary);
    lemma_primary_advances(s, p);
    if let Ok((receiver, next)) = spec_primary(s, p) {
        lemma_unary_tail_bounds(s, receiver, next);
    }
}

proof fn lemma_binary_part_advances(s: Seq<Glyph>, p: int)
    ensures
        spec_binary_part(s, p) matches Ok((_, next)) ==> p < next <= s.len(),
    decreases s.len() - p, 0int,
{
    reveal(spec_binary_part);
    reveal(spec_unary_object);
    lemma_tokens_advance(s, p);
    if let Ok((selector, operand_at)) = spec_binary_selector(s, p) {
        lemma_unary_advances(s, operand_at);
    }
}

/// The binary messages from `p` on end between `p` and the end of the input.
pub proof fn lemma_binary_tail_bounds(s: Seq<Glyph>, receiver: ExprView, p: int)
    ensures
        p <= spec_binary_tail(s, receiver, p).1,
        0 <= p <= s.len() ==> spec_binary_tail(s, receiver, p).1 <= s.len(),
    decreases s.len() - p,
{
    reveal(spec_binary_tail);
    reveal(spec_binary_part);
    if let Ok((message, next)) = within(spec_binary_part(s, p), p + 1, s) {
        lemma_binary_tail_bounds(s, send(receiver, message), next);
    }
}

proof fn lemma_binary_advances(s: Seq<Glyph>, p: int)
    ensures
        spec_binary_object(s, p) matches Ok((_, next)) ==> p < next <= s.len(),
        spec_binary_expr(s, p) matches Ok((_, next)) ==> p < next <= s.len(),
    decreases s.len() - p, 4int,
{
    reveal(spec_binary_object);
    reveal(spec_binary_expr);
    reveal(spec_unary_object);
    reveal(spec_binary_tail);
    reveal(spec_binary_part);
    lemma_unary_advances(s, p);
    if let Ok((receiver, next)) = spec_unary_object(s, p) {
        lemma_binary_tail_bounds(s, receiver, next);
    }
}

proof fn lemma_keyword_part_advances(s: Seq<Glyph>, p: int)
    ensures
        spec_keyword_part(s, p) matches Ok((_, next)) ==> p < next <= s.len(),
    decreases s.len() - p, 0int,
{
    reveal(spec_keyword_part);
    reveal(spec_binary_object);
    lemma_tokens_advance(s, p);
    if let Ok((id, argument_at)) = spec_keyword_lit(s, p) {
        lemma_binary_advances(s, argument_at);
    }
}

/// The keywords with their arguments from `p` on end between `p` and the end
/// of the input.
pub proof fn lemma_keyword_tail_bounds(s: Seq<Glyph>, acc: Seq<KeywordView>, p: int)
    ensures
        p <= spec_keyword_tail(s, acc, p).1,
        0 <= p <= s.len() ==> spec_keyword_tail(s, acc, p).1 <= s.len(),
    decreases s.len() - p,
{
    reveal(spec_keyword_tail);
    reveal(spec_keyword_part);
    if let Ok((pair, next)) = within(spec_keyword_part(s, p), p + 1, s) {
        lemma_keyword_tail_bounds(s, acc.push(pair), next);
    }
}

proof fn lemma_keyword_advances(s: Seq<Glyph>, p: int)
    ensures
        spec_keyword_parts(s, p) matches Ok((_, next)) ==> p < next <= s.len(),
        spec_keyword_expr(s, p) matches Ok((_, next)) ==> p < next <= s.len(),
    decreases s.len() - p, 7int,
{
    reveal(spec_keyword_parts);
    reveal(spec_keyword_expr);
    reveal(spec_keyword_part);
    reveal(spec_keyword_tail);
    reveal(spec_binary_object);
    lemma_keyword_part_advances(s, p);
    if let Ok((pair, next)) = spec_keyword_part(s, p) {
        lemma_keyword_tail_bounds(s, seq![pair], next);
    }
    lemma_binary_advances(s, p);
    if let Ok((receiver, next)) = spec_binary_object(s, p) {
        lemma_keyword_part_advances(s, next);
        if let Ok((pair, after)) = spec_keyword_part(s, next) {
            lemma_keyword_tail_bounds(s, seq![pair], after);
        }
    }
}

proof fn lemma_message_advances(s: Seq<Glyph>, p: int)
    ensures
        spec_message_expr(s, p) matches Ok((_, next)) ==> p < next <= s.len(),
    decreases s.len() - p, 8int,
{
    reveal(spec_message_expr);
    reveal(spec_keyword_expr);
    reveal(spec_binary_expr);
    reveal(spec_unary_expr);
    lemma_keyword_advances(s, p);
    lemma_binary_advances(s, p);
    lemma_unary_advances(s, p);
}

proof fn lemma_cascade_message_advances(s: Seq<Glyph>, p: int)
    ensures
        spec_cascade_message(s, p) matches Ok((_, next)) ==> p < next <= s.len(),
    decreases s.len() - p, 8int,
{
    reveal(spec_cascade_message);
    reveal(spec_binary_part);
    reveal(spec_keyword_parts);
    lemma_tokens_advance(s, p + 1);
    let q = if holds(s, p, ';') {
        skip_spaces(s, p + 1)
    } else {
        p
    };
    lemma_unary_tail_bounds(s, ExprView::Id(Seq::empty()), q);
    lemma_binary_part_advances(s, q);
    lemma_keyword_advances(s, q);
}

/// The further messages of a cascade from `p` on end between `p` and the end
/// of the input.
pub proof fn lemma_cascade_tail_bounds(s: Seq<Glyph>, receiver: ExprView, p: int)
    ensures
        p <= spec_cascade_tail(s, receiver, p).1,
        0 <= p <= s.len() ==> spec_cascade_tail(s, receiver, p).1 <= s.len(),
    decreases s.len() - p,
{
    reveal(spec_cascade_tail);
    reveal(spec_cascade_message);
    if let Ok((message, next)) = within(spec_cascade_message(s, p), p + 1, s) {
        lemma_cascade_tail_bounds(s, send(receiver, message), next);
    }
}

proof fn lemma_cascaded_advances(s: Seq<Glyph>, p: int)
    ensures
        spec_cascaded_message_expr(s, p) matches Ok((_, next)) ==> p < next <= s.len(),
    decreases s.len() - p, 10int,
{
    reveal(spec_cascaded_message_expr);
    reveal(spec_message_expr);
    reveal(spec_cascade_message);
    reveal(spec_cascade_tail);
    lemma_message_advances(s, p);
    if let Ok((head, next)) = spec_message_expr(s, p) {
        lemma_cascade_tail_bounds(s, head, next);
    }
}

proof fn lemma_assign_advances(s: Seq<Glyph>, p: int)
    ensures
        spec_assign(s, p) matches Ok((_, next)) ==> p < next <= s.len(),
    decreases s.len() - p, 0int,
{
    reveal(spec_assign);
    reveal(spec_expr);
    lemma_tokens_advance(s, p);
    if let Ok((name, arrow_at)) = spec_ident(s, p) {
        lemma_tokens_advance(s, arrow_at);
        if let Ok((_, value_at)) = spec_assignment(s, arrow_at) {
            lemma_expr_advances(s, value_at);
        }
    }
}

proof fn lemma_expr_advances(s: Seq<Glyph>, p: int)
    ensures
        spec_expr(s, p) matches Ok((_, next)) ==> p < next <= s.len(),
    decreases s.len() - p, 11int,
{
    reveal(spec_expr);
    reveal(spec_assign);
    reveal(spec_cascaded_message_expr);
    reveal(spec_message_expr);
    reveal(spec_primary);
    lemma_assign_advances(s, p);
    lemma_cascaded_advances(s, p);
    lemma_message_advances(s, p);
    lemma_primary_advances(s, p);
}

/// The statements that are read end at or after `p`, and inside the input
/// where `p` is.
pub proof fn lemma_statements_bounds(s: Seq<Glyph>, acc: Seq<StatementView>, p: int)
    ensures
        spec_statements(s, acc, p) matches Ok((_, next)) ==> p <= next && (0 <= p <= s.len()
            ==> next <= s.len()),
    decreases s.len() - p, 12int,
{
    reveal(spec_statements);
    reveal(spec_expr);
    lemma_tokens_advance(s, p + 1);
    if holds(s, p, '^') {
        lemma_expr_advances(s, skip_spaces(s, p + 1));
    }
    lemma_expr_advances(s, p);
    if let Ok((value, stop)) = spec_expr(s, p) {
        if holds(s, stop, '.') {
            lemma_tokens_advance(s, stop + 1);
            lemma_statements_bounds(
                s,
                acc.push(StatementView::E(value)),
                skip_spaces(s, stop + 1),
            );
        }
    }
}

/// Whether every one of `list` but the last is no return.
pub open spec fn return_only_last(list: Seq<StatementView>) -> bool {
    forall|i: int| 0 <= i < list.len() - 1 ==> (#[trigger] list[i]) is E
}

/// A return is the last statement of its sequence: where none of `acc` is a
/// return, none of the statements that are read is one, but for the last.
pub proof fn lemma_return_is_last(s: Seq<Glyph>, acc: Seq<StatementView>, p: int)
    requires
        forall|i: int| 0 <= i < acc.len() ==> (#[trigger] acc[i]) is E,
    ensures
        spec_statements(s, acc, p) matches Ok((list, _)) ==> return_only_last(list),
    decreases s.len() - p,
{
    reveal(spec_statements);
    reveal(spec_expr);
    lemma_expr_advances(s, p);
    if !holds(s, p, '^') {
        if let Ok((value, stop)) = spec_expr(s, p) {
            if holds(s, stop, '.') {
                lemma_tokens_advance(s, stop + 1);
                lemma_return_is_last(
                    s,
                    acc.push(StatementView::E(value)),
                    skip_spaces(s, stop + 1),
                );
            }
        }
    }
}

/// Every rule that reads something reads at least one character and ends
/// inside the input. So `within` changes no outcome of a rule at its own
/// position: the models are the grammar as it is written, with nothing cut
/// off.
pub proof fn lemma_rules_advance(s: Seq<Glyph>, p: int)
    ensures
        spec_block(s, p) matches Ok((_, next)) ==> p < next <= s.len(),
        spec_paren(s, p) matches Ok((_, next)) ==> p < next <= s.len(),
        spec_primary(s, p) matches Ok((_, next)) ==> p < next <= s.len(),
        spec_unary_object(s, p) matches Ok((_, next)) ==> p < next <= s.len(),
        spec_unary_expr(s, p) matches Ok((_, next)) ==> p < next <= s.len(),
        spec_binary_part(s, p) matches Ok((_, next)) ==> p < next <= s.len(),
        spec_binary_object(s, p) matches Ok((_, next)) ==> p < next <= s.len(),
        spec_binary_expr(s, p) matches Ok((_, next)) ==> p < next <= s.len(),
        spec_keyword_part(s, p) matches Ok((_, next)) ==> p < next <= s.len(),
        spec_keyword_parts(s, p) matches Ok((_, next)) ==> p < next <= s.len(),
        spec_keyword_expr(s, p) matches Ok((_, next)) ==> p < next <= s.len(),
        spec_message_expr(s, p) matches Ok((_, next)) ==> p < next <= s.len(),
        spec_cascade_message(s, p) matches Ok((_, next)) ==> p < next <= s.len(),
        spec_cascaded_message_expr(s, p) matches Ok((_, next)) ==> p < next <= s.len(),
        spec_assign(s, p) matches Ok((_, next)) ==> p < next <= s.len(),
        spec_expr(s, p) matches Ok((_, next)) ==> p < next <= s.len(),
        within(spec_unary_object(s, p), p, s) == spec_unary_object(s, p),
        within(spec_binary_part(s, p), p + 1, s) == spec_binary_part(s, p),
        within(spec_binary_object(s, p), p, s) == spec_binary_object(s, p),
        within(spec_keyword_part(s, p), p + 1, s) == spec_keyword_part(s, p),
        within(spec_message_expr(s, p), p, s) == spec_message_expr(s, p),
        within(spec_cascade_message(s, p), p + 1, s) == spec_cascade_message(s, p),
        within(spec_expr(s, p), p, s) == spec_expr(s, p),
{
    lemma_block_advances(s, p);
    lemma_paren_advances(s, p);
    lemma_primary_advances(s, p);
    lemma_unary_advances(s, p);
    lemma_binary_part_advances(s, p);
    lemma_binary_advances(s, p);
    lemma_keyword_part_advances(s, p);
    lemma_keyword_advances(s, p);
    lemma_message_advances(s, p);
    lemma_cascade_message_advances(s, p);
    lemma_cascaded_advances(s, p);
    lemma_assign_advances(s, p);
    lemma_expr_advances(s, p);
}

/// The definitions of the rules at `p`, for whoever computes with them: each
/// rule is what its model says, in terms of the rules it calls.
pub proof fn lemma_rules_unfold(s: Seq<Glyph>, p: int)
    ensures
        spec_block(s, p) == {
            if holds(s, p, '[') {
                match spec_block_vars(s, Seq::empty(), skip_spaces(s, p + 1)) {
                    Ok((vars, bar)) => if holds(s, bar, '|') {
                        match spec_statements(s, Seq::empty(), skip_spaces(s, bar + 1)) {
                            Ok((statements, close)) => if holds(s, close, ']') {
                                Ok(
                                    (
                                        ExprView::Block { vars, statements },
                                        skip_spaces(s, close + 1),
                                    ),
                                )
                            } else {
                                Err(fail(ErrorKind::UnclosedDelimiter, close))
                            },
                            Err(e) => Err(e),
                        }
                    } else {
                        Err(fail(ErrorKind::UnexpectedToken, bar))
                    },
                    Err(e) => Err(e),
                }
            } else {
                Err(fail(ErrorKind::UnexpectedToken, p))
            }
        },
        spec_paren(s, p) == {
            if holds(s, p, '(') {
                match spec_expr(s, skip_spaces(s, p + 1)) {
                    Ok((inner, close)) => if holds(s, close, ')') {
                        Ok((inner, skip_spaces(s, close + 1)))
                    } else {
                        Err(fail(ErrorKind::UnclosedDelimiter, close))
                    },
                    Err(e) => Err(e),
                }
            } else {
                Err(fail(ErrorKind::UnexpectedToken, p))
            }
        },
        spec_primary(s, p) == {
            or_else(
                or_else(
                    or_else(as_id(spec_ident(s, p)), as_lit(spec_literal(s, p))),
                    spec_block(s, p),
                ),
                spec_paren(s, p),
            )
        },
        spec_unary_object(s, p) == {
            match spec_primary(s, p) {
                Ok((receiver, next)) => Ok(spec_unary_tail(s, receiver, next)),
                Err(e) => Err(e),
            }
        },
        spec_unary_expr(s, p) == {
            match spec_primary(s, p) {
                Ok((receiver, next)) => match spec_unary_selector(s, next) {
                    Ok(_) => Ok(spec_unary_tail(s, receiver, next)),
                    Err(e) => Err(e),
                },
                Err(e) => Err(e),
            }
        },
        spec_binary_part(s, p) == {
            match spec_binary_selector(s, p) {
                Ok((selector, operand_at)) => {
                    match spec_unary_object(s, operand_at) {
                        Ok((operand, next)) => Ok(
                            (MsgView::Binary(selector, Box::new(operand)), next),
                        ),
                        Err(e) => Err(e),
                    }
                },
                Err(e) => Err(e),
            }
        },
        spec_binary_object(s, p) == {
            match within(spec_unary_object(s, p), p, s) {
                Ok((receiver, next)) => Ok(spec_binary_tail(s, receiver, next)),
                Err(e) => Err(e),
            }
        },
        spec_binary_expr(s, p) == {
            match within(spec_unary_object(s, p), p, s) {
                Ok((receiver, next)) => match spec_binary_part(s, next) {
                    Ok(_) => Ok(spec_binary_tail(s, receiver, next)),
                    Err(e) => Err(e),
                },
                Err(e) => Err(e),
            }
        },
        spec_keyword_part(s, p) == {
            match spec_keyword_lit(s, p) {
                Ok((id, argument_at)) => {
                    match spec_binary_object(s, argument_at) {
                        Ok((val, next)) => Ok((KeywordView { id, val }, next)),
                        Err(e) => Err(
                            furthest(fail(ErrorKind::IncompleteKeywordMessage, argument_at), e),
                        ),
                    }
                },
                Err(e) => Err(e),
            }
        },
        spec_keyword_parts(s, p) == {
            match within(spec_keyword_part(s, p), p, s) {
                Ok((pair, next)) => Ok(spec_keyword_tail(s, seq![pair], next)),
                Err(e) => Err(e),
            }
        },
        spec_keyword_expr(s, p) == {
            match within(spec_binary_object(s, p), p, s) {
                Ok((receiver, next)) => match spec_keyword_parts(s, next) {
                    Ok((pairs, after)) => Ok((send(receiver, MsgView::Kwargs(pairs)), after)),
                    Err(e) => Err(e),
                },
                Err(e) => Err(e),
            }
        },
        spec_message_expr(s, p) == {
            or_else(or_else(spec_keyword_expr(s, p), spec_binary_expr(s, p)), spec_unary_expr(s, p))
        },
        spec_cascade_message(s, p) == {
            let q = if holds(s, p, ';') {
                skip_spaces(s, p + 1)
            } else {
                p
            };
            or_else(
                or_else(spec_unary_selector(s, q), spec_binary_part(s, q)),
                as_kwargs(spec_keyword_parts(s, q)),
            )
        },
        spec_cascaded_message_expr(s, p) == {
            match within(spec_message_expr(s, p), p, s) {
                Ok((head, next)) => match spec_cascade_message(s, next) {
                    Ok(_) => Ok(spec_cascade_tail(s, head, next)),
                    Err(e) => Err(e),
                },
                Err(e) => Err(e),
            }
        },
        spec_assign(s, p) == {
            match spec_ident(s, p) {
                Ok((name, arrow_at)) => match spec_assignment(s, arrow_at) {
                    Ok((_, value_at)) => {
                        match spec_expr(s, value_at) {
                            Ok((value, next)) => Ok(
                                (ExprView::Assign(name, Box::new(value)), next),
                            ),
                            Err(e) => Err(e),
                        }
                    },
                    Err(e) => Err(e),
                },
                Err(e) => Err(e),
            }
        },
        spec_expr(s, p) == {
            or_else(
                or_else(
                    or_else(spec_assign(s, p), spec_cascaded_message_expr(s, p)),
                    spec_message_expr(s, p),
                ),
                spec_primary(s, p),
            )
        },
{
    reveal(spec_assign);
    reveal(spec_binary_expr);
    reveal(spec_binary_object);
    reveal(spec_binary_part);
    reveal(spec_binary_tail);
    reveal(spec_block);
    reveal(spec_cascade_message);
    reveal(spec_cascade_tail);
    reveal(spec_cascaded_message_expr);
    reveal(spec_expr);
    reveal(spec_keyword_expr);
    reveal(spec_keyword_part);
    reveal(spec_keyword_parts);
    reveal(spec_keyword_tail);
    reveal(spec_message_expr);
    reveal(spec_paren);
    reveal(spec_primary);
    reveal(spec_statements);
    reveal(spec_unary_expr);
    reveal(spec_unary_object);
}

/// The definitions, at `p`, of the rules that go on from what was read
/// before them.
pub proof fn lemma_tails_unfold(
    s: Seq<Glyph>,
    receiver: ExprView,
    acc: Seq<KeywordView>,
    list: Seq<StatementView>,
    p: int,
)
    ensures
        spec_binary_tail(s, receiver, p) == {
            match within(spec_binary_part(s, p), p + 1, s) {
                Ok((message, next)) => spec_binary_tail(s, send(receiver, message), next),
                Err(_) => (receiver, p),
            }
        },
        spec_keyword_tail(s, acc, p) == {
            match within(spec_keyword_part(s, p), p + 1, s) {
                Ok((pair, next)) => spec_keyword_tail(s, acc.push(pair), next),
                Err(_) => (acc, p),
            }
        },
        spec_cascade_tail(s, receiver, p) == {
            match within(spec_cascade_message(s, p), p + 1, s) {
                Ok((message, next)) => spec_cascade_tail(s, send(receiver, message), next),
                Err(_) => (receiver, p),
            }
        },
        spec_statements(s, list, p) == {
            if holds(s, p, '^') {
                match spec_expr(s, skip_spaces(s, p + 1)) {
                    Ok((value, next)) => Ok((list.push(StatementView::Ret(value)), next)),
                    Err(e) => Err(e),
                }
            } else {
                match within(spec_expr(s, p), p, s) {
                    Ok((value, stop)) => if holds(s, stop, '.') {
                        spec_statements(
                            s,
                            list.push(StatementView::E(value)),
                            skip_spaces(s, stop + 1),
                        )
                    } else {
                        Err(fail(ErrorKind::UnexpectedToken, stop))
                    },
                    Err(e) => if e.at > p {
                        Err(e)
                    } else {
                        Ok((list, p))
                    },
                }
            }
        },
{
    reveal(spec_binary_part);
    reveal(spec_binary_tail);
    reveal(spec_cascade_message);
    reveal(spec_cascade_tail);
    reveal(spec_expr);
    reveal(spec_keyword_part);
    reveal(spec_keyword_tail);
    reveal(spec_statements);
}

/// A message send, told by its parts: a primary; the unary messages sent to
/// it; the binary messages sent to that; and keywords with their arguments.
/// With keywords it is a keyword send. Without, it is what the binary
/// messages gave, where there was one; else what the unary messages gave,
/// where there was one; else no send at all.
pub open spec fn spec_send_by_parts(s: Seq<Glyph>, p: int) -> Parsed<ExprView> {
    match spec_primary(s, p) {
        Err(e) => Err(e),
        Ok((first, after_first)) => {
            let (operand, after_unary) = spec_unary_tail(s, first, after_first);
            let (receiver, after_binary) = spec_binary_tail(s, operand, after_unary);
            match spec_keyword_parts(s, after_binary) {
                Ok((pairs, next)) => Ok((send(receiver, MsgView::Kwargs(pairs)), next)),
                Err(e1) => match spec_binary_part(s, after_unary) {
                    Ok(_) => Ok((receiver, after_binary)),
                    Err(e2) => match spec_unary_selector(s, after_first) {
                        Ok(_) => Ok((operand, after_unary)),
                        Err(e3) => Err(furthest(furthest(e1, e2), e3)),
                    },
                },
            }
        },
    }
}

/// The three tiers of precedence: the ordered choice of keyword, binary and
/// unary send reads a primary, then every unary message, then every binary
/// message, then the keywords, each tier on what the tier before it gave.
pub proof fn lemma_message_by_parts(s: Seq<Glyph>, p: int)
    ensures
        spec_message_expr(s, p) == spec_send_by_parts(s, p),
{
    lemma_rules_advance(s, p);
    match spec_primary(s, p) {
        Err(e) => {
            assert(spec_message_expr(s, p) == Err::<(ExprView, int), Failure>(e))
                by {
                reveal(spec_message_expr);
                reveal(spec_keyword_expr);
                reveal(spec_binary_expr);
                reveal(spec_unary_expr);
                reveal(spec_binary_object);
                reveal(spec_unary_object);
                reveal(spec_primary);
            }
        },
        Ok((first, after_first)) => {
            let (operand, after_unary) = spec_unary_tail(s, first, after_first);
            let (receiver, after_binary) = spec_binary_tail(s, operand, after_unary);
            lemma_unary_tail_bounds(s, first, after_first);
            lemma_binary_tail_bounds(s, operand, after_unary);
            assert(spec_unary_object(s, p) == Ok::<(ExprView, int), Failure>(
                (operand, after_unary),
            )) by {
                reveal(spec_unary_object);
                reveal(spec_primary);
            }
            assert(spec_unary_expr(s, p) == match spec_unary_selector(s, after_first) {
                Ok(_) => Ok::<(ExprView, int), Failure>((operand, after_unary)),
                Err(e) => Err(e),
            }) by {
                reveal(spec_unary_expr);
                reveal(spec_primary);
            }
            assert(spec_binary_object(s, p) == Ok::<(ExprView, int), Failure>(
                (receiver, after_binary),
            )) by {
                reveal(spec_binary_object);
                reveal(spec_unary_object);
                reveal(spec_binary_tail);
            }
            assert(spec_binary_expr(s, p) == match spec_binary_part(s, after_unary) {
                Ok(_) => Ok::<(ExprView, int), Failure>((receiver, after_binary)),
                Err(e) => Err(e),
            }) by {
                reveal(spec_binary_expr);
                reveal(spec_unary_object);
                reveal(spec_binary_part);
                reveal(spec_binary_tail);
            }
            assert(spec_keyword_expr(s, p) == match spec_keyword_parts(s, after_binary) {
                Ok((pairs, next)) => Ok::<(ExprView, int), Failure>(
                    (send(receiver, MsgView::Kwargs(pairs)), next),
                ),
                Err(e) => Err(e),
            }) by {
                reveal(spec_keyword_expr);
                reveal(spec_binary_object);
                reveal(spec_keyword_parts);
            }
            assert(spec_binary_part(s, after_unary) is Err ==> receiver == operand
                && after_binary == after_unary) by {
                reveal(spec_binary_tail);
                reveal(spec_binary_part);
            }
            assert(spec_message_expr(s, p) == or_else(
                or_else(spec_keyword_expr(s, p), spec_binary_expr(s, p)),
                spec_unary_expr(s, p),
            )) by {
                reveal(spec_message_expr);
                reveal(spec_keyword_expr);
                reveal(spec_binary_expr);
                reveal(spec_unary_expr);
            }
        },
    }
}

/// An expression, told by its parts: an assignment; else a message send with
/// the further messages of a cascade, if any; else a primary alone.
pub open spec fn spec_expr_by_parts(s: Seq<Glyph>, p: int) -> Parsed<ExprView> {
    match spec_assign(s, p) {
        Ok(assigned) => Ok(assigned),
        Err(e0) => match spec_message_expr(s, p) {
            Ok((head, next)) => Ok(spec_cascade_tail(s, head, next)),
            Err(_) => match spec_primary(s, p) {
                Ok(first) => Ok(first),
                Err(e) => Err(furthest(e0, e)),
            },
        },
    }
}

/// The ordered choice of assignment, cascade, message send and primary comes
/// to this: what is no assignment is a primary with every message that can be
/// sent to it, and fails only where the primary does.
pub proof fn lemma_expr_by_parts(s: Seq<Glyph>, p: int)
    ensures
        spec_expr(s, p) == spec_expr_by_parts(s, p),
{
    lemma_rules_advance(s, p);
    lemma_message_by_parts(s, p);
    assert(spec_expr(s, p) == or_else(
        or_else(
            or_else(spec_assign(s, p), spec_cascaded_message_expr(s, p)),
            spec_message_expr(s, p),
        ),
        spec_primary(s, p),
    )) by {
        reveal(spec_expr);
        reveal(spec_assign);
        reveal(spec_cascaded_message_expr);
        reveal(spec_message_expr);
        reveal(spec_primary);
    }
    match spec_message_expr(s, p) {
        Ok((head, next)) => {
            assert(spec_cascaded_message_expr(s, p) == match spec_cascade_message(s, next) {
                Ok(_) => Ok::<(ExprView, int), Failure>(
                    spec_cascade_tail(s, head, next),
                ),
                Err(e) => Err(e),
            }) by {
                reveal(spec_cascaded_message_expr);
                reveal(spec_message_expr);
                reveal(spec_cascade_message);
                reveal(spec_cascade_tail);
            }
            assert(spec_cascade_message(s, next) is Err ==> spec_cascade_tail(s, head, next) == (
                head,
                next,
            )) by {
                reveal(spec_cascade_tail);
                reveal(spec_cascade_message);
            }
        },
        Err(e) => {
            assert(spec_cascaded_message_expr(s, p) == Err::<(ExprView, int), Failure>(
                e,
            )) by {
                reveal(spec_cascaded_message_expr);
                reveal(spec_message_expr);
            }
        },
    }
}

/// Whether every one of `names` is a name.
pub open spec fn all_named(names: Seq<Seq<char>>) -> bool {
    forall|i: int| 0 <= i < names.len() ==> is_name(#[trigger] names[i])
}

/// Whether every one of `pairs` is well formed.
pub open spec fn all_pairs_well_formed(pairs: Seq<KeywordView>) -> bool {
    forall|i: int| 0 <= i < pairs.len() ==> (#[trigger] pairs[i]).well_formed()
}

proof fn lemma_block_vars_named(s: Seq<Glyph>, acc: Seq<Seq<char>>, p: int)
    requires
        faithful(s),
        all_named(acc),
    ensures
        spec_block_vars(s, acc, p) matches Ok((names, _)) ==> all_named(names),
    decreases s.len() - p,
{
    lemma_tokens_advance(s, p + 1);
    lemma_name_shape(s, p + 1);
    if holds(s, p, ':') {
        if let Ok((name, next)) = spec_ident(s, p + 1) {
            lemma_block_vars_named(s, acc.push(name), next);
        }
    }
}

proof fn lemma_unary_tail_well_formed(s: Seq<Glyph>, receiver: ExprView, p: int)
    requires
        faithful(s),
        receiver.well_formed(),
    ensures
        spec_unary_selector(s, p) matches Ok((selector, _)) ==> selector.well_formed(),
        spec_unary_tail(s, receiver, p).0.well_formed(),
    decreases s.len() - p,
{
    lemma_tokens_advance(s, p);
    lemma_name_shape(s, p);
    if let Ok((selector, next)) = spec_unary_selector(s, p) {
        assert(selector.well_formed());
        assert(send(receiver, selector).well_formed());
        lemma_unary_tail_well_formed(s, send(receiver, selector), next);
    }
}

proof fn lemma_block_well_formed(s: Seq<Glyph>, p: int)
    requires
        faithful(s),
    ensures
        spec_block(s, p) matches Ok((tree, _)) ==> tree.well_formed(),
    decreases s.len() - p, 0int,
{
    reveal(spec_block);
    reveal(spec_statements);
    if holds(s, p, '[') {
        lemma_tokens_advance(s, p + 1);
        lemma_block_vars_bounds(s, Seq::empty(), skip_spaces(s, p + 1));
        lemma_block_vars_named(s, Seq::empty(), skip_spaces(s, p + 1));
        if let Ok((vars, bar)) = spec_block_vars(s, Seq::empty(), skip_spaces(s, p + 1)) {
            if holds(s, bar, '|') {
                lemma_tokens_advance(s, bar + 1);
                lemma_statements_well_formed(s, Seq::empty(), skip_spaces(s, bar + 1));
            }
        }
    }
}

proof fn lemma_paren_well_formed(s: Seq<Glyph>, p: int)
    requires
        faithful(s),
    ensures
        spec_paren(s, p) matches Ok((tree, _)) ==> tree.well_formed(),
    decreases s.len() - p, 0int,
{
    reveal(spec_paren);
    reveal(spec_expr);
    if holds(s, p, '(') {
        lemma_tokens_advance(s, p + 1);
        lemma_expr_well_formed(s, skip_spaces(s, p + 1));
    }
}

proof fn lemma_primary_well_formed(s: Seq<Glyph>, p: int)
    requires
        faithful(s),
    ensures
        spec_primary(s, p) matches Ok((tree, _)) ==> tree.well_formed(),
    decreases s.len() - p, 1int,
{
    reveal(spec_primary);
    reveal(spec_block);
    reveal(spec_paren);
    lemma_name_shape(s, p);
    lemma_literal_well_formed(s, p);
    lemma_block_well_formed(s, p);
    lemma_paren_well_formed(s, p);
}

proof fn lemma_unary_well_formed(s: Seq<Glyph>, p: int)
    requires
        faithful(s),
    ensures
        spec_unary_object(s, p) matches Ok((tree, _)) ==> tree.well_formed(),
        spec_unary_expr(s, p) matches Ok((tree, _)) ==> tree.well_formed(),
    decreases s.len() - p, 2int,
{
    reveal(spec_unary_object);
    reveal(spec_unary_expr);
    reveal(spec_primary);
    lemma_primary_well_formed(s, p);
    if let Ok((receiver, next)) = spec_primary(s, p) {
        lemma_unary_tail_well_formed(s, receiver, next);
    }
}

proof fn lemma_binary_part_well_formed(s: Seq<Glyph>, p: int)
    requires
        faithful(s),
    ensures
        spec_binary_part(s, p) matches Ok((message, _)) ==> message.well_formed(),
    decreases s.len() - p, 0int,
{
    reveal(spec_binary_part);
    reveal(spec_unary_object);
    lemma_tokens_advance(s, p);
    if let Ok((selector, operand_at)) = spec_binary_selector(s, p) {
        lemma_unary_well_formed(s, operand_at);
    }
}

proof fn lemma_binary_tail_well_formed(s: Seq<Glyph>, receiver: ExprView, p: int)
    requires
        faithful(s),
        receiver.well_formed(),
    ensures
        spec_binary_tail(s, receiver, p).0.well_formed(),
    decreases s.len() - p, 3int,
{
    reveal(spec_binary_tail);
    reveal(spec_binary_part);
    lemma_binary_part_well_formed(s, p);
    if let Ok((message, next)) = within(spec_binary_part(s, p), p + 1, s) {
        lemma_binary_tail_well_formed(s, send(receiver, message), next);
    }
}

proof fn lemma_binary_well_formed(s: Seq<Glyph>, p: int)
    requires
        faithful(s),
    ensures
        spec_binary_object(s, p) matches Ok((tree, _)) ==> tree.well_formed(),
        spec_binary_expr(s, p) matches Ok((tree, _)) ==> tree.well_formed(),
    decreases s.len() - p, 4int,
{
    reveal(spec_binary_object);
    reveal(spec_binary_expr);
    reveal(spec_unary_object);
    reveal(spec_binary_tail);
    reveal(spec_binary_part);
    lemma_unary_well_formed(s, p);
    lemma_unary_advances(s, p);
    if let Ok((receiver, next)) = spec_unary_object(s, p) {
        lemma_binary_tail_well_formed(s, receiver, next);
    }
}

proof fn lemma_keyword_part_well_formed(s: Seq<Glyph>, p: int)
    requires
        faithful(s),
    ensures
        spec_keyword_part(s, p) matches Ok((pair, _)) ==> pair.well_formed(),
    decreases s.len() - p, 0int,
{
    reveal(spec_keyword_part);
    reveal(spec_binary_object);
    lemma_tokens_advance(s, p);
    lemma_name_shape(s, p);
    if let Ok((id, argument_at)) = spec_keyword_lit(s, p) {
        lemma_binary_well_formed(s, argument_at);
    }
}

proof fn lemma_keyword_tail_well_formed(s: Seq<Glyph>, acc: Seq<KeywordView>, p: int)
    requires
        faithful(s),
        all_pairs_well_formed(acc),
    ensures
        all_pairs_well_formed(spec_keyword_tail(s, acc, p).0),
        spec_keyword_tail(s, acc, p).0.len() >= acc.len(),
    decreases s.len() - p, 5int,
{
    reveal(spec_keyword_tail);
    reveal(spec_keyword_part);
    lemma_keyword_part_well_formed(s, p);
    if let Ok((pair, next)) = within(spec_keyword_part(s, p), p + 1, s) {
        lemma_keyword_tail_well_formed(s, acc.push(pair), next);
    }
}

proof fn lemma_keyword_parts_well_formed(s: Seq<Glyph>, p: int)
    requires
        faithful(s),
    ensures
        spec_keyword_parts(s, p) matches Ok((pairs, _)) ==> (MsgView::Kwargs(
            pairs,
        )).well_formed(),
    decreases s.len() - p, 6int,
{
    reveal(spec_keyword_parts);
    reveal(spec_keyword_part);
    reveal(spec_keyword_tail);
    lemma_keyword_part_well_formed(s, p);
    lemma_keyword_part_advances(s, p);
    if let Ok((pair, next)) = spec_keyword_part(s, p) {
        lemma_keyword_tail_well_formed(s, seq![pair], next);
    }
}

proof fn lemma_keyword_expr_well_formed(s: Seq<Glyph>, p: int)
    requires
        faithful(s),
    ensures
        spec_keyword_expr(s, p) matches Ok((tree, _)) ==> tree.well_formed(),
    decreases s.len() - p, 7int,
{
    reveal(spec_keyword_expr);
    reveal(spec_binary_object);
    reveal(spec_keyword_parts);
    lemma_binary_well_formed(s, p);
    lemma_binary_advances(s, p);
    if let Ok((receiver, next)) = spec_binary_object(s, p) {
        lemma_keyword_parts_well_formed(s, next);
    }
}

proof fn lemma_message_well_formed(s: Seq<Glyph>, p: int)
    requires
        faithful(s),
    ensures
        spec_message_expr(s, p) matches Ok((tree, _)) ==> tree.well_formed(),
    decreases s.len() - p, 8int,
{
    reveal(spec_message_expr);
    reveal(spec_keyword_expr);
    reveal(spec_binary_expr);
    reveal(spec_unary_expr);
    lemma_keyword_expr_well_formed(s, p);
    lemma_binary_well_formed(s, p);
    lemma_unary_well_formed(s, p);
}

proof fn lemma_cascade_message_well_formed(s: Seq<Glyph>, p: int)
    requires
        faithful(s),
    ensures
        spec_cascade_message(s, p) matches Ok((message, _)) ==> message.well_formed(),
    decreases s.len() - p, 8int,
{
    reveal(spec_cascade_message);
    reveal(spec_binary_part);
    reveal(spec_keyword_parts);
    lemma_tokens_advance(s, p + 1);
    let q = if holds(s, p, ';') {
        skip_spaces(s, p + 1)
    } else {
        p
    };
    lemma_name_shape(s, q);
    lemma_binary_part_well_formed(s, q);
    lemma_keyword_parts_well_formed(s, q);
}

proof fn lemma_cascade_tail_well_formed(s: Seq<Glyph>, receiver: ExprView, p: int)
    requires
        faithful(s),
        receiver.well_formed(),
    ensures
        spec_cascade_tail(s, receiver, p).0.well_formed(),
    decreases s.len() - p, 9int,
{
    reveal(spec_cascade_tail);
    reveal(spec_cascade_message);
    lemma_cascade_message_well_formed(s, p);
    if let Ok((message, next)) = within(spec_cascade_message(s, p), p + 1, s) {
        lemma_cascade_tail_well_formed(s, send(receiver, message), next);
    }
}

proof fn lemma_cascaded_well_formed(s: Seq<Glyph>, p: int)
    requires
        faithful(s),
    ensures
        spec_cascaded_message_expr(s, p) matches Ok((tree, _)) ==> tree.well_formed(),
    decreases s.len() - p, 10int,
{
    reveal(spec_cascaded_message_expr);
    reveal(spec_message_expr);
    reveal(spec_cascade_message);
    reveal(spec_cascade_tail);
    lemma_message_well_formed(s, p);
    lemma_message_advances(s, p);
    if let Ok((head, next)) = spec_message_expr(s, p) {
        lemma_cascade_tail_well_formed(s, head, next);
    }
}

proof fn lemma_assign_well_formed(s: Seq<Glyph>, p: int)
    requires
        faithful(s),
    ensures
        spec_assign(s, p) matches Ok((tree, _)) ==> tree.well_formed(),
    decreases s.len() - p, 0int,
{
    reveal(spec_assign);
    reveal(spec_expr);
    lemma_tokens_advance(s, p);
    lemma_name_shape(s, p);
    if let Ok((name, arrow_at)) = spec_ident(s, p) {
        lemma_tokens_advance(s, arrow_at);
        if let Ok((_, value_at)) = spec_assignment(s, arrow_at) {
            lemma_expr_well_formed(s, value_at);
        }
    }
}

proof fn lemma_expr_well_formed(s: Seq<Glyph>, p: int)
    requires
        faithful(s),
    ensures
        spec_expr(s, p) matches Ok((tree, _)) ==> tree.well_formed(),
    decreases s.len() - p, 11int,
{
    reveal(spec_expr);
    reveal(spec_assign);
    reveal(spec_cascaded_message_expr);
    reveal(spec_message_expr);
    reveal(spec_primary);
    lemma_assign_well_formed(s, p);
    lemma_cascaded_well_formed(s, p);
    lemma_message_well_formed(s, p);
    lemma_primary_well_formed(s, p);
}

proof fn lemma_statements_well_formed(s: Seq<Glyph>, acc: Seq<StatementView>, p: int)
    requires
        faithful(s),
        all_well_formed(acc),
    ensures
        spec_statements(s, acc, p) matches Ok((list, _)) ==> all_well_formed(list),
    decreases s.len() - p, 12int,
{
    reveal(spec_statements);
    reveal(spec_expr);
    lemma_tokens_advance(s, p + 1);
    lemma_expr_advances(s, p);
    if holds(s, p, '^') {
        lemma_expr_well_formed(s, skip_spaces(s, p + 1));
    }
    lemma_expr_well_formed(s, p);
    if let Ok((value, stop)) = spec_expr(s, p) {
        if holds(s, stop, '.') {
            lemma_tokens_advance(s, stop + 1);
            lemma_statements_well_formed(
                s,
                acc.push(StatementView::E(value)),
                skip_spaces(s, stop + 1),
            );
        }
    }
}

/// Every tree that a rule gives on glyphs that carry the classes of their
/// characters is well formed: what stands for a name in it is a name, every
/// keyword is a name with its colon, every keyword message has a keyword,
/// every number has digits of its base only, and there is no method in it.
pub proof fn lemma_trees_are_well_formed(s: Seq<Glyph>, p: int)
    requires
        faithful(s),
    ensures
        spec_unary_selector(s, p) matches Ok((selector, _)) ==> selector.well_formed(),
        spec_block(s, p) matches Ok((tree, _)) ==> tree.well_formed(),
        spec_primary(s, p) matches Ok((tree, _)) ==> tree.well_formed(),
        spec_unary_object(s, p) matches Ok((tree, _)) ==> tree.well_formed(),
        spec_unary_expr(s, p) matches Ok((tree, _)) ==> tree.well_formed(),
        spec_binary_object(s, p) matches Ok((tree, _)) ==> tree.well_formed(),
        spec_binary_expr(s, p) matches Ok((tree, _)) ==> tree.well_formed(),
        spec_keyword_expr(s, p) matches Ok((tree, _)) ==> tree.well_formed(),
        spec_message_expr(s, p) matches Ok((tree, _)) ==> tree.well_formed(),
        spec_cascaded_message_expr(s, p) matches Ok((tree, _)) ==> tree.well_formed(),
        spec_expr(s, p) matches Ok((tree, _)) ==> tree.well_formed(),
        spec_statements(s, Seq::empty(), p) matches Ok((list, _)) ==> all_well_formed(list),
        spec_block_vars(s, Seq::empty(), p) matches Ok((names, _)) ==> all_named(names),
{
    lemma_name_shape(s, p);
    lemma_block_well_formed(s, p);
    lemma_primary_well_formed(s, p);
    lemma_unary_well_formed(s, p);
    lemma_binary_well_formed(s, p);
    lemma_keyword_expr_well_formed(s, p);
    lemma_message_well_formed(s, p);
    lemma_cascaded_well_formed(s, p);
    lemma_expr_well_formed(s, p);
    lemma_statements_well_formed(s, Seq::empty(), p);
    lemma_block_vars_named(s, Seq::empty(), p);
}

} // verus!
