//! Primaries, blocks, assignment, expressions and statement sequences as
//! executable rules. Each returns what its model in `grammar` says.

use crate::error::{ErrorKind, ParseError};
use crate::glyph::Glyph;
use crate::grammar::{
    lemma_expr_by_parts, spec_assign, spec_block, spec_block_vars, spec_expr, spec_paren,
    spec_primary, spec_statements,
};
use crate::lexical::{assignment, at, ident, spaces};
use crate::literal::literal;
use crate::messages::{cascade_tail, start, Start};
use crate::outcome::{model, model_all};
use crate::syntax::{views, Expr, Ident, Statement, StatementView};
use vstd::prelude::*;

verus! {

/// Reads the parameters of a block at `p`.
pub fn block_vars(glyphs: &[Glyph], p: usize) -> (r: Result<(Vec<Ident>, usize), ParseError>)
    ensures
        model_all(r) == spec_block_vars(glyphs@, Seq::empty(), p as int),
        r matches Ok((_, next)) ==> p <= next && (p <= glyphs.len() ==> next <= glyphs.len()),
{
    let mut vars: Vec<Ident> = Vec::new();
    let mut i: usize = p;
    assert(views(vars@) =~= Seq::<Seq<char>>::empty());
    loop
        invariant
            p <= i,
            p <= glyphs.len() ==> i <= glyphs.len(),
            spec_block_vars(glyphs@, Seq::empty(), p as int) == spec_block_vars(
                glyphs@,
                views(vars@),
                i as int,
            ),
        decreases glyphs.len() - i,
    {
        if !at(glyphs, i, ':') {
            return Ok((vars, i));
        }
        match ident(glyphs, i + 1) {
            Ok((name, next)) => {
                assert(views(vars@.push(name)) =~= views(vars@).push(name@));
                vars.push(name);
                i = next;
            },
            Err(e) => {
                return Err(e);
            },
        }
    }
}

/// Reads a block at `p`.
pub fn block(glyphs: &[Glyph], p: usize) -> (r: Result<(Expr, usize), ParseError>)
    ensures
        model(r) == spec_block(glyphs@, p as int),
        r matches Ok((_, next)) ==> p < next <= glyphs.len(),
    decreases glyphs.len() - p, 0int,
{
    proof {
        reveal(spec_block);
        reveal(spec_statements);
    }
    if !at(glyphs, p, '[') {
        return Err(ParseError::new(ErrorKind::UnexpectedToken, p));
    }
    let (vars, bar) = match block_vars(glyphs, spaces(glyphs, p + 1)) {
        Ok(found) => found,
        Err(e) => {
            return Err(e);
        },
    };
    if !at(glyphs, bar, '|') {
        return Err(ParseError::new(ErrorKind::UnexpectedToken, bar));
    }
    let (body, close) = match statements(glyphs, spaces(glyphs, bar + 1)) {
        Ok(found) => found,
        Err(e) => {
            return Err(e);
        },
    };
    if at(glyphs, close, ']') {
        Ok((Expr::block(vars, body), spaces(glyphs, close + 1)))
    } else {
        Err(ParseError::new(ErrorKind::UnclosedDelimiter, close))
    }
}

/// Reads an expression in parentheses at `p`.
pub fn paren(glyphs: &[Glyph], p: usize) -> (r: Result<(Expr, usize), ParseError>)
    ensures
        model(r) == spec_paren(glyphs@, p as int),
        r matches Ok((_, next)) ==> p < next <= glyphs.len(),
    decreases glyphs.len() - p, 0int,
{
    proof {
        reveal(spec_paren);
        reveal(spec_expr);
    }
    if !at(glyphs, p, '(') {
        return Err(ParseError::new(ErrorKind::UnexpectedToken, p));
    }
    match expr(glyphs, spaces(glyphs, p + 1)) {
        Ok((inner, close)) => {
            if at(glyphs, close, ')') {
                Ok((inner, spaces(glyphs, close + 1)))
            } else {
                Err(ParseError::new(ErrorKind::UnclosedDelimiter, close))
            }
        },
        Err(e) => Err(e),
    }
}

/// Reads a primary at `p`.
pub fn primary(glyphs: &[Glyph], p: usize) -> (r: Result<(Expr, usize), ParseError>)
    ensures
        model(r) == spec_primary(glyphs@, p as int),
        r matches Ok((_, next)) ==> p < next <= glyphs.len(),
    decreases glyphs.len() - p, 1int,
{
    proof {
        reveal(spec_primary);
        reveal(spec_block);
        reveal(spec_paren);
    }
    let e1 = match ident(glyphs, p) {
        Ok((name, next)) => {
            return Ok((Expr::Id(name), next));
        },
        Err(e) => e,
    };
    let e2 = match literal(glyphs, p) {
        Ok((value, next)) => {
            return Ok((Expr::Lit(value), next));
        },
        Err(e) => e,
    };
    let e3 = match block(glyphs, p) {
        Ok(found) => {
            return Ok(found);
        },
        Err(e) => e,
    };
    match paren(glyphs, p) {
        Ok(found) => Ok(found),
        Err(e4) => Err(e1.or_further(e2).or_further(e3).or_further(e4)),
    }
}

/// Reads an assignment at `p`.
pub fn assign(glyphs: &[Glyph], p: usize) -> (r: Result<(Expr, usize), ParseError>)
    ensures
        model(r) == spec_assign(glyphs@, p as int),
        r matches Ok((_, next)) ==> p < next <= glyphs.len(),
    decreases glyphs.len() - p, 0int,
{
    proof {
        reveal(spec_assign);
        reveal(spec_expr);
    }
    match ident(glyphs, p) {
        Ok((name, arrow_at)) => match assignment(glyphs, arrow_at) {
            Ok((_, value_at)) => match expr(glyphs, value_at) {
                Ok((value, next)) => Ok((Expr::assign(name, value), next)),
                Err(e) => Err(e),
            },
            Err(e) => Err(e),
        },
        Err(e) => Err(e),
    }
}

/// Reads an expression at `p`.
pub fn expr(glyphs: &[Glyph], p: usize) -> (r: Result<(Expr, usize), ParseError>)
    ensures
        model(r) == spec_expr(glyphs@, p as int),
        r matches Ok((_, next)) ==> p < next <= glyphs.len(),
    decreases glyphs.len() - p, 11int,
{
    proof {
        lemma_expr_by_parts(glyphs@, p as int);
    }
    let e1 = match assign(glyphs, p) {
        Ok(found) => {
            return Ok(found);
        },
        Err(e) => e,
    };
    match start(glyphs, p) {
        Start::Send(head, next) => Ok(cascade_tail(glyphs, head, next)),
        Start::Bare(first, next, _) => Ok((first, next)),
        Start::Nothing(e) => Err(e1.or_further(e)),
    }
}

/// Reads a statement sequence at `p`. Where nothing at `p` begins a
/// statement the sequence is empty; a statement that begins and cannot be
/// read to its end is a failure.
pub fn statements(glyphs: &[Glyph], p: usize) -> (r: Result<(Vec<Statement>, usize), ParseError>)
    ensures
        model_all(r) == spec_statements(glyphs@, Seq::empty(), p as int),
        r matches Ok((_, next)) ==> p <= next && (p <= glyphs.len() ==> next <= glyphs.len()),
    decreases glyphs.len() - p, 12int,
{
    let mut list: Vec<Statement> = Vec::new();
    let mut i: usize = p;
    assert(views(list@) =~= Seq::<StatementView>::empty());
    loop
        invariant
            p <= i,
            i == p || i <= glyphs.len(),
            spec_statements(glyphs@, Seq::empty(), p as int) == spec_statements(
                glyphs@,
                views(list@),
                i as int,
            ),
        decreases glyphs.len() - i,
    {
        proof {
            reveal(spec_statements);
            reveal(spec_expr);
        }
        if at(glyphs, i, '^') {
            match expr(glyphs, spaces(glyphs, i + 1)) {
                Ok((value, next)) => {
                    let last = Statement::returning(value);
                    assert(views(list@.push(last)) =~= views(list@).push(last@));
                    list.push(last);
                    return Ok((list, next));
                },
                Err(e) => {
                    return Err(e);
                },
            }
        }
        match expr(glyphs, i) {
            Ok((value, stop)) => {
                if at(glyphs, stop, '.') {
                    let one = Statement::of(value);
                    assert(views(list@.push(one)) =~= views(list@).push(one@));
                    list.push(one);
                    i = spaces(glyphs, stop + 1);
                } else {
                    return Err(ParseError::new(ErrorKind::UnexpectedToken, stop));
                }
            },
            Err(e) => {
                if e.position > i {
                    return Err(e);
                } else {
                    return Ok((list, i));
                }
            },
        }
    }
}

} // verus!
