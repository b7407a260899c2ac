//! The rules of the grammar on text.
//!
//! Each function classifies the characters of its input, runs one rule at
//! the start of it, and returns what the rule read together with the rest of
//! the input, or the rule's failure. What the rule reads is stated by its
//! model, applied to the classified input at position 0.

use crate::{expression, grammar, lexical, literal, messages};
use crate::error::ParseError;
use crate::glyph::{glyphs_of, lemma_glyphs_are_faithful, scan};
use crate::outcome::Parsed;
use crate::syntax::{
    all_well_formed, is_keyword, is_name, views, Expr, Ident, Literal, Msg, Num, Statement,
};
use vstd::prelude::*;
use vstd::string::StrSliceExecFns;

verus! {

/// Whether `r` is the outcome `m` of a rule on `input`: the same failure, or
/// a value with the same model and the input that follows what was read. The
/// model of a sequence of nodes is the sequence of their models.
pub open spec fn reads<T: DeepView>(
    r: Result<(T, &str), ParseError>,
    input: Seq<char>,
    m: Parsed<T::V>,
) -> bool {
    match m {
        Ok((value, next)) => {
            &&& r matches Ok((v, rest))
            &&& v.deep_view() == value
            &&& 0 <= next <= input.len()
            &&& rest@ == input.subrange(next, input.len() as int)
        },
        Err(failure) => r matches Err(e) && e@ == failure,
    }
}

/// Reading is a function of the input: two outcomes of the same rule on the
/// same input are the same failure, or hold trees with the same model and
/// the same rest of the input.
pub proof fn lemma_same_input_same_outcome<T: DeepView>(
    first: Result<(T, &str), ParseError>,
    second: Result<(T, &str), ParseError>,
    input: Seq<char>,
    m: Parsed<T::V>,
)
    requires
        reads(first, input, m),
        reads(second, input, m),
    ensures
        match (first, second) {
            (Ok((tree1, rest1)), Ok((tree2, rest2))) => tree1.deep_view() == tree2.deep_view()
                && rest1@ == rest2@,
            (Err(e1), Err(e2)) => e1 == e2,
            _ => false,
        },
{
}

/// Two readings of the same text as an expression give the same failure, or
/// trees with the same model and the same rest.
pub proof fn lemma_expr_is_deterministic(
    first: Result<(Expr, &str), ParseError>,
    second: Result<(Expr, &str), ParseError>,
    input: Seq<char>,
)
    requires
        reads(first, input, grammar::spec_expr(glyphs_of(input), 0)),
        reads(second, input, grammar::spec_expr(glyphs_of(input), 0)),
    ensures
        match (first, second) {
            (Ok((tree1, rest1)), Ok((tree2, rest2))) => tree1@ == tree2@ && rest1@ == rest2@,
            (Err(e1), Err(e2)) => e1 == e2,
            _ => false,
        },
{
    lemma_same_input_same_outcome(first, second, input, grammar::spec_expr(glyphs_of(input), 0));
}

/// Two readings of the same text as statements give the same failure, or
/// sequences with the same models and the same rest.
pub proof fn lemma_statements_are_deterministic(
    first: Result<(Vec<Statement>, &str), ParseError>,
    second: Result<(Vec<Statement>, &str), ParseError>,
    input: Seq<char>,
)
    requires
        reads(first, input, grammar::spec_statements(glyphs_of(input), Seq::empty(), 0)),
        reads(second, input, grammar::spec_statements(glyphs_of(input), Seq::empty(), 0)),
    ensures
        match (first, second) {
            (Ok((list1, rest1)), Ok((list2, rest2))) => views(list1@) == views(list2@) && rest1@
                == rest2@,
            (Err(e1), Err(e2)) => e1 == e2,
            _ => false,
        },
{
    lemma_same_input_same_outcome(
        first,
        second,
        input,
        grammar::spec_statements(glyphs_of(input), Seq::empty(), 0),
    );
    if let (Ok((list1, _)), Ok((list2, _))) = (first, second) {
        assert(views(list1@) =~= list1.deep_view());
        assert(views(list2@) =~= list2.deep_view());
    }
}

/// The input from its character `next` on.
fn rest_from(input: &str, next: usize) -> (rest: &str)
    requires
        next <= input@.len(),
    ensures
        rest@ == input@.subrange(next as int, input@.len() as int),
{
    input.substring_char(next, input.unicode_len())
}

/// Reads an expression at the start of `input`.
pub fn expr(input: &str) -> (r: Result<(Expr, &str), ParseError>)
    ensures
        reads(r, input@, grammar::spec_expr(glyphs_of(input@), 0)),
        r matches Ok((tree, _)) ==> tree@.well_formed(),
{
    let glyphs = scan(input);
    proof {
        lemma_glyphs_are_faithful(input@);
        grammar::lemma_trees_are_well_formed(glyphs@, 0);
    }
    match expression::expr(glyphs.as_slice(), 0) {
        Ok((value, next)) => Ok((value, rest_from(input, next))),
        Err(e) => Err(e),
    }
}

/// Reads the operand of a binary message, a primary with the unary messages
/// sent to it, at the start of `input`.
pub fn unary_object(input: &str) -> (r: Result<(Expr, &str), ParseError>)
    ensures
        reads(r, input@, grammar::spec_unary_object(glyphs_of(input@), 0)),
        r matches Ok((tree, _)) ==> tree@.well_formed(),
{
    let glyphs = scan(input);
    proof {
        lemma_glyphs_are_faithful(input@);
        grammar::lemma_trees_are_well_formed(glyphs@, 0);
    }
    match messages::unary_object(glyphs.as_slice(), 0) {
        Ok((value, next)) => Ok((value, rest_from(input, next))),
        Err(e) => Err(e),
    }
}

/// Reads a unary message send at the start of `input`.
pub fn unary_expr(input: &str) -> (r: Result<(Expr, &str), ParseError>)
    ensures
        reads(r, input@, grammar::spec_unary_expr(glyphs_of(input@), 0)),
        r matches Ok((tree, _)) ==> tree@.well_formed(),
{
    let glyphs = scan(input);
    proof {
        lemma_glyphs_are_faithful(input@);
        grammar::lemma_trees_are_well_formed(glyphs@, 0);
    }
    match messages::unary_expr(glyphs.as_slice(), 0) {
        Ok((value, next)) => Ok((value, rest_from(input, next))),
        Err(e) => Err(e),
    }
}

/// Reads a unary selector at the start of `input`.
pub fn unary_selector(input: &str) -> (r: Result<(Msg, &str), ParseError>)
    ensures
        reads(r, input@, grammar::spec_unary_selector(glyphs_of(input@), 0)),
        r matches Ok((selector, _)) ==> selector@.well_formed(),
{
    let glyphs = scan(input);
    proof {
        lemma_glyphs_are_faithful(input@);
        grammar::lemma_trees_are_well_formed(glyphs@, 0);
    }
    match messages::unary_selector(glyphs.as_slice(), 0) {
        Ok((value, next)) => Ok((value, rest_from(input, next))),
        Err(e) => Err(e),
    }
}

/// Reads the operand of a keyword message, a unary operand with the binary
/// messages sent to it, at the start of `input`.
pub fn binary_object(input: &str) -> (r: Result<(Expr, &str), ParseError>)
    ensures
        reads(r, input@, grammar::spec_binary_object(glyphs_of(input@), 0)),
        r matches Ok((tree, _)) ==> tree@.well_formed(),
{
    let glyphs = scan(input);
    proof {
        lemma_glyphs_are_faithful(input@);
        grammar::lemma_trees_are_well_formed(glyphs@, 0);
    }
    match messages::binary_object(glyphs.as_slice(), 0) {
        Ok((value, next)) => Ok((value, rest_from(input, next))),
        Err(e) => Err(e),
    }
}

/// Reads a binary message send at the start of `input`.
pub fn binary_expr(input: &str) -> (r: Result<(Expr, &str), ParseError>)
    ensures
        reads(r, input@, grammar::spec_binary_expr(glyphs_of(input@), 0)),
        r matches Ok((tree, _)) ==> tree@.well_formed(),
{
    let glyphs = scan(input);
    proof {
        lemma_glyphs_are_faithful(input@);
        grammar::lemma_trees_are_well_formed(glyphs@, 0);
    }
    match messages::binary_expr(glyphs.as_slice(), 0) {
        Ok((value, next)) => Ok((value, rest_from(input, next))),
        Err(e) => Err(e),
    }
}

/// Reads a keyword message send at the start of `input`.
pub fn keyword_expr(input: &str) -> (r: Result<(Expr, &str), ParseError>)
    ensures
        reads(r, input@, grammar::spec_keyword_expr(glyphs_of(input@), 0)),
        r matches Ok((tree, _)) ==> tree@.well_formed(),
{
    let glyphs = scan(input);
    proof {
        lemma_glyphs_are_faithful(input@);
        grammar::lemma_trees_are_well_formed(glyphs@, 0);
    }
    match messages::keyword_expr(glyphs.as_slice(), 0) {
        Ok((value, next)) => Ok((value, rest_from(input, next))),
        Err(e) => Err(e),
    }
}

/// Reads a message send of any of the three kinds at the start of `input`.
pub fn message_expr(input: &str) -> (r: Result<(Expr, &str), ParseError>)
    ensures
        reads(r, input@, grammar::spec_message_expr(glyphs_of(input@), 0)),
        r matches Ok((tree, _)) ==> tree@.well_formed(),
{
    let glyphs = scan(input);
    proof {
        lemma_glyphs_are_faithful(input@);
        grammar::lemma_trees_are_well_formed(glyphs@, 0);
    }
    match messages::message_expr(glyphs.as_slice(), 0) {
        Ok((value, next)) => Ok((value, rest_from(input, next))),
        Err(e) => Err(e),
    }
}

/// Reads a cascade: a message send with further messages at the start of `input`.
pub fn cascaded_message_expr(input: &str) -> (r: Result<(Expr, &str), ParseError>)
    ensures
        reads(r, input@, grammar::spec_cascaded_message_expr(glyphs_of(input@), 0)),
        r matches Ok((tree, _)) ==> tree@.well_formed(),
{
    let glyphs = scan(input);
    proof {
        lemma_glyphs_are_faithful(input@);
        grammar::lemma_trees_are_well_formed(glyphs@, 0);
    }
    match messages::cascaded_message_expr(glyphs.as_slice(), 0) {
        Ok((value, next)) => Ok((value, rest_from(input, next))),
        Err(e) => Err(e),
    }
}

/// Reads one fragment of a keyword selector at the start of `input`.
pub fn keyword_lit(input: &str) -> (r: Result<(String, &str), ParseError>)
    ensures
        reads(r, input@, lexical::spec_keyword_lit(glyphs_of(input@), 0)),
        r matches Ok((word, _)) ==> is_keyword(word@),
{
    let glyphs = scan(input);
    proof {
        lemma_glyphs_are_faithful(input@);
        lexical::lemma_name_shape(glyphs@, 0);
    }
    match lexical::keyword_lit(glyphs.as_slice(), 0) {
        Ok((value, next)) => Ok((value, rest_from(input, next))),
        Err(e) => Err(e),
    }
}

/// Reads a primary at the start of `input`.
pub fn primary(input: &str) -> (r: Result<(Expr, &str), ParseError>)
    ensures
        reads(r, input@, grammar::spec_primary(glyphs_of(input@), 0)),
        r matches Ok((tree, _)) ==> tree@.well_formed(),
{
    let glyphs = scan(input);
    proof {
        lemma_glyphs_are_faithful(input@);
        grammar::lemma_trees_are_well_formed(glyphs@, 0);
    }
    match expression::primary(glyphs.as_slice(), 0) {
        Ok((value, next)) => Ok((value, rest_from(input, next))),
        Err(e) => Err(e),
    }
}

/// Reads a block at the start of `input`.
pub fn block(input: &str) -> (r: Result<(Expr, &str), ParseError>)
    ensures
        reads(r, input@, grammar::spec_block(glyphs_of(input@), 0)),
        r matches Ok((tree, _)) ==> tree@.well_formed(),
{
    let glyphs = scan(input);
    proof {
        lemma_glyphs_are_faithful(input@);
        grammar::lemma_trees_are_well_formed(glyphs@, 0);
    }
    match expression::block(glyphs.as_slice(), 0) {
        Ok((value, next)) => Ok((value, rest_from(input, next))),
        Err(e) => Err(e),
    }
}

/// Reads a statement sequence at the start of `input`. Where nothing there
/// begins a statement the sequence is empty; a statement that begins and
/// cannot be read to its end is a failure.
pub fn statements(input: &str) -> (r: Result<(Vec<Statement>, &str), ParseError>)
    ensures
        reads(r, input@, grammar::spec_statements(glyphs_of(input@), Seq::empty(), 0)),
        r matches Ok((list, _)) ==> all_well_formed(views(list@)) && grammar::return_only_last(
            views(list@),
        ),
{
    let glyphs = scan(input);
    proof {
        lemma_glyphs_are_faithful(input@);
        grammar::lemma_trees_are_well_formed(glyphs@, 0);
        grammar::lemma_return_is_last(glyphs@, Seq::empty(), 0);
    }
    match expression::statements(glyphs.as_slice(), 0) {
        Ok((list, next)) => {
            assert(list.deep_view() =~= views(list@));
            Ok((list, rest_from(input, next)))
        },
        Err(e) => Err(e),
    }
}

/// Reads the parameters of a block at the start of `input`. Where no colon
/// stands there are none; a colon that no name follows is a failure.
pub fn block_vars(input: &str) -> (r: Result<(Vec<Ident>, &str), ParseError>)
    ensures
        reads(r, input@, grammar::spec_block_vars(glyphs_of(input@), Seq::empty(), 0)),
        r matches Ok((names, _)) ==> grammar::all_named(views(names@)),
{
    let glyphs = scan(input);
    proof {
        lemma_glyphs_are_faithful(input@);
        grammar::lemma_trees_are_well_formed(glyphs@, 0);
    }
    match expression::block_vars(glyphs.as_slice(), 0) {
        Ok((names, next)) => {
            assert(names.deep_view() =~= views(names@));
            Ok((names, rest_from(input, next)))
        },
        Err(e) => Err(e),
    }
}

/// Reads a name at the start of `input`.
pub fn ident(input: &str) -> (r: Result<(Ident, &str), ParseError>)
    ensures
        reads(r, input@, lexical::spec_ident(glyphs_of(input@), 0)),
        r matches Ok((name, _)) ==> is_name(name@),
{
    let glyphs = scan(input);
    proof {
        lemma_glyphs_are_faithful(input@);
        lexical::lemma_name_shape(glyphs@, 0);
    }
    match lexical::ident(glyphs.as_slice(), 0) {
        Ok((value, next)) => Ok((value, rest_from(input, next))),
        Err(e) => Err(e),
    }
}

/// Reads the assignment arrow at the start of `input`.
pub fn assignment(input: &str) -> (r: Result<((), &str), ParseError>)
    ensures
        reads(r, input@, lexical::spec_assignment(glyphs_of(input@), 0)),
{
    let glyphs = scan(input);
    match lexical::assignment(glyphs.as_slice(), 0) {
        Ok((value, next)) => Ok((value, rest_from(input, next))),
        Err(e) => Err(e),
    }
}

/// Reads an unsigned decimal integer at the start of `input`.
pub fn digits(input: &str) -> (r: Result<(u32, &str), ParseError>)
    ensures
        reads(r, input@, lexical::spec_digits(glyphs_of(input@), 0)),
{
    let glyphs = scan(input);
    match lexical::digits(glyphs.as_slice(), 0) {
        Ok((value, next)) => Ok((value, rest_from(input, next))),
        Err(e) => Err(e),
    }
}

/// Reads one digit of a number: a decimal digit or an uppercase letter at the start of `input`.
pub fn upper_digit(input: &str) -> (r: Result<(char, &str), ParseError>)
    ensures
        reads(r, input@, lexical::spec_upper_digit(glyphs_of(input@), 0)),
{
    let glyphs = scan(input);
    match lexical::upper_digit(glyphs.as_slice(), 0) {
        Ok((value, next)) => Ok((value, rest_from(input, next))),
        Err(e) => Err(e),
    }
}

/// Reads a number at the start of `input`.
pub fn number(input: &str) -> (r: Result<(Num, &str), ParseError>)
    ensures
        reads(r, input@, lexical::spec_number(glyphs_of(input@), 0)),
        r matches Ok((value, _)) ==> value@.well_formed(),
{
    let glyphs = scan(input);
    proof {
        lexical::lemma_atoms_advance(glyphs@, 0);
    }
    match lexical::number(glyphs.as_slice(), 0) {
        Ok((value, next)) => Ok((value, rest_from(input, next))),
        Err(e) => Err(e),
    }
}

/// Reads a character literal at the start of `input`.
pub fn sm_char(input: &str) -> (r: Result<(Literal, &str), ParseError>)
    ensures
        reads(r, input@, lexical::spec_sm_char(glyphs_of(input@), 0)),
{
    let glyphs = scan(input);
    match lexical::sm_char(glyphs.as_slice(), 0) {
        Ok((value, next)) => Ok((value, rest_from(input, next))),
        Err(e) => Err(e),
    }
}

/// Reads a string literal at the start of `input`.
pub fn sm_string(input: &str) -> (r: Result<(Literal, &str), ParseError>)
    ensures
        reads(r, input@, lexical::spec_sm_string(glyphs_of(input@), 0)),
{
    let glyphs = scan(input);
    match lexical::sm_string(glyphs.as_slice(), 0) {
        Ok((value, next)) => Ok((value, rest_from(input, next))),
        Err(e) => Err(e),
    }
}

/// Reads a literal array without its `#` at the start of `input`.
pub fn array(input: &str) -> (r: Result<(Literal, &str), ParseError>)
    ensures
        reads(r, input@, literal::spec_array(glyphs_of(input@), 0)),
        r matches Ok((value, _)) ==> value@.well_formed(),
{
    let glyphs = scan(input);
    proof {
        literal::lemma_array_well_formed(glyphs@, 0);
    }
    match literal::array(glyphs.as_slice(), 0) {
        Ok((value, next)) => Ok((value, rest_from(input, next))),
        Err(e) => Err(e),
    }
}

/// Reads a symbol without its `#` at the start of `input`.
pub fn symbol(input: &str) -> (r: Result<(Literal, &str), ParseError>)
    ensures
        reads(r, input@, literal::spec_symbol(glyphs_of(input@), 0)),
        r matches Ok((value, _)) ==> value@.well_formed(),
{
    let glyphs = scan(input);
    proof {
        literal::lemma_symbols_well_formed(glyphs@, 0);
    }
    match literal::symbol(glyphs.as_slice(), 0) {
        Ok((value, next)) => Ok((value, rest_from(input, next))),
        Err(e) => Err(e),
    }
}

/// Reads a symbol with its `#` at the start of `input`.
pub fn prefixed_symbol(input: &str) -> (r: Result<(Literal, &str), ParseError>)
    ensures
        reads(r, input@, literal::spec_prefixed_symbol(glyphs_of(input@), 0)),
        r matches Ok((value, _)) ==> value@.well_formed(),
{
    let glyphs = scan(input);
    proof {
        literal::lemma_symbols_well_formed(glyphs@, 0);
    }
    match literal::prefixed_symbol(glyphs.as_slice(), 0) {
        Ok((value, next)) => Ok((value, rest_from(input, next))),
        Err(e) => Err(e),
    }
}

/// Reads a binary selector at the start of `input`.
pub fn binary_selector(input: &str) -> (r: Result<(String, &str), ParseError>)
    ensures
        reads(r, input@, lexical::spec_binary_selector(glyphs_of(input@), 0)),
{
    let glyphs = scan(input);
    match lexical::binary_selector(glyphs.as_slice(), 0) {
        Ok((value, next)) => Ok((value, rest_from(input, next))),
        Err(e) => Err(e),
    }
}

/// Reads one special character of a binary selector at the start of `input`.
pub fn special_char(input: &str) -> (r: Result<(char, &str), ParseError>)
    ensures
        reads(r, input@, lexical::spec_special_char(glyphs_of(input@), 0)),
{
    let glyphs = scan(input);
    match lexical::special_char(glyphs.as_slice(), 0) {
        Ok((value, next)) => Ok((value, rest_from(input, next))),
        Err(e) => Err(e),
    }
}

/// Reads a literal of any kind at the start of `input`.
pub fn literal(input: &str) -> (r: Result<(Literal, &str), ParseError>)
    ensures
        reads(r, input@, literal::spec_literal(glyphs_of(input@), 0)),
        r matches Ok((value, _)) ==> value@.well_formed(),
{
    let glyphs = scan(input);
    proof {
        literal::lemma_literal_well_formed(glyphs@, 0);
    }
    match literal::literal(glyphs.as_slice(), 0) {
        Ok((value, next)) => Ok((value, rest_from(input, next))),
        Err(e) => Err(e),
    }
}

} // verus!
