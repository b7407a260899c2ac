//! Compound literals: symbols and literal arrays, and the rule for any
//! literal.
//!
//! An array may hold arrays, so its rules call each other in a circle. As in
//! `grammar`, `within` makes it plain that each such call is at a later
//! position, and `lemma_element_advances` shows that it changes nothing.

use crate::error::{fail, furthest, ErrorKind, Failure, ParseError};
use crate::glyph::Glyph;
use crate::lexical::{
    at, binary_selector, holds, ident, keyword_lit, lemma_atoms_advance, lemma_name_shape,
    lemma_run_end, lemma_tokens_advance, number, run, run_end, skip_spaces, slice_text, sm_char,
    sm_string, spaces, spec_binary_selector, spec_ident, spec_keyword_lit, spec_number,
    spec_sm_char, spec_sm_string, text, Class,
};
use crate::outcome::{model, or_else, within, Parsed};
use crate::syntax::{views, Literal, LiteralView, NumView};
use vstd::prelude::*;
use vstd::string::StringExecFns;

verus! {

/// The outcome with its value wrapped as a symbol.
pub open spec fn as_symbol(outcome: Parsed<Seq<char>>) -> Parsed<LiteralView> {
    match outcome {
        Ok((name, next)) => Ok((LiteralView::Symbol(name), next)),
        Err(e) => Err(e),
    }
}

/// Keyword fragments from `p` on, as many as there are, appended to `acc`.
pub open spec fn spec_keywords_text(s: Seq<Glyph>, acc: Seq<char>, p: int) -> (Seq<char>, int)
    decreases s.len() - p,
{
    match spec_keyword_lit(s, p) {
        Ok((word, next)) => {
            proof {
                lemma_tokens_advance(s, p);
            }
            spec_keywords_text(s, acc + word, next)
        },
        Err(_) => (acc, p),
    }
}

/// One or more keyword fragments, run together into one text, as in
/// `at:put:`.
pub open spec fn spec_keyword_run(s: Seq<Glyph>, p: int) -> Parsed<Seq<char>> {
    match spec_keyword_lit(s, p) {
        Ok((word, next)) => Ok(spec_keywords_text(s, word, next)),
        Err(e) => Err(e),
    }
}

/// A run of letters and digits, then whitespace.
pub open spec fn spec_alpha_num_run(s: Seq<Glyph>, p: int) -> Parsed<Seq<char>> {
    let end = run_end(s, p, Class::AlphaNum);
    if end == p {
        Err(fail(ErrorKind::UnexpectedToken, p))
    } else {
        Ok((slice_text(s, p, end), skip_spaces(s, end)))
    }
}

/// A symbol without its `#`, as it stands in a literal array: keyword
/// fragments, a name, or a binary selector. The keyword fragments are tried
/// first, since a name is the start of each of them.
pub open spec fn spec_symbol(s: Seq<Glyph>, p: int) -> Parsed<LiteralView> {
    as_symbol(
        or_else(or_else(spec_keyword_run(s, p), spec_ident(s, p)), spec_binary_selector(s, p)),
    )
}

/// What follows the `#` of a symbol in literal position: keyword fragments, a
/// run of letters and digits, or a binary selector.
pub open spec fn spec_symbol_body(s: Seq<Glyph>, p: int) -> Parsed<LiteralView> {
    as_symbol(
        or_else(
            or_else(spec_keyword_run(s, p), spec_alpha_num_run(s, p)),
            spec_binary_selector(s, p),
        ),
    )
}

/// A symbol in literal position: `#` and its body.
pub open spec fn spec_prefixed_symbol(s: Seq<Glyph>, p: int) -> Parsed<LiteralView> {
    if holds(s, p, '#') {
        spec_symbol_body(s, p + 1)
    } else {
        Err(fail(ErrorKind::UnexpectedToken, p))
    }
}

/// The outcome of the number rule with its value wrapped as a literal.
pub open spec fn as_number(outcome: Parsed<NumView>) -> Parsed<LiteralView> {
    match outcome {
        Ok((n, next)) => Ok((LiteralView::Number(n), next)),
        Err(e) => Err(e),
    }
}

/// One element of a literal array: a number, a symbol without `#`, a string,
/// a character, or an array without `#`.
pub open spec fn spec_element(s: Seq<Glyph>, p: int) -> Parsed<LiteralView>
    decreases s.len() - p, 1int,
{
    or_else(
        or_else(
            or_else(or_else(as_number(spec_number(s, p)), spec_symbol(s, p)), spec_sm_string(s, p)),
            spec_sm_char(s, p),
        ),
        spec_array(s, p),
    )
}

/// The elements of a literal array from `p` on, after the elements `acc`, up
/// to and with the closing parenthesis. Whitespace may follow each element.
/// Where no element can be read and no parenthesis closes, the array is
/// unclosed, unless the element failed further on.
pub open spec fn spec_array_items(s: Seq<Glyph>, acc: Seq<LiteralView>, p: int) -> Parsed<
    Seq<LiteralView>,
>
    decreases s.len() - p, 2int,
{
    match within(spec_element(s, p), p + 1, s) {
        Ok((value, next)) => {
            proof {
                lemma_tokens_advance(s, next);
            }
            spec_array_items(s, acc.push(value), skip_spaces(s, next))
        },
        Err(e) => if holds(s, p, ')') {
            Ok((acc, p + 1))
        } else {
            Err(furthest(fail(ErrorKind::UnclosedDelimiter, p), e))
        },
    }
}

/// A literal array without its `#`: a parenthesis, whitespace, the elements,
/// the closing parenthesis.
pub open spec fn spec_array(s: Seq<Glyph>, p: int) -> Parsed<LiteralView>
    decreases s.len() - p, 0int,
{
    if holds(s, p, '(') {
        proof {
            lemma_tokens_advance(s, p + 1);
        }
        match spec_array_items(s, Seq::empty(), skip_spaces(s, p + 1)) {
            Ok((items, next)) => Ok((LiteralView::Array(items), next)),
            Err(e) => Err(e),
        }
    } else {
        Err(fail(ErrorKind::UnexpectedToken, p))
    }
}

/// What follows the `#` of a literal: an array or the body of a symbol.
pub open spec fn spec_hashed(s: Seq<Glyph>, p: int) -> Parsed<LiteralView> {
    if holds(s, p, '#') {
        or_else(spec_array(s, p + 1), spec_symbol_body(s, p + 1))
    } else {
        Err(fail(ErrorKind::UnexpectedToken, p))
    }
}

/// Any literal: a number, a character, a string, or `#` with an array or a
/// symbol; then whitespace.
pub open spec fn spec_literal(s: Seq<Glyph>, p: int) -> Parsed<LiteralView> {
    match or_else(
        or_else(or_else(as_number(spec_number(s, p)), spec_sm_char(s, p)), spec_sm_string(s, p)),
        spec_hashed(s, p),
    ) {
        Ok((value, next)) => Ok((value, skip_spaces(s, next))),
        Err(e) => Err(e),
    }
}

/// Keyword fragments that run on end at or after `p`, inside the input where
/// `p` is.
pub proof fn lemma_keywords_text_bounds(s: Seq<Glyph>, acc: Seq<char>, p: int)
    ensures
        p <= spec_keywords_text(s, acc, p).1,
        0 <= p <= s.len() ==> spec_keywords_text(s, acc, p).1 <= s.len(),
    decreases s.len() - p,
{
    lemma_tokens_advance(s, p);
    if let Ok((word, next)) = spec_keyword_lit(s, p) {
        lemma_keywords_text_bounds(s, acc + word, next);
    }
}

/// A symbol that is read takes at least one character and ends inside the
/// input.
pub proof fn lemma_symbols_advance(s: Seq<Glyph>, p: int)
    ensures
        spec_keyword_run(s, p) matches Ok((_, next)) ==> p < next <= s.len(),
        spec_alpha_num_run(s, p) matches Ok((_, next)) ==> p < next <= s.len(),
        spec_symbol(s, p) matches Ok((_, next)) ==> p < next <= s.len(),
        spec_symbol_body(s, p) matches Ok((_, next)) ==> p < next <= s.len(),
        spec_prefixed_symbol(s, p) matches Ok((_, next)) ==> p < next <= s.len(),
{
    lemma_tokens_advance(s, p);
    lemma_tokens_advance(s, p + 1);
    if let Ok((word, next)) = spec_keyword_lit(s, p) {
        lemma_keywords_text_bounds(s, word, next);
    }
    if let Ok((word, next)) = spec_keyword_lit(s, p + 1) {
        lemma_keywords_text_bounds(s, word, next);
    }
    lemma_run_end(s, p, Class::AlphaNum);
    lemma_run_end(s, p + 1, Class::AlphaNum);
    lemma_tokens_advance(s, run_end(s, p, Class::AlphaNum));
    lemma_tokens_advance(s, run_end(s, p + 1, Class::AlphaNum));
}

/// An element of an array that is read takes at least one character and ends
/// inside the input.
pub proof fn lemma_element_advances(s: Seq<Glyph>, p: int)
    ensures
        spec_element(s, p) matches Ok((_, next)) ==> p < next <= s.len(),
    decreases s.len() - p, 1int,
{
    lemma_atoms_advance(s, p);
    lemma_symbols_advance(s, p);
    lemma_array_advances(s, p);
}

/// The elements of an array, where they are read up to the closing
/// parenthesis, end after their start and inside the input.
pub proof fn lemma_array_items_advance(s: Seq<Glyph>, acc: Seq<LiteralView>, p: int)
    ensures
        spec_array_items(s, acc, p) matches Ok((_, next)) ==> p < next <= s.len(),
    decreases s.len() - p, 2int,
{
    lemma_element_advances(s, p);
    match spec_element(s, p) {
        Ok((value, next)) => {
            lemma_tokens_advance(s, next);
            lemma_array_items_advance(s, acc.push(value), skip_spaces(s, next));
        },
        Err(_) => {},
    }
}

/// An array that is read takes at least one character and ends inside the
/// input.
pub proof fn lemma_array_advances(s: Seq<Glyph>, p: int)
    ensures
        spec_array(s, p) matches Ok((_, next)) ==> p < next <= s.len(),
    decreases s.len() - p, 0int,
{
    if holds(s, p, '(') {
        lemma_tokens_advance(s, p + 1);
        lemma_array_items_advance(s, Seq::empty(), skip_spaces(s, p + 1));
    }
}

/// A literal that is read takes at least one character and ends inside the
/// input.
pub proof fn lemma_literal_advances(s: Seq<Glyph>, p: int)
    ensures
        spec_hashed(s, p) matches Ok((_, next)) ==> p < next <= s.len(),
        spec_literal(s, p) matches Ok((_, next)) ==> p < next <= s.len(),
{
    lemma_atoms_advance(s, p);
    lemma_array_advances(s, p + 1);
    lemma_symbols_advance(s, p + 1);
    match or_else(
        or_else(or_else(as_number(spec_number(s, p)), spec_sm_char(s, p)), spec_sm_string(s, p)),
        spec_hashed(s, p),
    ) {
        Ok((_, next)) => {
            lemma_tokens_advance(s, next);
        },
        Err(_) => {},
    }
}

/// Whether every one of `items` is well formed.
pub open spec fn all_literals_well_formed(items: Seq<LiteralView>) -> bool {
    forall|i: int| 0 <= i < items.len() ==> (#[trigger] items[i]).well_formed()
}

/// Keyword fragments that run on make the text no shorter.
pub proof fn lemma_keywords_text_grows(s: Seq<Glyph>, acc: Seq<char>, p: int)
    ensures
        spec_keywords_text(s, acc, p).0.len() >= acc.len(),
    decreases s.len() - p,
{
    lemma_tokens_advance(s, p);
    if let Ok((word, next)) = spec_keyword_lit(s, p) {
        lemma_keywords_text_grows(s, acc + word, next);
    }
}

/// A symbol that is read is not empty.
pub proof fn lemma_symbols_well_formed(s: Seq<Glyph>, p: int)
    ensures
        spec_symbol(s, p) matches Ok((symbol, _)) ==> symbol.well_formed(),
        spec_symbol_body(s, p) matches Ok((symbol, _)) ==> symbol.well_formed(),
        spec_prefixed_symbol(s, p) matches Ok((symbol, _)) ==> symbol.well_formed(),
{
    lemma_name_shape(s, p);
    lemma_name_shape(s, p + 1);
    lemma_run_end(s, p, Class::AlphaNum);
    lemma_run_end(s, p + 1, Class::AlphaNum);
    if let Ok((word, next)) = spec_keyword_lit(s, p) {
        lemma_keywords_text_grows(s, word, next);
    }
    if let Ok((word, next)) = spec_keyword_lit(s, p + 1) {
        lemma_keywords_text_grows(s, word, next);
    }
}

/// An element of an array that is read is well formed.
pub proof fn lemma_element_well_formed(s: Seq<Glyph>, p: int)
    ensures
        spec_element(s, p) matches Ok((item, _)) ==> item.well_formed(),
    decreases s.len() - p, 1int,
{
    lemma_atoms_advance(s, p);
    lemma_symbols_well_formed(s, p);
    lemma_array_well_formed(s, p);
}

/// The elements of an array that are read are well formed, where those read
/// before them are.
pub proof fn lemma_array_items_well_formed(s: Seq<Glyph>, acc: Seq<LiteralView>, p: int)
    requires
        all_literals_well_formed(acc),
    ensures
        spec_array_items(s, acc, p) matches Ok((items, _)) ==> all_literals_well_formed(items),
    decreases s.len() - p, 2int,
{
    lemma_element_well_formed(s, p);
    lemma_element_advances(s, p);
    match spec_element(s, p) {
        Ok((value, next)) => {
            lemma_tokens_advance(s, next);
            lemma_array_items_well_formed(s, acc.push(value), skip_spaces(s, next));
        },
        Err(_) => {},
    }
}

/// An array that is read is well formed.
pub proof fn lemma_array_well_formed(s: Seq<Glyph>, p: int)
    ensures
        spec_array(s, p) matches Ok((array, _)) ==> array.well_formed(),
    decreases s.len() - p, 0int,
{
    if holds(s, p, '(') {
        lemma_tokens_advance(s, p + 1);
        lemma_array_items_well_formed(s, Seq::empty(), skip_spaces(s, p + 1));
    }
}

/// A literal that is read is well formed: its numbers have digits of their
/// base only, its symbols are not empty, and so on through its arrays.
pub proof fn lemma_literal_well_formed(s: Seq<Glyph>, p: int)
    ensures
        spec_literal(s, p) matches Ok((value, _)) ==> value.well_formed(),
{
    lemma_atoms_advance(s, p);
    lemma_array_well_formed(s, p + 1);
    lemma_symbols_well_formed(s, p + 1);
}

/// Reads one or more keyword fragments at `p` as one text.
pub fn keyword_run(glyphs: &[Glyph], p: usize) -> (r: Result<(String, usize), ParseError>)
    ensures
        model(r) == spec_keyword_run(glyphs@, p as int),
        r matches Ok((_, next)) ==> p < next <= glyphs.len(),
{
    let (mut name, mut i) = match keyword_lit(glyphs, p) {
        Ok(found) => found,
        Err(e) => {
            return Err(e);
        },
    };
    loop
        invariant
            p < i <= glyphs.len(),
            spec_keyword_run(glyphs@, p as int) == Ok::<(Seq<char>, int), Failure>(
                spec_keywords_text(glyphs@, name@, i as int),
            ),
        decreases glyphs.len() - i,
    {
        match keyword_lit(glyphs, i) {
            Ok((word, next)) => {
                name.append(word.as_str());
                i = next;
            },
            Err(_) => {
                return Ok((name, i));
            },
        }
    }
}

/// Reads a run of letters and digits at `p`, and the whitespace after it.
pub fn alpha_num_run(glyphs: &[Glyph], p: usize) -> (r: Result<(String, usize), ParseError>)
    ensures
        model(r) == spec_alpha_num_run(glyphs@, p as int),
        r matches Ok((_, next)) ==> p < next <= glyphs.len(),
{
    let end = run(glyphs, p, Class::AlphaNum);
    if end == p {
        Err(ParseError::new(ErrorKind::UnexpectedToken, p))
    } else {
        Ok((text(glyphs, p, end), spaces(glyphs, end)))
    }
}

/// Reads a symbol without `#` at `p`.
pub fn symbol(glyphs: &[Glyph], p: usize) -> (r: Result<(Literal, usize), ParseError>)
    ensures
        model(r) == spec_symbol(glyphs@, p as int),
        r matches Ok((_, next)) ==> p < next <= glyphs.len(),
{
    let e1 = match keyword_run(glyphs, p) {
        Ok((name, next)) => {
            return Ok((Literal::Symbol(name), next));
        },
        Err(e) => e,
    };
    let e2 = match ident(glyphs, p) {
        Ok((name, next)) => {
            return Ok((Literal::Symbol(name.0), next));
        },
        Err(e) => e,
    };
    match binary_selector(glyphs, p) {
        Ok((name, next)) => Ok((Literal::Symbol(name), next)),
        Err(e3) => Err(e1.or_further(e2).or_further(e3)),
    }
}

/// Reads what follows the `#` of a symbol at `p`.
pub fn symbol_body(glyphs: &[Glyph], p: usize) -> (r: Result<(Literal, usize), ParseError>)
    ensures
        model(r) == spec_symbol_body(glyphs@, p as int),
        r matches Ok((_, next)) ==> p < next <= glyphs.len(),
{
    let e1 = match keyword_run(glyphs, p) {
        Ok((name, next)) => {
            return Ok((Literal::Symbol(name), next));
        },
        Err(e) => e,
    };
    let e2 = match alpha_num_run(glyphs, p) {
        Ok((name, next)) => {
            return Ok((Literal::Symbol(name), next));
        },
        Err(e) => e,
    };
    match binary_selector(glyphs, p) {
        Ok((name, next)) => Ok((Literal::Symbol(name), next)),
        Err(e3) => Err(e1.or_further(e2).or_further(e3)),
    }
}

/// Reads a symbol with its `#` at `p`.
pub fn prefixed_symbol(glyphs: &[Glyph], p: usize) -> (r: Result<(Literal, usize), ParseError>)
    ensures
        model(r) == spec_prefixed_symbol(glyphs@, p as int),
        r matches Ok((_, next)) ==> p < next <= glyphs.len(),
{
    if at(glyphs, p, '#') {
        symbol_body(glyphs, p + 1)
    } else {
        Err(ParseError::new(ErrorKind::UnexpectedToken, p))
    }
}

/// Reads one element of a literal array at `p`.
pub fn element(glyphs: &[Glyph], p: usize) -> (r: Result<(Literal, usize), ParseError>)
    ensures
        model(r) == spec_element(glyphs@, p as int),
        r matches Ok((_, next)) ==> p < next <= glyphs.len(),
    decreases glyphs.len() - p, 1int,
{
    let e1 = match number(glyphs, p) {
        Ok((n, next)) => {
            return Ok((Literal::Number(n), next));
        },
        Err(e) => e,
    };
    let e2 = match symbol(glyphs, p) {
        Ok(found) => {
            return Ok(found);
        },
        Err(e) => e,
    };
    let e3 = match sm_string(glyphs, p) {
        Ok(found) => {
            return Ok(found);
        },
        Err(e) => e,
    };
    let e4 = match sm_char(glyphs, p) {
        Ok(found) => {
            return Ok(found);
        },
        Err(e) => e,
    };
    match array(glyphs, p) {
        Ok(found) => Ok(found),
        Err(e5) => Err(e1.or_further(e2).or_further(e3).or_further(e4).or_further(e5)),
    }
}

/// Reads a literal array without `#` at `p`.
pub fn array(glyphs: &[Glyph], p: usize) -> (r: Result<(Literal, usize), ParseError>)
    ensures
        model(r) == spec_array(glyphs@, p as int),
        r matches Ok((_, next)) ==> p < next <= glyphs.len(),
    decreases glyphs.len() - p, 0int,
{
    if !at(glyphs, p, '(') {
        return Err(ParseError::new(ErrorKind::UnexpectedToken, p));
    }
    let mut items: Vec<Literal> = Vec::new();
    let mut i: usize = spaces(glyphs, p + 1);
    assert(views(items@) =~= Seq::<LiteralView>::empty());
    loop
        invariant
            p < i <= glyphs.len(),
            holds(glyphs@, p as int, '('),
            spec_array_items(glyphs@, Seq::empty(), skip_spaces(glyphs@, p + 1))
                == spec_array_items(glyphs@, views(items@), i as int),
        decreases glyphs.len() - i,
    {
        match element(glyphs, i) {
            Ok((item, next)) => {
                assert(views(items@.push(item)) =~= views(items@).push(item@));
                items.push(item);
                i = spaces(glyphs, next);
            },
            Err(e) => {
                if at(glyphs, i, ')') {
                    return Ok((Literal::array(items), i + 1));
                } else {
                    return Err(ParseError::new(ErrorKind::UnclosedDelimiter, i).or_further(e));
                }
            },
        }
    }
}

/// Reads what follows the `#` of a literal, with the `#`, at `p`.
pub fn hashed(glyphs: &[Glyph], p: usize) -> (r: Result<(Literal, usize), ParseError>)
    ensures
        model(r) == spec_hashed(glyphs@, p as int),
        r matches Ok((_, next)) ==> p < next <= glyphs.len(),
{
    if !at(glyphs, p, '#') {
        return Err(ParseError::new(ErrorKind::UnexpectedToken, p));
    }
    match array(glyphs, p + 1) {
        Ok(found) => Ok(found),
        Err(e1) => match symbol_body(glyphs, p + 1) {
            Ok(found) => Ok(found),
            Err(e2) => Err(e1.or_further(e2)),
        },
    }
}

/// Reads a literal at `p`, and the whitespace after it.
pub fn literal(glyphs: &[Glyph], p: usize) -> (r: Result<(Literal, usize), ParseError>)
    ensures
        model(r) == spec_literal(glyphs@, p as int),
        r matches Ok((_, next)) ==> p < next <= glyphs.len(),
{
    let e1 = match number(glyphs, p) {
        Ok((n, next)) => {
            return Ok((Literal::Number(n), spaces(glyphs, next)));
        },
        Err(e) => e,
    };
    let e2 = match sm_char(glyphs, p) {
        Ok((value, next)) => {
            return Ok((value, spaces(glyphs, next)));
        },
        Err(e) => e,
    };
    let e3 = match sm_string(glyphs, p) {
        Ok((value, next)) => {
            return Ok((value, spaces(glyphs, next)));
        },
        Err(e) => e,
    };
    match hashed(glyphs, p) {
        Ok((value, next)) => Ok((value, spaces(glyphs, next))),
        Err(e4) => Err(e1.or_further(e2).or_further(e3).or_further(e4)),
    }
}

} // verus!
