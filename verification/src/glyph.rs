//! Characters together with their lexical classes.
//!
//! The classes that Unicode defines (letter, letter or digit, uppercase,
//! whitespace) are decided by the character parsers of `combine`; everything
//! else in this crate works on the classified characters and is verified for
//! every classification.

use combine::Parser;
use combine::parser::char::{alpha_num, letter, space, upper};
use vstd::prelude::*;

verus! {

/// Whether `combine`'s `letter` parser accepts `c`.
pub uninterp spec fn is_letter(c: char) -> bool;

/// Whether `combine`'s `alpha_num` parser accepts `c`.
pub uninterp spec fn is_alpha_num(c: char) -> bool;

/// Whether `combine`'s `upper` parser accepts `c`.
pub uninterp spec fn is_upper(c: char) -> bool;

/// Whether `combine`'s `space` parser accepts `c`.
pub uninterp spec fn is_space(c: char) -> bool;

/// Runs `combine::parser::char::letter` on the one-character input `c`.
/// The parser reads one character and accepts it when
/// `char::is_alphabetic` holds of it, which depends on `c` alone; the result
/// says whether it accepted.
#[verifier::external_body]
fn letter_accepts(c: char) -> (b: bool)
    ensures
        b == is_letter(c),
{
    letter().parse(&[c][..]).is_ok()
}

/// Runs `combine::parser::char::alpha_num` on the one-character input `c`.
/// The parser reads one character and accepts it when
/// `char::is_alphanumeric` holds of it; the result says whether it accepted.
#[verifier::external_body]
fn alpha_num_accepts(c: char) -> (b: bool)
    ensures
        b == is_alpha_num(c),
{
    alpha_num().parse(&[c][..]).is_ok()
}

/// Runs `combine::parser::char::upper` on the one-character input `c`.
/// The parser reads one character and accepts it when `char::is_uppercase`
/// holds of it; the result says whether it accepted.
#[verifier::external_body]
fn upper_accepts(c: char) -> (b: bool)
    ensures
        b == is_upper(c),
{
    upper().parse(&[c][..]).is_ok()
}

/// Runs `combine::parser::char::space` on the one-character input `c`.
/// The parser reads one character and accepts it when `char::is_whitespace`
/// holds of it; the result says whether it accepted.
#[verifier::external_body]
fn space_accepts(c: char) -> (b: bool)
    ensures
        b == is_space(c),
{
    space().parse(&[c][..]).is_ok()
}

/// One character of the input with its lexical classes.
#[derive(Debug, PartialEq, Eq, Clone, Copy)]
pub struct Glyph {
    /// The character itself.
    pub ch: char,
    /// It may start a name.
    pub letter: bool,
    /// It may continue a name.
    pub alnum: bool,
    /// It is an uppercase letter, which may stand as a digit above nine.
    pub upper: bool,
    /// It separates tokens.
    pub space: bool,
}

/// The glyph of `c` under the classes above.
pub open spec fn glyph_of(c: char) -> Glyph {
    Glyph {
        ch: c,
        letter: is_letter(c),
        alnum: is_alpha_num(c),
        upper: is_upper(c),
        space: is_space(c),
    }
}

/// The glyphs of a text, character by character.
pub open spec fn glyphs_of(text: Seq<char>) -> Seq<Glyph> {
    Seq::new(text.len(), |i: int| glyph_of(text[i]))
}

/// The characters of a run of glyphs.
pub open spec fn text_of(glyphs: Seq<Glyph>) -> Seq<char> {
    Seq::new(glyphs.len(), |i: int| glyphs[i].ch)
}

/// Whether every glyph of `s` carries the classes of its own character.
pub open spec fn faithful(s: Seq<Glyph>) -> bool {
    forall|i: int| 0 <= i < s.len() ==> #[trigger] s[i] == glyph_of(s[i].ch)
}

/// The glyphs of a text are faithful.
pub proof fn lemma_glyphs_are_faithful(text: Seq<char>)
    ensures
        faithful(glyphs_of(text)),
{
}

/// Classifying loses nothing: the characters of the glyphs of a text are the
/// text, and so for every part of it.
pub proof fn lemma_text_of_glyphs(text: Seq<char>, from: int, to: int)
    requires
        0 <= from <= to <= text.len(),
    ensures
        text_of(glyphs_of(text)) == text,
        text_of(glyphs_of(text).subrange(from, to)) == text.subrange(from, to),
{
    assert(text_of(glyphs_of(text)) =~= text);
    assert(text_of(glyphs_of(text).subrange(from, to)) =~= text.subrange(from, to));
}

/// Classifies one character.
pub fn classify(c: char) -> (g: Glyph)
    ensures
        g == glyph_of(c),
{
    Glyph {
        ch: c,
        letter: letter_accepts(c),
        alnum: alpha_num_accepts(c),
        upper: upper_accepts(c),
        space: space_accepts(c),
    }
}

/// Classifies every character of `input`.
pub fn scan(input: &str) -> (glyphs: Vec<Glyph>)
    ensures
        glyphs@ == glyphs_of(input@),
{
    let mut glyphs: Vec<Glyph> = Vec::new();
    for c in it: input.chars()
        invariant
            it.seq() == input@,
            glyphs@ == glyphs_of(input@.take(it.index() as int)),
    {
        glyphs.push(classify(c));
    }
    glyphs
}

} // verus!
