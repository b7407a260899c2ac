//! Lexical atoms: names, numbers, characters, strings and selectors.
//!
//! Every rule is given twice: as a `spec` function on a sequence of glyphs and
//! a position, and as an executable function whose result is that of the
//! `spec` function. A rule reads from its position on, never skips leading
//! whitespace, and either fails or returns what it read and the position
//! after it.

use crate::error::{fail, ErrorKind, Failure, ParseError};
use crate::glyph::{faithful, is_alpha_num, text_of, Glyph};
use crate::outcome::{model, Parsed};
use crate::syntax::{
    is_keyword, is_name, valid_digit, valid_digits, Ident, Literal, LiteralView, Num, NumView,
};
use vstd::prelude::*;

verus! {

/// `String::push` appends one character.
pub assume_specification[ String::push ](s: &mut String, c: char)
    ensures
        final(s)@ == old(s)@.push(c),
;

/// The classes of characters that the lexical rules read runs of.
#[derive(Debug, PartialEq, Eq, Clone, Copy, Structural)]
pub enum Class {
    /// Whitespace.
    Space,
    /// A letter or a digit.
    AlphaNum,
    /// A decimal digit, `0` to `9`.
    Digit,
    /// A decimal digit or an uppercase letter.
    UpperDigit,
}

/// Whether `c` is one of `0` to `9`.
pub open spec fn is_decimal(c: char) -> bool {
    '0' <= c <= '9'
}

/// Whether `c` may stand in a binary selector made of special characters.
pub open spec fn is_special(c: char) -> bool {
    c == '+' || c == '/' || c == '\\' || c == '*' || c == '~' || c == '<' || c == '>' || c == '='
        || c == '@' || c == '%' || c == '|' || c == '&' || c == '?' || c == '!'
}

impl Glyph {
    /// Whether the glyph belongs to `class`.
    pub open spec fn in_class(self, class: Class) -> bool {
        match class {
            Class::Space => self.space,
            Class::AlphaNum => self.alnum,
            Class::Digit => is_decimal(self.ch),
            Class::UpperDigit => is_decimal(self.ch) || self.upper,
        }
    }

    /// Whether the glyph belongs to `class`.
    pub fn has_class(&self, class: Class) -> (b: bool)
        ensures
            b == self.in_class(class),
    {
        match class {
            Class::Space => self.space,
            Class::AlphaNum => self.alnum,
            Class::Digit => '0' <= self.ch && self.ch <= '9',
            Class::UpperDigit => ('0' <= self.ch && self.ch <= '9') || self.upper,
        }
    }
}

/// Whether position `p` of `s` holds the character `c`.
pub open spec fn holds(s: Seq<Glyph>, p: int, c: char) -> bool {
    0 <= p < s.len() && s[p].ch == c
}

/// The end of the longest run of glyphs of `class` that starts at `p`: the
/// first position from `p` on that holds no glyph of the class.
pub open spec fn run_end(s: Seq<Glyph>, p: int, class: Class) -> int
    decreases s.len() - p,
{
    if 0 <= p < s.len() && s[p].in_class(class) {
        run_end(s, p + 1, class)
    } else {
        p
    }
}

/// `run_end` is where the run stops: everything before it is of the class,
/// and it is the end of the input or holds a glyph that is not.
pub proof fn lemma_run_end(s: Seq<Glyph>, p: int, class: Class)
    ensures
        p <= run_end(s, p, class),
        0 <= p <= s.len() ==> run_end(s, p, class) <= s.len(),
        forall|i: int| p <= i < run_end(s, p, class) ==> 0 <= i < s.len() && s[i].in_class(class),
        !(0 <= run_end(s, p, class) < s.len() && s[run_end(s, p, class)].in_class(class)),
    decreases s.len() - p,
{
    if 0 <= p < s.len() && s[p].in_class(class) {
        lemma_run_end(s, p + 1, class);
    }
}

/// The position after the whitespace that starts at `p`.
pub open spec fn skip_spaces(s: Seq<Glyph>, p: int) -> int {
    run_end(s, p, Class::Space)
}

/// The characters of `s` from `from` up to `to`.
pub open spec fn slice_text(s: Seq<Glyph>, from: int, to: int) -> Seq<char> {
    text_of(s.subrange(from, to))
}

/// Reads the longest run of glyphs of `class` from `p` on.
pub fn run(glyphs: &[Glyph], p: usize, class: Class) -> (end: usize)
    ensures
        end == run_end(glyphs@, p as int, class),
        p <= end,
        end == p || end <= glyphs.len(),
{
    let mut end: usize = p;
    while end < glyphs.len() && glyphs[end].has_class(class)
        invariant
            p <= end,
            end == p || end <= glyphs.len(),
            run_end(glyphs@, p as int, class) == run_end(glyphs@, end as int, class),
        decreases glyphs.len() - end,
    {
        end += 1;
    }
    end
}

/// Skips the whitespace that starts at `p`.
pub fn spaces(glyphs: &[Glyph], p: usize) -> (end: usize)
    ensures
        end == skip_spaces(glyphs@, p as int),
        p <= end,
        end == p || end <= glyphs.len(),
{
    run(glyphs, p, Class::Space)
}

/// Copies the characters from `from` up to `to` into a string.
pub fn text(glyphs: &[Glyph], from: usize, to: usize) -> (t: String)
    requires
        from <= to <= glyphs.len(),
    ensures
        t@ == slice_text(glyphs@, from as int, to as int),
{
    let mut t = String::new();
    let mut i: usize = from;
    while i < to
        invariant
            from <= i <= to <= glyphs.len(),
            t@ == slice_text(glyphs@, from as int, i as int),
        decreases to - i,
    {
        t.push(glyphs[i].ch);
        i += 1;
        assert(t@ =~= slice_text(glyphs@, from as int, i as int));
    }
    t
}

/// Whether position `p` holds the character `c`.
pub fn at(glyphs: &[Glyph], p: usize, c: char) -> (b: bool)
    ensures
        b == holds(glyphs@, p as int, c),
        b ==> p < glyphs.len(),
{
    p < glyphs.len() && glyphs[p].ch == c
}

/// A name: a letter, then letters and digits, then whitespace, which is read
/// but is no part of the name.
pub open spec fn spec_ident(s: Seq<Glyph>, p: int) -> Parsed<Seq<char>> {
    if 0 <= p < s.len() && s[p].letter {
        let end = run_end(s, p + 1, Class::AlphaNum);
        Ok((slice_text(s, p, end), skip_spaces(s, end)))
    } else {
        Err(fail(ErrorKind::UnexpectedToken, p))
    }
}

/// Reads a name at `p`.
pub fn ident(glyphs: &[Glyph], p: usize) -> (r: Result<(Ident, usize), ParseError>)
    ensures
        model(r) == spec_ident(glyphs@, p as int),
        r matches Ok((_, next)) ==> p < next <= glyphs.len(),
{
    if p < glyphs.len() && glyphs[p].letter {
        let end = run(glyphs, p + 1, Class::AlphaNum);
        let next = spaces(glyphs, end);
        Ok((Ident(text(glyphs, p, end)), next))
    } else {
        Err(ParseError::new(ErrorKind::UnexpectedToken, p))
    }
}

/// One fragment of a keyword selector: a name, a colon, whitespace. The
/// fragment's text is the name with the colon.
pub open spec fn spec_keyword_lit(s: Seq<Glyph>, p: int) -> Parsed<Seq<char>> {
    match spec_ident(s, p) {
        Ok((name, colon)) => if holds(s, colon, ':') {
            Ok((name.push(':'), skip_spaces(s, colon + 1)))
        } else {
            Err(fail(ErrorKind::UnexpectedToken, colon))
        },
        Err(e) => Err(e),
    }
}

/// Reads a keyword fragment at `p`.
pub fn keyword_lit(glyphs: &[Glyph], p: usize) -> (r: Result<(String, usize), ParseError>)
    ensures
        model(r) == spec_keyword_lit(glyphs@, p as int),
        r matches Ok((_, next)) ==> p < next <= glyphs.len(),
{
    match ident(glyphs, p) {
        Ok((name, colon)) => {
            if at(glyphs, colon, ':') {
                let mut word = name.0;
                word.push(':');
                Ok((word, spaces(glyphs, colon + 1)))
            } else {
                Err(ParseError::new(ErrorKind::UnexpectedToken, colon))
            }
        },
        Err(e) => Err(e),
    }
}

/// The assignment arrow `<-`, then whitespace.
pub open spec fn spec_assignment(s: Seq<Glyph>, p: int) -> Parsed<()> {
    if holds(s, p, '<') && holds(s, p + 1, '-') {
        Ok(((), skip_spaces(s, p + 2)))
    } else {
        Err(fail(ErrorKind::UnexpectedToken, p))
    }
}

/// Reads the assignment arrow at `p`.
pub fn assignment(glyphs: &[Glyph], p: usize) -> (r: Result<((), usize), ParseError>)
    ensures
        model(r) == spec_assignment(glyphs@, p as int),
        r matches Ok((_, next)) ==> p < next <= glyphs.len(),
{
    if at(glyphs, p, '<') && at(glyphs, p + 1, '-') {
        Ok(((), spaces(glyphs, p + 2)))
    } else {
        Err(ParseError::new(ErrorKind::UnexpectedToken, p))
    }
}

/// The number that the decimal digits from `from` up to `to` write.
pub open spec fn decimal_value(s: Seq<Glyph>, from: int, to: int) -> nat
    decreases to - from,
{
    if from >= to {
        0
    } else {
        10 * decimal_value(s, from, to - 1) + (s[to - 1].ch as int - '0' as int) as nat
    }
}

/// An unsigned integer: one or more decimal digits whose value fits in 32
/// bits.
pub open spec fn spec_digits(s: Seq<Glyph>, p: int) -> Parsed<u32> {
    let end = run_end(s, p, Class::Digit);
    if end == p || decimal_value(s, p, end) > u32::MAX {
        Err(fail(ErrorKind::UnexpectedToken, p))
    } else {
        Ok((decimal_value(s, p, end) as u32, end))
    }
}

/// Reads an unsigned decimal integer at `p`.
pub fn digits(glyphs: &[Glyph], p: usize) -> (r: Result<(u32, usize), ParseError>)
    ensures
        model(r) == spec_digits(glyphs@, p as int),
        r matches Ok((_, next)) ==> p < next <= glyphs.len(),
{
    let end = run(glyphs, p, Class::Digit);
    if end == p {
        return Err(ParseError::new(ErrorKind::UnexpectedToken, p));
    }
    proof {
        lemma_run_end(glyphs@, p as int, Class::Digit);
    }
    let mut value: u32 = 0;
    let mut fits = true;
    let mut i: usize = p;
    while i < end
        invariant
            p <= i <= end <= glyphs.len(),
            forall|j: int| p <= j < end ==> is_decimal(#[trigger] glyphs@[j].ch),
            fits ==> value == decimal_value(glyphs@, p as int, i as int),
            !fits ==> decimal_value(glyphs@, p as int, i as int) > u32::MAX,
        decreases end - i,
    {
        let c = glyphs[i].ch;
        assert(is_decimal(c));
        let digit: u64 = (c as u32 - '0' as u32) as u64;
        i += 1;
        if fits {
            let wide: u64 = value as u64 * 10 + digit;
            if wide > u32::MAX as u64 {
                fits = false;
            } else {
                value = wide as u32;
            }
        }
    }
    if fits {
        Ok((value, end))
    } else {
        Err(ParseError::new(ErrorKind::UnexpectedToken, p))
    }
}

/// One digit of a number in any base: a decimal digit or an uppercase letter.
pub open spec fn spec_upper_digit(s: Seq<Glyph>, p: int) -> Parsed<char> {
    if 0 <= p < s.len() && s[p].in_class(Class::UpperDigit) {
        Ok((s[p].ch, p + 1))
    } else {
        Err(fail(ErrorKind::UnexpectedToken, p))
    }
}

/// Reads one digit of a number at `p`.
pub fn upper_digit(glyphs: &[Glyph], p: usize) -> (r: Result<(char, usize), ParseError>)
    ensures
        model(r) == spec_upper_digit(glyphs@, p as int),
{
    if p < glyphs.len() && glyphs[p].has_class(Class::UpperDigit) {
        Ok((glyphs[p].ch, p + 1))
    } else {
        Err(ParseError::new(ErrorKind::UnexpectedToken, p))
    }
}

/// The first position from `from` up to `to` whose character is no digit in
/// `base`, or `to` where there is none.
pub open spec fn first_invalid(s: Seq<Glyph>, from: int, to: int, base: nat) -> int
    decreases to - from,
{
    if from >= to {
        to
    } else if !valid_digit(s[from].ch, base) {
        from
    } else {
        first_invalid(s, from + 1, to, base)
    }
}

/// `first_invalid` lies in the range, everything before it is a digit in
/// `base`, and where it is not the end it holds a character that is none.
pub proof fn lemma_first_invalid(s: Seq<Glyph>, from: int, to: int, base: nat)
    requires
        from <= to,
    ensures
        from <= first_invalid(s, from, to, base) <= to,
        forall|i: int| from <= i < first_invalid(s, from, to, base) ==> valid_digit(s[i].ch, base),
        first_invalid(s, from, to, base) < to ==> !valid_digit(
            s[first_invalid(s, from, to, base)].ch,
            base,
        ),
    decreases to - from,
{
    if from < to && valid_digit(s[from].ch, base) {
        lemma_first_invalid(s, from + 1, to, base);
    }
}

/// The digits of one part of a number: the longest run of decimal digits and
/// uppercase letters, which must not be empty and must hold digits of `base`
/// only. The failure points at the first character that is no such digit.
pub open spec fn spec_digit_string(s: Seq<Glyph>, p: int, base: nat) -> Parsed<Seq<char>> {
    let end = run_end(s, p, Class::UpperDigit);
    let bad = first_invalid(s, p, end, base);
    if end == p {
        Err(fail(ErrorKind::UnexpectedToken, p))
    } else if bad < end {
        Err(fail(ErrorKind::InvalidDigit, bad))
    } else {
        Ok((slice_text(s, p, end), end))
    }
}

/// Whether `c` is a digit in `base`.
pub fn digit_in_base(c: char, base: u8) -> (b: bool)
    ensures
        b == valid_digit(c, base as nat),
{
    if '0' <= c && c <= '9' {
        (c as u32) - ('0' as u32) < (base as u32)
    } else if 'A' <= c && c <= 'Z' {
        (c as u32) - ('A' as u32) + 10 < (base as u32)
    } else {
        false
    }
}

/// Reads the digits of one part of a number at `p`.
pub fn digit_string(glyphs: &[Glyph], p: usize, base: u8) -> (r: Result<
    (String, usize),
    ParseError,
>)
    ensures
        model(r) == spec_digit_string(glyphs@, p as int, base as nat),
        r matches Ok((t, next)) ==> p < next <= glyphs.len() && valid_digits(t@, base as nat),
{
    let end = run(glyphs, p, Class::UpperDigit);
    if end == p {
        return Err(ParseError::new(ErrorKind::UnexpectedToken, p));
    }
    let mut i: usize = p;
    while i < end
        invariant
            p <= i <= end <= glyphs.len(),
            p < end == run_end(glyphs@, p as int, Class::UpperDigit),
            first_invalid(glyphs@, p as int, end as int, base as nat) == first_invalid(
                glyphs@,
                i as int,
                end as int,
                base as nat,
            ),
        decreases end - i,
    {
        if !digit_in_base(glyphs[i].ch, base) {
            return Err(ParseError::new(ErrorKind::InvalidDigit, i));
        }
        i += 1;
    }
    proof {
        lemma_first_invalid(glyphs@, p as int, end as int, base as nat);
    }
    Ok((text(glyphs, p, end), end))
}

/// The radix prefix of a number: decimal digits and the letter `r`. Where the
/// digits are not followed by `r` there is no prefix and nothing is read.
/// Where they are, they must write a base from 2 to 36; after digits that
/// write none, the `r` is where the number fails.
pub open spec fn spec_radix(s: Seq<Glyph>, p: int) -> Parsed<Option<u8>> {
    let end = run_end(s, p, Class::Digit);
    if end > p && holds(s, end, 'r') {
        if 2 <= decimal_value(s, p, end) <= 36 {
            Ok((Some(decimal_value(s, p, end) as u8), end + 1))
        } else {
            Err(fail(ErrorKind::UnexpectedToken, end))
        }
    } else {
        Ok((None, p))
    }
}

/// The base that a radix prefix gives; ten without one.
pub open spec fn base_of(radix: Option<u8>) -> nat {
    match radix {
        Some(b) => b as nat,
        None => 10,
    }
}

/// The fractional part of a number: a point and digits of `base`. A point
/// that no digit or uppercase letter follows is no part of the number.
pub open spec fn spec_mantissa(s: Seq<Glyph>, p: int, base: nat) -> Parsed<Option<Seq<char>>> {
    if holds(s, p, '.') && spec_upper_digit(s, p + 1) is Ok {
        match spec_digit_string(s, p + 1, base) {
            Ok((digits, next)) => Ok((Some(digits), next)),
            Err(e) => Err(e),
        }
    } else {
        Ok((None, p))
    }
}

/// The exponent of a number: the letter `e` and an unsigned decimal integer.
/// An `e` that no decimal digit follows is no part of the number.
pub open spec fn spec_exponent(s: Seq<Glyph>, p: int) -> Parsed<Option<u32>> {
    if holds(s, p, 'e') && 0 <= p + 1 < s.len() && is_decimal(s[p + 1].ch) {
        match spec_digits(s, p + 1) {
            Ok((value, next)) => Ok((Some(value), next)),
            Err(e) => Err(e),
        }
    } else {
        Ok((None, p))
    }
}

/// A number: an optional radix prefix, the integral digits, an optional
/// fractional part and an optional exponent. The digits are kept as written
/// and must be digits of the base.
pub open spec fn spec_number(s: Seq<Glyph>, p: int) -> Parsed<NumView> {
    match spec_radix(s, p) {
        Err(e) => Err(e),
        Ok((radix, integer_at)) => match spec_digit_string(s, integer_at, base_of(radix)) {
            Err(e) => Err(e),
            Ok((integer, point_at)) => match spec_mantissa(s, point_at, base_of(radix)) {
                Err(e) => Err(e),
                Ok((mantissa, exponent_at)) => match spec_exponent(s, exponent_at) {
                    Err(e) => Err(e),
                    Ok((exponent, end)) => Ok(
                        (NumView { radix, integer, mantissa, exponent }, end),
                    ),
                },
            },
        },
    }
}

/// Reads a number at `p`.
pub fn number(glyphs: &[Glyph], p: usize) -> (r: Result<(Num, usize), ParseError>)
    ensures
        model(r) == spec_number(glyphs@, p as int),
        r matches Ok((n, next)) ==> p < next <= glyphs.len() && n@.well_formed(),
{
    let mut radix: Option<u8> = None;
    let mut base: u8 = 10;
    let mut integer_at: usize = p;
    let prefix_end = run(glyphs, p, Class::Digit);
    if prefix_end > p && at(glyphs, prefix_end, 'r') {
        match digits(glyphs, p) {
            Ok((value, _)) => {
                if 2 <= value && value <= 36 {
                    base = value as u8;
                    radix = Some(base);
                    integer_at = prefix_end + 1;
                } else {
                    return Err(ParseError::new(ErrorKind::UnexpectedToken, prefix_end));
                }
            },
            Err(_) => {
                return Err(ParseError::new(ErrorKind::UnexpectedToken, prefix_end));
            },
        }
    }
    assert(spec_radix(glyphs@, p as int) == Ok::<(Option<u8>, int), Failure>(
        (radix, integer_at as int),
    ));
    assert(base as nat == base_of(radix));
    let (integer, point_at) = match digit_string(glyphs, integer_at, base) {
        Ok(found) => found,
        Err(e) => {
            return Err(e);
        },
    };
    let mut mantissa: Option<String> = None;
    let mut exponent_at: usize = point_at;
    if at(glyphs, point_at, '.') && point_at + 1 < glyphs.len() && glyphs[point_at
        + 1].has_class(Class::UpperDigit) {
        match digit_string(glyphs, point_at + 1, base) {
            Ok((fraction, next)) => {
                mantissa = Some(fraction);
                exponent_at = next;
            },
            Err(e) => {
                return Err(e);
            },
        }
    }
    let mut exponent: Option<u32> = None;
    let mut end: usize = exponent_at;
    if at(glyphs, exponent_at, 'e') && exponent_at + 1 < glyphs.len() && glyphs[exponent_at
        + 1].has_class(Class::Digit) {
        match digits(glyphs, exponent_at + 1) {
            Ok((value, next)) => {
                exponent = Some(value);
                end = next;
            },
            Err(e) => {
                return Err(e);
            },
        }
    }
    Ok((Num { radix, integer, mantissa, exponent }, end))
}

/// A character literal: `$` and any one character.
pub open spec fn spec_sm_char(s: Seq<Glyph>, p: int) -> Parsed<LiteralView> {
    if !holds(s, p, '$') {
        Err(fail(ErrorKind::UnexpectedToken, p))
    } else if p + 1 < s.len() {
        Ok((LiteralView::Char(s[p + 1].ch), p + 2))
    } else {
        Err(fail(ErrorKind::UnterminatedLiteral, p + 1))
    }
}

/// Reads a character literal at `p`.
pub fn sm_char(glyphs: &[Glyph], p: usize) -> (r: Result<(Literal, usize), ParseError>)
    ensures
        model(r) == spec_sm_char(glyphs@, p as int),
        r matches Ok((_, next)) ==> p < next <= glyphs.len(),
{
    if !at(glyphs, p, '$') {
        Err(ParseError::new(ErrorKind::UnexpectedToken, p))
    } else if p + 1 < glyphs.len() {
        Ok((Literal::Char(glyphs[p + 1].ch), p + 2))
    } else {
        Err(ParseError::new(ErrorKind::UnterminatedLiteral, p + 1))
    }
}

/// The body of a string literal from `p` on, after the text `acc` that was
/// read before: characters up to the closing quote, where two quotes in a row
/// stand for one quote of the text and do not close. Input that ends before
/// the closing quote is a failure at its end.
pub open spec fn spec_string_body(s: Seq<Glyph>, acc: Seq<char>, p: int) -> Parsed<Seq<char>>
    decreases s.len() - p,
{
    if !(0 <= p < s.len()) {
        Err(fail(ErrorKind::UnterminatedLiteral, p))
    } else if s[p].ch != '\'' {
        spec_string_body(s, acc.push(s[p].ch), p + 1)
    } else if holds(s, p + 1, '\'') {
        spec_string_body(s, acc.push('\''), p + 2)
    } else {
        Ok((acc, p + 1))
    }
}

/// A string literal: a quote, the body, the closing quote. Its value is the
/// decoded text.
pub open spec fn spec_sm_string(s: Seq<Glyph>, p: int) -> Parsed<LiteralView> {
    if holds(s, p, '\'') {
        match spec_string_body(s, Seq::empty(), p + 1) {
            Ok((decoded, next)) => Ok((LiteralView::Str(decoded), next)),
            Err(e) => Err(e),
        }
    } else {
        Err(fail(ErrorKind::UnexpectedToken, p))
    }
}

/// Reads a string literal at `p`.
pub fn sm_string(glyphs: &[Glyph], p: usize) -> (r: Result<(Literal, usize), ParseError>)
    ensures
        model(r) == spec_sm_string(glyphs@, p as int),
        r matches Ok((_, next)) ==> p < next <= glyphs.len(),
{
    if !at(glyphs, p, '\'') {
        return Err(ParseError::new(ErrorKind::UnexpectedToken, p));
    }
    let mut decoded = String::new();
    let mut i: usize = p + 1;
    loop
        invariant
            p < i <= glyphs.len(),
            holds(glyphs@, p as int, '\''),
            spec_string_body(glyphs@, Seq::empty(), p + 1) == spec_string_body(
                glyphs@,
                decoded@,
                i as int,
            ),
        decreases glyphs.len() - i,
    {
        if i >= glyphs.len() {
            return Err(ParseError::new(ErrorKind::UnterminatedLiteral, i));
        }
        let c = glyphs[i].ch;
        if c != '\'' {
            decoded.push(c);
            i += 1;
        } else if at(glyphs, i + 1, '\'') {
            decoded.push('\'');
            i += 2;
        } else {
            return Ok((Literal::Str(decoded), i + 1));
        }
    }
}

/// One character of a binary selector.
pub open spec fn spec_special_char(s: Seq<Glyph>, p: int) -> Parsed<char> {
    if 0 <= p < s.len() && is_special(s[p].ch) {
        Ok((s[p].ch, p + 1))
    } else {
        Err(fail(ErrorKind::UnexpectedToken, p))
    }
}

/// Whether `c` may stand in a binary selector made of special characters.
pub fn special(c: char) -> (b: bool)
    ensures
        b == is_special(c),
{
    c == '+' || c == '/' || c == '\\' || c == '*' || c == '~' || c == '<' || c == '>' || c == '='
        || c == '@' || c == '%' || c == '|' || c == '&' || c == '?' || c == '!'
}

/// Reads one character of a binary selector at `p`.
pub fn special_char(glyphs: &[Glyph], p: usize) -> (r: Result<(char, usize), ParseError>)
    ensures
        model(r) == spec_special_char(glyphs@, p as int),
{
    if p < glyphs.len() && special(glyphs[p].ch) {
        Ok((glyphs[p].ch, p + 1))
    } else {
        Err(ParseError::new(ErrorKind::UnexpectedToken, p))
    }
}

/// A binary selector: one or two special characters, or a single `-`; then
/// whitespace.
pub open spec fn spec_binary_selector(s: Seq<Glyph>, p: int) -> Parsed<Seq<char>> {
    if 0 <= p < s.len() && is_special(s[p].ch) {
        if p + 1 < s.len() && is_special(s[p + 1].ch) {
            Ok((seq![s[p].ch, s[p + 1].ch], skip_spaces(s, p + 2)))
        } else {
            Ok((seq![s[p].ch], skip_spaces(s, p + 1)))
        }
    } else if holds(s, p, '-') {
        Ok((seq!['-'], skip_spaces(s, p + 1)))
    } else {
        Err(fail(ErrorKind::UnexpectedToken, p))
    }
}

/// Reads a binary selector at `p`.
pub fn binary_selector(glyphs: &[Glyph], p: usize) -> (r: Result<(String, usize), ParseError>)
    ensures
        model(r) == spec_binary_selector(glyphs@, p as int),
        r matches Ok((_, next)) ==> p < next <= glyphs.len(),
{
    if p < glyphs.len() && special(glyphs[p].ch) {
        let mut selector = String::new();
        selector.push(glyphs[p].ch);
        if p + 1 < glyphs.len() && special(glyphs[p + 1].ch) {
            selector.push(glyphs[p + 1].ch);
            assert(selector@ =~= seq![glyphs@[p as int].ch, glyphs@[p + 1].ch]);
            Ok((selector, spaces(glyphs, p + 2)))
        } else {
            assert(selector@ =~= seq![glyphs@[p as int].ch]);
            Ok((selector, spaces(glyphs, p + 1)))
        }
    } else if at(glyphs, p, '-') {
        let mut selector = String::new();
        selector.push('-');
        assert(selector@ =~= seq!['-']);
        Ok((selector, spaces(glyphs, p + 1)))
    } else {
        Err(ParseError::new(ErrorKind::UnexpectedToken, p))
    }
}

/// A token that is read takes at least one character and ends inside the
/// input. Stated of the rules that the compound rules repeat or follow with
/// others.
pub proof fn lemma_tokens_advance(s: Seq<Glyph>, p: int)
    ensures
        p <= skip_spaces(s, p),
        0 <= p <= s.len() ==> skip_spaces(s, p) <= s.len(),
        spec_ident(s, p) matches Ok((_, next)) ==> p < next <= s.len(),
        spec_keyword_lit(s, p) matches Ok((_, next)) ==> p < next <= s.len(),
        spec_assignment(s, p) matches Ok((_, next)) ==> p < next <= s.len(),
        spec_binary_selector(s, p) matches Ok((_, next)) ==> p < next <= s.len(),
{
    lemma_run_end(s, p, Class::Space);
    lemma_run_end(s, p + 1, Class::Space);
    lemma_run_end(s, p + 2, Class::Space);
    lemma_run_end(s, p + 1, Class::AlphaNum);
    let name_end = run_end(s, p + 1, Class::AlphaNum);
    lemma_run_end(s, name_end, Class::Space);
    lemma_run_end(s, skip_spaces(s, name_end) + 1, Class::Space);
}

/// A literal atom that is read takes at least one character and ends inside
/// the input; a number that is read keeps the invariant of its type.
pub proof fn lemma_atoms_advance(s: Seq<Glyph>, p: int)
    ensures
        spec_digits(s, p) matches Ok((_, next)) ==> p < next <= s.len(),
        spec_number(s, p) matches Ok((n, next)) ==> p < next <= s.len() && n.well_formed(),
        spec_sm_char(s, p) matches Ok((_, next)) ==> p < next <= s.len(),
        spec_sm_string(s, p) matches Ok((_, next)) ==> p < next <= s.len(),
{
    lemma_run_end(s, p, Class::Digit);
    lemma_string_closes_or_fails(s, p);
    if let Ok((radix, integer_at)) = spec_radix(s, p) {
        let base = base_of(radix);
        lemma_digit_string(s, integer_at, base);
        if let Ok((integer, point_at)) = spec_digit_string(s, integer_at, base) {
            lemma_digit_string(s, point_at + 1, base);
            if let Ok((mantissa, exponent_at)) = spec_mantissa(s, point_at, base) {
                lemma_run_end(s, exponent_at + 1, Class::Digit);
            }
        }
    }
}

/// Digits that are read are not empty, end inside the input and are digits
/// of the base.
pub proof fn lemma_digit_string(s: Seq<Glyph>, p: int, base: nat)
    ensures
        spec_digit_string(s, p, base) matches Ok((digits, next)) ==> p < next <= s.len()
            && valid_digits(digits, base),
{
    let end = run_end(s, p, Class::UpperDigit);
    lemma_run_end(s, p, Class::UpperDigit);
    lemma_first_invalid(s, p, end, base);
}

/// A name that is read is not empty: it is the letter at `p` and the letters
/// and digits after it, and nothing else. A keyword fragment is such a name
/// with a colon at its end. Where the glyphs carry the classes of their
/// characters, what is read is a name, or a keyword, as `syntax` defines
/// them.
pub proof fn lemma_name_shape(s: Seq<Glyph>, p: int)
    ensures
        spec_ident(s, p) matches Ok((name, _)) ==> {
            &&& name.len() > 0
            &&& s[p].letter
            &&& forall|i: int| p <= i < p + name.len() ==> name[i - p] == (#[trigger] s[i]).ch
            &&& forall|i: int| p < i < p + name.len() ==> (#[trigger] s[i]).alnum
            &&& !(0 <= p + name.len() < s.len() && s[p + name.len()].alnum)
        },
        spec_keyword_lit(s, p) matches Ok((word, _)) ==> {
            &&& word.len() > 1
            &&& word.last() == ':'
            &&& spec_ident(s, p) matches Ok((name, _)) && word.drop_last() == name
        },
        faithful(s) ==> (spec_ident(s, p) matches Ok((name, _)) ==> is_name(name)),
        faithful(s) ==> (spec_keyword_lit(s, p) matches Ok((word, _)) ==> is_keyword(word)),
{
    lemma_run_end(s, p + 1, Class::AlphaNum);
    if let Ok((name, _)) = spec_ident(s, p) {
        assert(name.push(':').drop_last() =~= name);
        if faithful(s) {
            assert(name[0] == s[p].ch);
            assert forall|i: int| 0 < i < name.len() implies is_alpha_num(#[trigger] name[i]) by {
                assert(name[i] == s[p + i].ch);
                assert(s[p + i].alnum);
            }
        }
    }
}

/// A string literal is read up to a closing quote or not at all. Where it
/// is read, the character before the position that follows it is the closing
/// quote. Where it opens and is not read, the failure is an unterminated
/// literal at the end of the input: nothing shorter is ever returned.
pub proof fn lemma_string_closes_or_fails(s: Seq<Glyph>, p: int)
    ensures
        match spec_sm_string(s, p) {
            Ok((_, next)) => p + 1 < next <= s.len() && holds(s, next - 1, '\''),
            Err(e) => e == if holds(s, p, '\'') {
                fail(ErrorKind::UnterminatedLiteral, s.len() as int)
            } else {
                fail(ErrorKind::UnexpectedToken, p)
            },
        },
{
    if holds(s, p, '\'') {
        lemma_string_body_closes_or_fails(s, Seq::empty(), p + 1);
    }
}

/// The body of a string literal ends after a closing quote, or fails at the
/// end of the input.
pub proof fn lemma_string_body_closes_or_fails(s: Seq<Glyph>, acc: Seq<char>, p: int)
    requires
        0 <= p <= s.len(),
    ensures
        match spec_string_body(s, acc, p) {
            Ok((_, next)) => p < next <= s.len() && holds(s, next - 1, '\''),
            Err(e) => e == fail(ErrorKind::UnterminatedLiteral, s.len() as int),
        },
    decreases s.len() - p,
{
    if p < s.len() {
        if s[p].ch != '\'' {
            lemma_string_body_closes_or_fails(s, acc.push(s[p].ch), p + 1);
        } else if holds(s, p + 1, '\'') {
            lemma_string_body_closes_or_fails(s, acc.push('\''), p + 2);
        }
    }
}

/// A string literal that opens at `p` and is followed by no further quote
/// fails.
pub proof fn lemma_unterminated_string_fails(s: Seq<Glyph>, p: int)
    requires
        holds(s, p, '\''),
        forall|i: int| p < i < s.len() ==> s[i].ch != '\'',
    ensures
        spec_sm_string(s, p) == Err::<(LiteralView, int), Failure>(
            fail(ErrorKind::UnterminatedLiteral, s.len() as int),
        ),
{
    lemma_string_closes_or_fails(s, p);
}

/// A string literal without a quote in its text is its text: where the
/// characters from `p + 1` up to `close` hold no quote, `close` holds one and
/// no second quote follows it, the literal is those characters and ends
/// after `close`.
pub proof fn lemma_plain_string(s: Seq<Glyph>, p: int, close: int)
    requires
        holds(s, p, '\''),
        p < close,
        holds(s, close, '\''),
        !holds(s, close + 1, '\''),
        forall|i: int| p < i < close ==> s[i].ch != '\'',
    ensures
        spec_sm_string(s, p) == Ok::<(LiteralView, int), Failure>(
            (LiteralView::Str(slice_text(s, p + 1, close)), close + 1),
        ),
{
    assert(slice_text(s, p + 1, p + 1) =~= Seq::<char>::empty());
    lemma_plain_string_body(s, Seq::empty(), p + 1, p + 1, close);
}

/// The body of a string literal whose text from `p` up to `close` holds no
/// quote is that text, after what was read before.
pub proof fn lemma_plain_string_body(s: Seq<Glyph>, acc: Seq<char>, from: int, p: int, close: int)
    requires
        0 <= from <= p <= close,
        holds(s, close, '\''),
        !holds(s, close + 1, '\''),
        forall|i: int| from <= i < close ==> s[i].ch != '\'',
        acc == slice_text(s, from, p),
    ensures
        spec_string_body(s, acc, p) == Ok::<(Seq<char>, int), Failure>(
            (slice_text(s, from, close), close + 1),
        ),
    decreases close - p,
{
    if p < close {
        assert(acc.push(s[p].ch) =~= slice_text(s, from, p + 1));
        lemma_plain_string_body(s, acc.push(s[p].ch), from, p + 1, close);
    }
}

/// A number that is read has read the whole run of digits and uppercase
/// letters of its integral part, and every one of them is a digit of its
/// base.
pub proof fn lemma_number_reads_whole_run(s: Seq<Glyph>, p: int)
    ensures
        spec_number(s, p) matches Ok((n, _)) ==> {
            &&& n.well_formed()
            &&& spec_radix(s, p) matches Ok((radix, start))
            &&& n.radix == radix
            &&& n.integer == slice_text(s, start, run_end(s, start, Class::UpperDigit))
        },
{
    lemma_atoms_advance(s, p);
}

/// A number with a digit that its base does not admit fails: where position
/// `i` of the integral part holds a character that is no digit of the base,
/// the number is not read, and the failure is an invalid digit at `i` or
/// before it.
pub proof fn lemma_invalid_digit_fails(s: Seq<Glyph>, p: int, i: int)
    requires
        spec_radix(s, p) matches Ok((radix, start)) && start <= i < run_end(
            s,
            start,
            Class::UpperDigit,
        ) && !valid_digit(s[i].ch, base_of(radix)),
    ensures
        spec_number(s, p) matches Err(e) && e.kind == ErrorKind::InvalidDigit && p <= e.at <= i,
{
    lemma_run_end(s, p, Class::Digit);
    if let Ok((radix, start)) = spec_radix(s, p) {
        lemma_first_invalid(s, start, run_end(s, start, Class::UpperDigit), base_of(radix));
    }
}

} // verus!
