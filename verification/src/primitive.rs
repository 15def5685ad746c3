//! The scalar values of attributes: unsigned integers, code points, colors.

use crate::error::{CodepointCause, Error, ErrorKind, Flaw};
use crate::number::{is_number, lemma_number_is_ascii, Number};
use vstd::prelude::*;
use vstd::string::*;

verus! {

/// What the character `c` counts as a digit in base `radix` (at most 36).
pub open spec fn digit_in(c: char, radix: nat) -> Option<nat> {
    let value = if '0' <= c && c <= '9' {
        c as int - '0' as int
    } else if 'a' <= c && c <= 'z' {
        c as int - 'a' as int + 10
    } else if 'A' <= c && c <= 'Z' {
        c as int - 'A' as int + 10
    } else {
        radix as int
    };
    if value < radix {
        Some(value as nat)
    } else {
        None
    }
}

/// `digits` holds nothing but digits of base `radix`.
pub open spec fn all_digits_in(digits: Seq<char>, radix: nat) -> bool {
    forall|i: int| 0 <= i < digits.len() ==> digit_in(#[trigger] digits[i], radix) is Some
}

/// The natural number that a row of digits in base `radix` spells.
pub open spec fn value_in(digits: Seq<char>, radix: nat) -> nat
    decreases digits.len(),
{
    if digits.len() == 0 {
        0
    } else {
        radix * value_in(digits.drop_last(), radix) + match digit_in(digits.last(), radix) {
            Some(digit) => digit,
            None => 0,
        }
    }
}

/// The unsigned number that `text` spells in base `radix`: an optional `+`,
/// then one digit or more and nothing else.
pub open spec fn unsigned_reading(text: Seq<char>, radix: nat) -> Option<nat> {
    let digits = if text.len() > 0 && text[0] == '+' {
        text.skip(1)
    } else {
        text
    };
    if digits.len() > 0 && all_digits_in(digits, radix) {
        Some(value_in(digits, radix))
    } else {
        None
    }
}

/// The number that `text` spells in base `radix`, if it fits 32 bits.
pub open spec fn u32_reading(text: Seq<char>, radix: nat) -> Option<u32> {
    match unsigned_reading(text, radix) {
        Some(value) if value <= u32::MAX => Some(value as u32),
        _ => None,
    }
}

/// `n` is a Unicode scalar value: a code point that is no surrogate.
pub open spec fn is_scalar_value(n: u32) -> bool {
    n < 0xD800 || (0xE000 <= n && n <= 0x10FFFF)
}

/// The error that `u32::from_str_radix` reports on `text` in base `radix`,
/// where `text` spells no number of 32 bits.
pub uninterp spec fn u32_failure(text: Seq<char>, radix: nat) -> std::num::ParseIntError;

/// The error that `char::try_from` reports on `n`, where `n` is no Unicode
/// scalar value.
pub uninterp spec fn char_failure(n: u32) -> std::char::CharTryFromError;

/// Why `text` names no character: it is no hexadecimal number of 32 bits, or
/// the number is no Unicode scalar value.
pub open spec fn codepoint_cause(text: Seq<char>) -> CodepointCause {
    match u32_reading(text, 16) {
        Some(n) => CodepointCause::NotScalar(char_failure(n)),
        None => CodepointCause::NotHexadecimal(u32_failure(text, 16)),
    }
}

/// The scalar value of the character that `text` names in hexadecimal.
pub open spec fn codepoint_of(text: Seq<char>) -> Option<u32> {
    match u32_reading(text, 16) {
        Some(n) if is_scalar_value(n) => Some(n),
        _ => None,
    }
}

/// `u32::from_str_radix` of the standard library, for base 10 or 16.
///
/// The contract repeats its documentation: the text is an optional `+` sign
/// followed by digits only (`0-9`, `a-z`, `A-Z`, as far as the base admits
/// them), at least one; an empty text, any other character, or a number that
/// does not fit 32 bits is an error. Which error it is depends on nothing but
/// the text and the base.
#[verifier::external_body]
fn read_u32(text: &str, radix: u32) -> (result: Result<u32, std::num::ParseIntError>)
    requires
        radix == 10 || radix == 16,
    ensures
        match result {
            Ok(n) => u32_reading(text@, radix as nat) == Some(n),
            Err(error) => u32_reading(text@, radix as nat) is None && error == u32_failure(
                text@,
                radix as nat,
            ),
        },
{
    u32::from_str_radix(text, radix)
}

/// `char::try_from(u32)` of the standard library: the character with the
/// scalar value `n`, or an error where `n` is a surrogate or lies beyond
/// `0x10FFFF`. The error depends on nothing but `n`.
#[verifier::external_body]
fn scalar_to_char(n: u32) -> (result: Result<char, std::char::CharTryFromError>)
    ensures
        match result {
            Ok(c) => is_scalar_value(n) && c as u32 == n,
            Err(error) => !is_scalar_value(n) && error == char_failure(n),
        },
{
    char::try_from(n)
}

/// Reads the value of a `hex` attribute: a hexadecimal number that is a
/// Unicode scalar value. Any other text comes back in the error, with what
/// the standard library reported on it.
pub fn parse_codepoint(value: &str) -> (result: Result<char, Error>)
    ensures
        match result {
            Ok(c) => codepoint_of(value@) == Some(c as u32),
            Err(error) => codepoint_of(value@) is None && error.is_flaw(
                Flaw::InvalidCodepoint(value@, codepoint_cause(value@)),
            ),
        },
{
    match read_u32(value, 16) {
        Err(cause) => Err(
            Error::Parse(
                ErrorKind::InvalidCodepoint(value.to_owned(), CodepointCause::NotHexadecimal(cause)),
            ),
        ),
        Ok(n) => match scalar_to_char(n) {
            Ok(c) => Ok(c),
            Err(cause) => Err(
                Error::Parse(
                    ErrorKind::InvalidCodepoint(value.to_owned(), CodepointCause::NotScalar(cause)),
                ),
            ),
        },
    }
}

/// Reads an unsigned decimal integer of at most 32 bits. Any other text comes
/// back in the error, with what the standard library reported on it.
pub fn parse_integer(value: &str) -> (result: Result<u32, Error>)
    ensures
        match result {
            Ok(n) => u32_reading(value@, 10) == Some(n),
            Err(error) => u32_reading(value@, 10) is None && error.is_flaw(
                Flaw::InvalidInteger(value@, u32_failure(value@, 10)),
            ),
        },
{
    match read_u32(value, 10) {
        Ok(n) => Ok(n),
        Err(cause) => Err(Error::Parse(ErrorKind::InvalidInteger(value.to_owned(), cause))),
    }
}

/// A color: red, green, blue and alpha.
#[derive(Debug, PartialEq, Eq)]
pub struct Color {
    pub red: Number,
    pub green: Number,
    pub blue: Number,
    pub alpha: Number,
}

/// A [`Color`] as contracts see it: the four numerals.
pub struct ColorView {
    pub red: Seq<char>,
    pub green: Seq<char>,
    pub blue: Seq<char>,
    pub alpha: Seq<char>,
}

impl View for Color {
    type V = ColorView;

    open spec fn view(&self) -> ColorView {
        ColorView { red: self.red@, green: self.green@, blue: self.blue@, alpha: self.alpha@ }
    }
}

/// The index of the first comma at or after `from`, or the length of `text`
/// where there is none.
pub open spec fn field_end(text: Seq<char>, from: int) -> int
    decreases text.len() - from,
{
    if from < 0 || from >= text.len() {
        text.len() as int
    } else if text[from] == ',' {
        from
    } else {
        field_end(text, from + 1)
    }
}

/// The color that `text` spells: four numbers with one comma between each
/// two, and nothing else. The numbers are not held to any range.
pub open spec fn color_of(text: Seq<char>) -> Option<ColorView> {
    let first = field_end(text, 0);
    let second = field_end(text, first + 1);
    let third = field_end(text, second + 1);
    let red = text.subrange(0, first);
    let green = text.subrange(first + 1, second);
    let blue = text.subrange(second + 1, third);
    let alpha = text.subrange(third + 1, text.len() as int);
    if first < second && second < third && third < text.len() && field_end(text, third + 1)
        == text.len() && is_number(red) && is_number(green) && is_number(blue) && is_number(alpha) {
        Some(ColorView { red, green, blue, alpha })
    } else {
        None
    }
}

/// A field ends in the text, at a comma or at the end of the text, and holds
/// no comma.
pub proof fn lemma_field_end(text: Seq<char>, from: int)
    requires
        0 <= from <= text.len(),
    ensures
        from <= field_end(text, from) <= text.len(),
        field_end(text, from) < text.len() ==> text[field_end(text, from)] == ',',
        forall|i: int| from <= i < field_end(text, from) ==> #[trigger] text[i] != ',',
    decreases text.len() - from,
{
    if from < text.len() && text[from] != ',' {
        lemma_field_end(text, from + 1);
    }
}

/// A color is spelled in characters of one byte.
pub proof fn lemma_color_is_ascii(text: Seq<char>)
    requires
        color_of(text) is Some,
    ensures
        vstd::utf8::is_ascii_chars(text),
{
    let first = field_end(text, 0);
    let second = field_end(text, first + 1);
    let third = field_end(text, second + 1);
    lemma_field_end(text, 0);
    lemma_field_end(text, first + 1);
    lemma_field_end(text, second + 1);
    let red = text.subrange(0, first);
    let green = text.subrange(first + 1, second);
    let blue = text.subrange(second + 1, third);
    let alpha = text.subrange(third + 1, text.len() as int);
    lemma_number_is_ascii(red);
    lemma_number_is_ascii(green);
    lemma_number_is_ascii(blue);
    lemma_number_is_ascii(alpha);
    assert forall|i: int| 0 <= i < text.len() implies '\0' <= #[trigger] text[i] <= '\u{7f}' by {
        if i < first {
            assert(text[i] == red[i]);
        } else if i == first {
        } else if i < second {
            assert(text[i] == green[i - first - 1]);
        } else if i == second {
        } else if i < third {
            assert(text[i] == blue[i - second - 1]);
        } else if i == third {
        } else {
            assert(text[i] == alpha[i - third - 1]);
        }
    }
}

const COMMA: u8 = 0x2c;

fn find_field_end(bytes: &[u8], from: usize, Ghost(text): Ghost<Seq<char>>) -> (end: usize)
    requires
        crate::number::spelled_by(text, bytes@),
        from <= bytes@.len(),
    ensures
        end == field_end(text, from as int),
        from <= end <= bytes@.len(),
{
    let mut end = from;
    while end < bytes.len() && bytes[end] != COMMA
        invariant
            from <= end <= bytes@.len(),
            crate::number::spelled_by(text, bytes@),
            field_end(text, from as int) == field_end(text, end as int),
        decreases bytes@.len() - end,
    {
        end += 1;
    }
    end
}

/// Reads the value of a `color` attribute: `r,g,b,a`, four numbers.
///
/// Only the shape is asked for; the numbers may lie outside the interval
/// from 0 to 1.
pub fn parse_color(value: &str) -> (result: Result<Color, Error>)
    ensures
        match result {
            Ok(color) => color_of(value@) == Some(color@),
            Err(error) => color_of(value@) is None && error.is_flaw(Flaw::InvalidColor),
        },
{
    if !value.is_ascii() {
        proof {
            if color_of(value@) is Some {
                lemma_color_is_ascii(value@);
            }
        }
        return Err(Error::Parse(ErrorKind::InvalidColor));
    }
    let bytes = value.as_bytes();
    proof {
        is_ascii_spec_bytes(value);
    }
    let len = bytes.len();
    let first = find_field_end(bytes, 0, Ghost(value@));
    if first == len {
        return Err(Error::Parse(ErrorKind::InvalidColor));
    }
    let second = find_field_end(bytes, first + 1, Ghost(value@));
    if second == len {
        return Err(Error::Parse(ErrorKind::InvalidColor));
    }
    let third = find_field_end(bytes, second + 1, Ghost(value@));
    if third == len {
        return Err(Error::Parse(ErrorKind::InvalidColor));
    }
    if find_field_end(bytes, third + 1, Ghost(value@)) != len {
        return Err(Error::Parse(ErrorKind::InvalidColor));
    }
    let red = Number::read(value.substring_ascii(0, first));
    let green = Number::read(value.substring_ascii(first + 1, second));
    let blue = Number::read(value.substring_ascii(second + 1, third));
    let alpha = Number::read(value.substring_ascii(third + 1, len));
    match (red, green, blue, alpha) {
        (Some(red), Some(green), Some(blue), Some(alpha)) => Ok(Color { red, green, blue, alpha }),
        _ => Err(Error::Parse(ErrorKind::InvalidColor)),
    }
}

} // verus!
