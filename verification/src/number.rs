//! Decimal numerals as attributes spell them.
//!
//! A number is kept as the text that spells it, once that text is known to
//! follow the grammar of decimal floating-point literals:
//!
//! ```text
//! Number  ::= Sign? ( 'inf' | 'infinity' | 'nan' | Decimal )
//! Decimal ::= ( Digit+ | Digit+ '.' Digit* | Digit* '.' Digit+ ) Exp?
//! Exp     ::= ( 'e' | 'E' ) Sign? Digit+
//! ```
//!
//! with the three words in any mix of upper and lower case. No arithmetic is
//! done on the value; the one question asked of it, whether it lies between 0
//! and 360, is decided exactly on the digits.
//!
//! The range is that of the number as the document writes it, not of a
//! machine number near it. The rule of the format is that an angle lies
//! between 0 and 360, and a document that writes `360.00000000000000000001`
//! or `-1e-400` states an angle outside that range, by however little. A
//! reader that rounds to a double first would take both, because the nearest
//! double is 360 or 0; here both are out of range. What is in range here is
//! in range after any rounding, since rounding keeps the order of numbers.

use crate::error::{Error, ErrorKind, Flaw};
use vstd::prelude::*;
use vstd::slice::*;
use vstd::string::*;

verus! {
/// `c` is one of the ten decimal digits.
pub open spec fn is_digit(c: char) -> bool {
    '0' <= c && c <= '9'
}

/// The number that the decimal digit `c` stands for.
pub open spec fn digit_value(c: char) -> nat {
    (c as int - '0' as int) as nat
}

/// How many decimal digits stand in `text` in a row, from index `from` on.
pub open spec fn digit_run(text: Seq<char>, from: int) -> nat
    decreases text.len() - from,
{
    if 0 <= from < text.len() && is_digit(text[from]) {
        1 + digit_run(text, from + 1)
    } else {
        0
    }
}

/// 1 where a sign stands at index `at`, else 0.
pub open spec fn sign_len(text: Seq<char>, at: int) -> int {
    if 0 <= at < text.len() && (text[at] == '+' || text[at] == '-') {
        1
    } else {
        0
    }
}

/// `digits` holds nothing but decimal digits.
pub open spec fn all_digits(digits: Seq<char>) -> bool {
    forall|i: int| 0 <= i < digits.len() ==> is_digit(#[trigger] digits[i])
}

/// The natural number that a row of decimal digits spells.
pub open spec fn digits_value(digits: Seq<char>) -> nat
    decreases digits.len(),
{
    if digits.len() == 0 {
        0
    } else {
        10 * digits_value(digits.drop_last()) + digit_value(digits.last())
    }
}

/// Ten to the power `n`.
pub open spec fn pow10(n: nat) -> nat
    decreases n,
{
    if n == 0 {
        1
    } else {
        10 * pow10((n - 1) as nat)
    }
}

/// The parts of a decimal numeral. Its value is `digits`, read as one
/// natural number, times ten to the power `exponent`, negated if `negative`.
pub struct Decimal {
    pub negative: bool,
    pub digits: Seq<char>,
    pub exponent: int,
}

impl Decimal {
    /// The value is 0, whatever the sign and the exponent.
    pub open spec fn is_zero(self) -> bool {
        digits_value(self.digits) == 0
    }

    /// The absolute value is at most `bound`.
    pub open spec fn magnitude_at_most(self, bound: nat) -> bool {
        if self.exponent >= 0 {
            digits_value(self.digits) * pow10(self.exponent as nat) <= bound
        } else {
            digits_value(self.digits) <= bound * pow10((-self.exponent) as nat)
        }
    }

    /// The value lies in the closed interval from 0 to `bound`.
    pub open spec fn within(self, bound: nat) -> bool {
        self.is_zero() || (!self.negative && self.magnitude_at_most(bound))
    }
}

/// Where the digits before the point end.
pub open spec fn int_end(text: Seq<char>) -> int {
    sign_len(text, 0) + digit_run(text, sign_len(text, 0))
}

/// A point follows the digits at the start of `text`.
pub open spec fn has_point(text: Seq<char>) -> bool {
    int_end(text) < text.len() && text[int_end(text)] == '.'
}

/// Where the digits after the point start.
pub open spec fn frac_start(text: Seq<char>) -> int {
    if has_point(text) {
        int_end(text) + 1
    } else {
        int_end(text)
    }
}

/// How many digits stand after the point.
pub open spec fn frac_len(text: Seq<char>) -> nat {
    if has_point(text) {
        digit_run(text, frac_start(text))
    } else {
        0
    }
}

/// The digits before and after the point, in one row.
pub open spec fn mantissa(text: Seq<char>) -> Seq<char> {
    text.subrange(sign_len(text, 0), int_end(text)) + text.subrange(
        frac_start(text),
        frac_start(text) + frac_len(text),
    )
}

/// A minus sign stands at index `at`.
pub open spec fn is_minus(text: Seq<char>, at: int) -> bool {
    0 <= at < text.len() && text[at] == '-'
}

/// The power of ten that `text` names from index `at` to its end: 0 where
/// nothing is left, else what follows an `e`. Nothing where the rest is no
/// exponent.
pub open spec fn scale_at(text: Seq<char>, at: int) -> Option<int> {
    let start = at + 1 + sign_len(text, at + 1);
    let end = start + digit_run(text, start);
    let size = digits_value(text.subrange(start, end)) as int;
    if at == text.len() {
        Some(0)
    } else if 0 <= at < text.len() && (text[at] == 'e' || text[at] == 'E') && start < end && end
        == text.len() {
        Some(
            if is_minus(text, at + 1) {
                -size
            } else {
                size
            },
        )
    } else {
        None
    }
}

/// The parts of `text` if it is a decimal numeral: an optional sign, digits
/// with at most one point among them, and an optional exponent.
pub open spec fn decimal_of(text: Seq<char>) -> Option<Decimal> {
    match scale_at(text, frac_start(text) + frac_len(text)) {
        Some(scale) if mantissa(text).len() > 0 => Some(
            Decimal {
                negative: is_minus(text, 0),
                digits: mantissa(text),
                exponent: scale - frac_len(text),
            },
        ),
        _ => None,
    }
}

/// `c` is the lower-case letter `letter` or its upper-case form.
pub open spec fn is_letter(c: char, letter: char) -> bool {
    c == letter || c as int + 32 == letter as int
}

/// `text` spells the lower-case `word`, in any mix of cases.
pub open spec fn spells(text: Seq<char>, word: Seq<char>) -> bool {
    &&& text.len() == word.len()
    &&& forall|i: int| 0 <= i < word.len() ==> is_letter(#[trigger] text[i], word[i])
}

/// After an optional sign, `text` is one of the words for infinity or for
/// "not a number".
pub open spec fn is_special(text: Seq<char>) -> bool {
    let word = text.skip(sign_len(text, 0));
    spells(word, "inf"@) || spells(word, "infinity"@) || spells(word, "nan"@)
}

/// `text` follows the grammar of numbers.
pub open spec fn is_number(text: Seq<char>) -> bool {
    decimal_of(text) is Some || is_special(text)
}

/// `text` is a finite decimal numeral whose value lies between 0 and 360,
/// both included.
///
/// The value is the exact one that the numeral states: its digits, read as
/// one natural number, times the power of ten that the point and the
/// exponent give. No rounding to a machine number comes before the test, so
/// that a numeral just above 360 or just below 0 is out of range even where
/// the nearest double is 360 or 0. Infinity and "not a number" are out of
/// range.
pub open spec fn in_full_turn(text: Seq<char>) -> bool {
    match decimal_of(text) {
        Some(decimal) => decimal.within(360),
        None => false,
    }
}

/// `text` spelled out in single bytes: every character is one byte of the same value.
pub open spec fn spelled_by(text: Seq<char>, bytes: Seq<u8>) -> bool {
    &&& bytes.len() == text.len()
    &&& forall|i: int| 0 <= i < text.len() ==> (#[trigger] text[i]) as int == bytes[i] as int
}

/// A run of digits lies in the text, holds digits only, and ends where no
/// digit follows.
pub proof fn lemma_digit_run_bound(text: Seq<char>, from: int)
    requires
        0 <= from <= text.len(),
    ensures
        from + digit_run(text, from) <= text.len(),
        forall|i: int| from <= i < from + digit_run(text, from) ==> is_digit(#[trigger] text[i]),
        from + digit_run(text, from) < text.len() ==> !is_digit(
            text[from + digit_run(text, from)],
        ),
    decreases text.len() - from,
{
    if from < text.len() && is_digit(text[from]) {
        lemma_digit_run_bound(text, from + 1);
    }
}

/// A power of ten is at least 1.
pub proof fn lemma_pow10_positive(n: nat)
    ensures
        pow10(n) >= 1,
    decreases n,
{
    if n > 0 {
        lemma_pow10_positive((n - 1) as nat);
    }
}

/// Powers of ten grow with the exponent.
pub proof fn lemma_pow10_monotone(a: nat, b: nat)
    requires
        a <= b,
    ensures
        pow10(a) <= pow10(b),
    decreases b,
{
    if a < b {
        lemma_pow10_monotone(a, (b - 1) as nat);
        lemma_pow10_positive((b - 1) as nat);
    }
}

/// A row of digits spells a number below ten to the power of its length.
pub proof fn lemma_value_below_power(digits: Seq<char>)
    requires
        all_digits(digits),
    ensures
        digits_value(digits) < pow10(digits.len()),
    decreases digits.len(),
{
    if digits.len() > 0 {
        lemma_value_below_power(digits.drop_last());
        assert(digit_value(digits.last()) <= 9);
    }
}

/// The value of two rows of digits put together.
pub proof fn lemma_value_of_joined(high: Seq<char>, low: Seq<char>)
    ensures
        digits_value(high + low) == digits_value(high) * pow10(low.len()) + digits_value(low),
    decreases low.len(),
{
    if low.len() == 0 {
        assert(high + low =~= high);
        assert(pow10(0) == 1);
        assert(digits_value(low) == 0);
    } else {
        let rest = low.drop_last();
        assert((high + low).drop_last() =~= high + rest);
        assert((high + low).last() == low.last());
        lemma_value_of_joined(high, rest);
        let h = digits_value(high) as int;
        let p = pow10(rest.len()) as int;
        assert(pow10(low.len()) == 10 * p);
        assert(h * (10 * p) == 10 * (h * p)) by (nonlinear_arith);
        assert(digits_value(high + low) == 10 * (h * p + digits_value(rest)) + digit_value(
            low.last(),
        ));
        assert(digits_value(low) == 10 * digits_value(rest) + digit_value(low.last()));
    }
}

/// A numeral holds nothing but characters of one byte.
pub proof fn lemma_number_is_ascii(text: Seq<char>)
    requires
        is_number(text),
    ensures
        vstd::utf8::is_ascii_chars(text),
{
    reveal_strlit("inf");
    reveal_strlit("infinity");
    reveal_strlit("nan");
    let int_start = sign_len(text, 0);
    if decimal_of(text) is Some {
        lemma_digit_run_bound(text, int_start);
        if has_point(text) {
            lemma_digit_run_bound(text, frac_start(text));
        }
        let frac_end = frac_start(text) + frac_len(text);
        let exp_start = frac_end + 1 + sign_len(text, frac_end + 1);
        if frac_end < text.len() {
            lemma_digit_run_bound(text, exp_start);
        }
        assert forall|i: int| 0 <= i < text.len() implies '\0' <= #[trigger] text[i] <= '\u{7f}' by {
            if int_start <= i < int_end(text) {
                assert(is_digit(text[i]));
            } else if frac_start(text) <= i < frac_end {
                assert(is_digit(text[i]));
            } else if i >= exp_start {
                assert(is_digit(text[i]));
            }
        }
    } else {
        let word = text.skip(int_start);
        assert forall|i: int| 0 <= i < text.len() implies '\0' <= #[trigger] text[i] <= '\u{7f}' by {
            if i >= int_start {
                assert(text[i] == word[i - int_start]);
                if spells(word, "inf"@) {
                    assert(is_letter(word[i - int_start], "inf"@[i - int_start]));
                } else if spells(word, "infinity"@) {
                    assert(is_letter(word[i - int_start], "infinity"@[i - int_start]));
                } else {
                    assert(is_letter(word[i - int_start], "nan"@[i - int_start]));
                }
            }
        }
    }
}

const PLUS: u8 = 0x2b;

const MINUS: u8 = 0x2d;

const POINT: u8 = 0x2e;

const DIGIT_ZERO: u8 = 0x30;

const DIGIT_NINE: u8 = 0x39;

const UPPER_E: u8 = 0x45;

const LOWER_E: u8 = 0x65;

/// Exponents are kept exactly up to this size and cut off beyond it.
const EXPONENT_CAP: u128 = 1_000_000_000_000_000_000_000_000_000_000;

/// Beyond this size an exponent decides the range question by its sign alone.
pub open spec fn far() -> int {
    100_000_000_000_000_000_000_000_000_000
}

/// `kept` stands for the number `exact`: the same number, or both at least
/// `far` away from 0 on the same side.
pub open spec fn stands_for(kept: i128, exact: int, far: int) -> bool {
    kept == exact || (kept >= far && exact >= far) || (kept <= -far && exact <= -far)
}

/// A decimal numeral taken apart: the digits copied out, the exponent as a
/// machine integer.
struct Numeral {
    negative: bool,
    digits: Vec<u8>,
    exponent: i128,
}

impl Numeral {
    spec fn tracks(&self, decimal: Decimal) -> bool {
        &&& self.negative == decimal.negative
        &&& spelled_by(decimal.digits, self.digits@)
        &&& all_digits(decimal.digits)
        &&& -20 * far() <= self.exponent <= 20 * far()
        &&& stands_for(self.exponent, decimal.exponent, far())
    }
}

fn scan_sign(bytes: &[u8], at: usize, Ghost(text): Ghost<Seq<char>>) -> (len: usize)
    requires
        spelled_by(text, bytes@),
    ensures
        len == sign_len(text, at as int),
{
    if at < bytes.len() && (bytes[at] == PLUS || bytes[at] == MINUS) {
        1
    } else {
        0
    }
}

fn scan_digits(bytes: &[u8], from: usize, Ghost(text): Ghost<Seq<char>>) -> (end: usize)
    requires
        spelled_by(text, bytes@),
        from <= bytes@.len(),
    ensures
        end == from + digit_run(text, from as int),
        end <= bytes@.len(),
{
    let mut end = from;
    while end < bytes.len() && DIGIT_ZERO <= bytes[end] && bytes[end] <= DIGIT_NINE
        invariant
            from <= end <= bytes@.len(),
            spelled_by(text, bytes@),
            digit_run(text, from as int) == (end - from) + digit_run(text, end as int),
        decreases bytes@.len() - end,
    {
        end += 1;
    }
    end
}

fn append_range(target: &mut Vec<u8>, bytes: &[u8], from: usize, to: usize)
    requires
        from <= to <= bytes@.len(),
    ensures
        final(target)@ == old(target)@ + bytes@.subrange(from as int, to as int),
{
    let mut i = from;
    while i < to
        invariant
            from <= i <= to <= bytes@.len(),
            target@ == old(target)@ + bytes@.subrange(from as int, i as int),
        decreases to - i,
    {
        target.push(bytes[i]);
        i += 1;
        assert(target@ =~= old(target)@ + bytes@.subrange(from as int, i as int));
    }
}

/// The number that the digits from `from` to `to` spell, or `cap` if that is less.
fn capped_value(
    bytes: &[u8],
    from: usize,
    to: usize,
    cap: u128,
    Ghost(text): Ghost<Seq<char>>,
) -> (value: u128)
    requires
        spelled_by(text, bytes@),
        from <= to <= bytes@.len(),
        all_digits(text.subrange(from as int, to as int)),
        cap <= EXPONENT_CAP,
    ensures
        value == if digits_value(text.subrange(from as int, to as int)) <= cap {
            digits_value(text.subrange(from as int, to as int))
        } else {
            cap as nat
        },
{
    let mut value: u128 = 0;
    let mut i = from;
    while i < to
        invariant
            from <= i <= to <= bytes@.len(),
            spelled_by(text, bytes@),
            all_digits(text.subrange(from as int, to as int)),
            cap <= EXPONENT_CAP,
            value == if digits_value(text.subrange(from as int, i as int)) <= cap {
                digits_value(text.subrange(from as int, i as int))
            } else {
                cap as nat
            },
        decreases to - i,
    {
        proof {
            let next = text.subrange(from as int, i + 1);
            assert(next.drop_last() =~= text.subrange(from as int, i as int));
            assert(next.last() == text[i as int]);
            assert(text.subrange(from as int, to as int)[i - from] == text[i as int]);
            assert(is_digit(text[i as int]));
        }
        let digit = (bytes[i] - DIGIT_ZERO) as u128;
        value = value * 10 + digit;
        if value > cap {
            value = cap;
        }
        i += 1;
    }
    value
}

/// The digits from `from` to `to` are all `0`.
fn all_zeros(bytes: &[u8], from: usize, to: usize, Ghost(text): Ghost<Seq<char>>) -> (zero: bool)
    requires
        spelled_by(text, bytes@),
        from <= to <= bytes@.len(),
        all_digits(text.subrange(from as int, to as int)),
    ensures
        zero == (digits_value(text.subrange(from as int, to as int)) == 0),
{
    let mut i = from;
    while i < to
        invariant
            from <= i <= to <= bytes@.len(),
            spelled_by(text, bytes@),
            all_digits(text.subrange(from as int, to as int)),
            digits_value(text.subrange(from as int, i as int)) == 0,
        decreases to - i,
    {
        proof {
            let next = text.subrange(from as int, i + 1);
            assert(next.drop_last() =~= text.subrange(from as int, i as int));
            assert(next.last() == text[i as int]);
            assert(text.subrange(from as int, to as int)[i - from] == text[i as int]);
            assert(is_digit(text[i as int]));
        }
        if bytes[i] != DIGIT_ZERO {
            proof {
                let head = text.subrange(from as int, i + 1);
                let tail = text.subrange(i + 1, to as int);
                assert(text.subrange(from as int, to as int) =~= head + tail);
                lemma_value_of_joined(head, tail);
                lemma_pow10_positive(tail.len());
                assert(digits_value(head) >= 1);
                assert(digits_value(head) * pow10(tail.len()) >= 1) by (nonlinear_arith)
                    requires
                        digits_value(head) >= 1,
                        pow10(tail.len()) >= 1,
                ;
            }
            return false;
        }
        i += 1;
    }
    true
}

/// Copies out the digits before and after the point; also gives the number
/// of digits after the point and the index at which the digits end.
fn read_mantissa(bytes: &[u8], Ghost(text): Ghost<Seq<char>>) -> (parts: (Vec<u8>, usize, usize))
    requires
        spelled_by(text, bytes@),
    ensures
        spelled_by(mantissa(text), parts.0@),
        all_digits(mantissa(text)),
        parts.1 == frac_len(text),
        parts.2 == frac_start(text) + frac_len(text),
        parts.2 <= bytes@.len(),
{
    let int_start = scan_sign(bytes, 0, Ghost(text));
    let int_end = scan_digits(bytes, int_start, Ghost(text));
    let point = int_end < bytes.len() && bytes[int_end] == POINT;
    let frac_start = if point { int_end + 1 } else { int_end };
    let frac_end = if point { scan_digits(bytes, frac_start, Ghost(text)) } else { int_end };
    let mut digits: Vec<u8> = Vec::new();
    append_range(&mut digits, bytes, int_start, int_end);
    append_range(&mut digits, bytes, frac_start, frac_end);
    proof {
        lemma_digit_run_bound(text, int_start as int);
        if point {
            lemma_digit_run_bound(text, frac_start as int);
        }
        assert(digits@ =~= bytes@.subrange(int_start as int, int_end as int) + bytes@.subrange(
            frac_start as int,
            frac_end as int,
        ));
    }
    (digits, frac_end - frac_start, frac_end)
}

/// Reads the exponent that fills the bytes from `at` to the end.
fn read_scale(bytes: &[u8], at: usize, Ghost(text): Ghost<Seq<char>>) -> (scale: Option<i128>)
    requires
        spelled_by(text, bytes@),
        at <= bytes@.len(),
    ensures
        scale is Some <==> scale_at(text, at as int) is Some,
        scale matches Some(kept) ==> {
            &&& -10 * far() <= kept <= 10 * far()
            &&& stands_for(kept, scale_at(text, at as int)->0, 10 * far())
        },
{
    if at == bytes.len() {
        return Some(0);
    }
    if bytes[at] != LOWER_E && bytes[at] != UPPER_E {
        return None;
    }
    let sign = scan_sign(bytes, at + 1, Ghost(text));
    let start = at + 1 + sign;
    let end = scan_digits(bytes, start, Ghost(text));
    if end == start || end != bytes.len() {
        return None;
    }
    proof {
        lemma_digit_run_bound(text, start as int);
    }
    let size = capped_value(bytes, start, end, EXPONENT_CAP, Ghost(text)) as i128;
    if sign == 1 && bytes[at + 1] == MINUS {
        Some(-size)
    } else {
        Some(size)
    }
}

/// Takes a decimal numeral apart.
fn read_decimal(bytes: &[u8], Ghost(text): Ghost<Seq<char>>) -> (numeral: Option<Numeral>)
    requires
        spelled_by(text, bytes@),
    ensures
        numeral is Some <==> decimal_of(text) is Some,
        numeral matches Some(n) ==> n.tracks(decimal_of(text)->0),
{
    let negative = bytes.len() > 0 && bytes[0] == MINUS;
    let (digits, frac_len, end) = read_mantissa(bytes, Ghost(text));
    if digits.len() == 0 {
        return None;
    }
    match read_scale(bytes, end, Ghost(text)) {
        None => None,
        Some(scale) => Some(Numeral { negative, digits, exponent: scale - frac_len as i128 }),
    }
}

/// The value of the numeral lies between 0 and 360, both included.
fn numeral_in_full_turn(numeral: &Numeral, Ghost(decimal): Ghost<Decimal>) -> (inside: bool)
    requires
        numeral.tracks(decimal),
    ensures
        inside == decimal.within(360),
{
    let len = numeral.digits.len();
    let digits = numeral.digits.as_slice();
    let ghost number = digits_value(decimal.digits);
    assert(decimal.digits.subrange(0, len as int) =~= decimal.digits);
    if all_zeros(digits, 0, len, Ghost(decimal.digits)) {
        return true;
    }
    if numeral.negative {
        return false;
    }
    let exponent = numeral.exponent;
    if exponent >= 3 {
        proof {
            let power = pow10(decimal.exponent as nat);
            lemma_pow10_monotone(3, decimal.exponent as nat);
            assert(pow10(3) == 1000) by {
                reveal_with_fuel(pow10, 4);
            }
            assert(number * power >= 1000) by (nonlinear_arith)
                requires
                    number >= 1,
                    power >= 1000,
            ;
        }
        false
    } else if exponent >= 0 {
        let value = capped_value(digits, 0, len, 361, Ghost(decimal.digits));
        proof {
            assert(decimal.exponent == exponent);
            assert(pow10(0) == 1 && pow10(1) == 10 && pow10(2) == 100) by {
                reveal_with_fuel(pow10, 3);
            }
        }
        if value > 360 {
            proof {
                let power = pow10(decimal.exponent as nat);
                assert(number * power >= 361) by (nonlinear_arith)
                    requires
                        number >= 361,
                        power >= 1,
                ;
            }
            false
        } else if exponent == 0 {
            value <= 360
        } else if exponent == 1 {
            value * 10 <= 360
        } else {
            value * 100 <= 360
        }
    } else if -exponent >= len as i128 {
        proof {
            let shift = (-decimal.exponent) as nat;
            lemma_value_below_power(decimal.digits);
            lemma_pow10_monotone(decimal.digits.len(), shift);
            assert(pow10(shift) <= 360 * pow10(shift));
        }
        true
    } else {
        let split = len - (-exponent) as usize;
        let ghost high = digits_value(decimal.digits.subrange(0, split as int));
        let ghost low = digits_value(decimal.digits.subrange(split as int, len as int));
        let ghost unit = pow10((-decimal.exponent) as nat);
        proof {
            assert(decimal.exponent == exponent);
            let front = decimal.digits.subrange(0, split as int);
            let back = decimal.digits.subrange(split as int, len as int);
            assert(decimal.digits =~= front + back);
            assert(back.len() == -decimal.exponent);
            lemma_value_of_joined(front, back);
            lemma_value_below_power(back);
            lemma_pow10_positive(back.len());
            assert(number == high * unit + low);
            assert(low < unit);
            assert(unit >= 1);
            assert(decimal.within(360) == (number <= 360 * unit));
        }
        let value = capped_value(digits, 0, split, 361, Ghost(decimal.digits));
        if value < 360 {
            proof {
                assert(high * unit + low <= 360 * unit) by (nonlinear_arith)
                    requires
                        high <= 359,
                        low < unit,
                ;
            }
            true
        } else if value > 360 {
            proof {
                assert(high * unit + low > 360 * unit) by (nonlinear_arith)
                    requires
                        high >= 361,
                        unit >= 1,
                ;
            }
            false
        } else {
            all_zeros(digits, split, len, Ghost(decimal.digits))
        }
    }
}

/// From `from` on, the bytes spell the lower-case `word`, in any mix of cases.
fn spells_word(bytes: &[u8], from: usize, word: &str, Ghost(text): Ghost<Seq<char>>) -> (same: bool)
    requires
        spelled_by(text, bytes@),
        from <= bytes@.len(),
        is_ascii(word),
    ensures
        same == spells(text.skip(from as int), word@),
{
    let letters = word.as_bytes();
    proof {
        is_ascii_spec_bytes(word);
    }
    if bytes.len() - from != letters.len() {
        return false;
    }
    let mut i: usize = 0;
    while i < letters.len()
        invariant
            i <= letters@.len(),
            from + letters@.len() == bytes@.len(),
            bytes@.len() <= usize::MAX,
            spelled_by(text, bytes@),
            spelled_by(word@, letters@),
            is_ascii(word),
            forall|j: int| 0 <= j < i ==> is_letter(#[trigger] text.skip(from as int)[j], word@[j]),
        decreases letters@.len() - i,
    {
        let c = bytes[from + i];
        let letter = letters[i];
        assert(text.skip(from as int)[i as int] == text[from + i]);
        if c != letter && c as u16 + 32 != letter as u16 {
            return false;
        }
        i += 1;
    }
    true
}

/// A number, kept as the text that spells it.
#[derive(Debug, PartialEq, Eq)]
pub struct Number {
    text: String,
}

impl View for Number {
    type V = Seq<char>;

    closed spec fn view(&self) -> Seq<char> {
        self.text@
    }
}

/// The bytes of `text` where every character is one byte, else nothing.
fn single_bytes(text: &str) -> (bytes: Option<&[u8]>)
    ensures
        bytes is Some <==> is_ascii(text),
        bytes matches Some(b) ==> spelled_by(text@, b@),
{
    if text.is_ascii() {
        proof {
            is_ascii_spec_bytes(text);
        }
        Some(text.as_bytes())
    } else {
        None
    }
}

fn follows_grammar(text: &str) -> (valid: bool)
    ensures
        valid == is_number(text@),
{
    match single_bytes(text) {
        None => {
            proof {
                if is_number(text@) {
                    lemma_number_is_ascii(text@);
                }
            }
            false
        },
        Some(bytes) => {
            if read_decimal(bytes, Ghost(text@)).is_some() {
                return true;
            }
            proof {
                reveal_strlit("inf");
                reveal_strlit("infinity");
                reveal_strlit("nan");
            }
            let start = scan_sign(bytes, 0, Ghost(text@));
            spells_word(bytes, start, "inf", Ghost(text@)) || spells_word(
                bytes,
                start,
                "infinity",
                Ghost(text@),
            ) || spells_word(bytes, start, "nan", Ghost(text@))
        },
    }
}

impl Number {
    #[verifier::type_invariant]
    spec fn well_formed(self) -> bool {
        is_number(self.text@)
    }

    /// The number that `value` spells, if it spells one.
    pub fn read(value: &str) -> (number: Option<Number>)
        ensures
            number is Some <==> is_number(value@),
            number matches Some(n) ==> n@ == value@,
    {
        if follows_grammar(value) {
            Some(Number { text: value.to_owned() })
        } else {
            None
        }
    }

    /// The number 0.
    pub fn zero() -> (number: Number)
        ensures
            number@ == "0"@,
    {
        proof {
            lemma_single_digit("0"@);
        }
        Number { text: "0".to_owned() }
    }

    /// The number 1.
    pub fn one() -> (number: Number)
        ensures
            number@ == "1"@,
    {
        proof {
            lemma_single_digit("1"@);
        }
        Number { text: "1".to_owned() }
    }

    /// The text that spells the number.
    pub fn as_str(&self) -> (text: &str)
        ensures
            text@ == self@,
            is_number(text@),
    {
        proof {
            use_type_invariant(self);
        }
        self.text.as_str()
    }

    /// Whether the number is finite and lies between 0 and 360, both
    /// included: the number exactly as it is written, before any rounding.
    pub fn is_in_full_turn(&self) -> (inside: bool)
        ensures
            inside == in_full_turn(self@),
    {
        match single_bytes(self.text.as_str()) {
            None => {
                proof {
                    if decimal_of(self@) is Some {
                        lemma_number_is_ascii(self@);
                    }
                }
                false
            },
            Some(bytes) => match read_decimal(bytes, Ghost(self@)) {
                None => false,
                Some(numeral) => numeral_in_full_turn(&numeral, Ghost(decimal_of(self@)->0)),
            },
        }
    }
}

/// One digit alone is a number.
proof fn lemma_single_digit(text: Seq<char>)
    requires
        text == "0"@ || text == "1"@,
    ensures
        is_number(text),
{
    reveal_strlit("0");
    reveal_strlit("1");
    assert(digit_run(text, 1) == 0);
    assert(digit_run(text, 0) == 1);
    assert(text.subrange(0, 1).len() == 1);
}

/// Reads an attribute's value as a number.
///
/// Succeeds exactly on the texts that follow the grammar of numbers, and
/// keeps the text as it stands; every other text comes back in the error.
pub fn parse_number(value: &str) -> (result: Result<Number, Error>)
    ensures
        match result {
            Ok(number) => is_number(value@) && number@ == value@,
            Err(error) => !is_number(value@) && error.is_flaw(Flaw::InvalidNumber(value@)),
        },
{
    match Number::read(value) {
        Some(number) => Ok(number),
        None => Err(Error::Parse(ErrorKind::InvalidNumber(value.to_owned()))),
    }
}

} // verus!
