//! Reading a numeric field: a decimal numeral, with a fraction and an
//! exponent if it has them, narrowed to a 32-bit integer.
//!
//! The numeral is taken at single precision: its value is rounded to the
//! nearest single-precision number, and the integer part of that number,
//! limited to the 32-bit range, is the field's value.

use vstd::prelude::*;
use vstd::slice::slice_subrange;
use crate::decimal::at_most;
use crate::decimal::lemma_scaled_by_digits;
use crate::decimal::lemma_scaled_far_left;
use crate::decimal::lemma_scaled_whole;
use crate::decimal::pow10;
use crate::decimal::scaled;
use crate::decimal::scaled_exact;
use crate::decimal::scaled_floor;
use crate::number::all_digits;
use crate::number::integer_value;
use crate::number::digit_of;
use crate::number::digits_value;
use crate::number::is_digit;
use crate::number::is_negative;
use crate::number::lemma_digits_value_step;
use crate::number::unsigned_part;
use crate::rounding::round_to_single;
use crate::rounding::lemma_small_whole_is_kept;
use crate::rounding::single_integer_part;
use crate::rounding::DECIMAL_UNIT;
use crate::rounding::SIGNIFICAND_END;
use crate::rounding::MAGNITUDE_CAP;
use crate::rounding::SCALED_CAP;

verus! {

/// The decimal places that a magnitude is carried to before it is rounded.
pub const DECIMAL_PLACES: i128 = 25;

/// `10^30`: the magnitude to which an exponent is limited while it is read.
/// No text that fits in memory has that many digits.
pub const EXPONENT_CAP: i128 = 1_000_000_000_000_000_000_000_000_000_000;

/// Whether `c` is the lower-case ASCII letter `letter` or its upper-case
/// form.
pub open spec fn same_letter(c: char, letter: char) -> bool {
    c == letter || c as u32 + 32 == letter as u32
}

/// Whether `s` is `word`, whatever the case of its letters. `word` is in
/// lower case.
pub open spec fn spells(s: Seq<char>, word: Seq<char>) -> bool {
    s.len() == word.len() && forall|i: int| 0 <= i < s.len() ==> same_letter(#[trigger] s[i], word[i])
}

/// Whether `s` is one of the two words for infinity.
pub open spec fn names_infinity(s: Seq<char>) -> bool {
    spells(s, seq!['i', 'n', 'f']) || spells(s, seq!['i', 'n', 'f', 'i', 'n', 'i', 't', 'y'])
}

/// How many digits `s` starts with.
pub open spec fn leading_digits(s: Seq<char>) -> nat
    decreases s.len(),
{
    if s.len() > 0 && is_digit(s[0]) {
        1 + leading_digits(s.drop_first())
    } else {
        0
    }
}

/// An unsigned decimal numeral in parts: its digits without the point, how
/// many of them stand after the point, and its exponent.
pub struct Decimal {
    pub digits: Seq<char>,
    pub fraction_len: nat,
    pub exponent: int,
}

impl Decimal {
    /// The power of ten by which the number that the digits write is to be
    /// multiplied: the numeral stands for that number times `10^scale`.
    pub open spec fn scale(self) -> int {
        self.exponent - self.fraction_len
    }
}

/// The exponent that `s` writes at the end of a numeral: nothing, for 0, or
/// `e` or `E`, an optional sign and one or more digits. Any other text
/// writes none.
pub open spec fn exponent_of(s: Seq<char>) -> Option<int> {
    if s.len() == 0 {
        Some(0)
    } else if s[0] == 'e' || s[0] == 'E' {
        let rest = s.drop_first();
        let body = unsigned_part(rest);
        if body.len() > 0 && all_digits(body) {
            Some(
                if is_negative(rest) {
                    -(digits_value(body) as int)
                } else {
                    digits_value(body) as int
                },
            )
        } else {
            None
        }
    } else {
        None
    }
}

/// The unsigned decimal numeral that `s` writes: digits, then optionally a
/// point and more digits, with at least one digit before or after the point,
/// then optionally an exponent. Any other text writes none.
pub open spec fn decimal_of(s: Seq<char>) -> Option<Decimal> {
    let whole_len = leading_digits(s);
    let after_whole = s.skip(whole_len as int);
    let dotted = after_whole.len() > 0 && after_whole[0] == '.';
    let after_point = if dotted {
        after_whole.drop_first()
    } else {
        after_whole
    };
    let fraction_len = if dotted {
        leading_digits(after_point)
    } else {
        0
    };
    if whole_len + fraction_len == 0 {
        None
    } else {
        match exponent_of(after_point.skip(fraction_len as int)) {
            Some(exponent) => Some(
                Decimal {
                    digits: s.take(whole_len as int) + after_point.take(fraction_len as int),
                    fraction_len,
                    exponent,
                },
            ),
            None => None,
        }
    }
}

/// The integer part of the single-precision number nearest to the value of
/// `d`, from `2^31` on `2^31`.
pub open spec fn decimal_magnitude(d: Decimal) -> nat {
    single_integer_part(
        scaled(d.digits, d.scale() + DECIMAL_PLACES),
        scaled_exact(d.digits, d.scale() + DECIMAL_PLACES),
    )
}

/// The signed magnitude, limited to what a 32-bit signed integer holds.
pub open spec fn saturated(negative: bool, magnitude: nat) -> int {
    if negative {
        if magnitude >= MAGNITUDE_CAP {
            i32::MIN as int
        } else {
            -(magnitude as int)
        }
    } else {
        if magnitude >= MAGNITUDE_CAP {
            i32::MAX as int
        } else {
            magnitude as int
        }
    }
}

/// The integer that a numeric field `s` stands for. `s` is an optional `+`
/// or `-` followed by a decimal numeral or by a word for infinity, in any
/// case. A numeral gives the integer part of its value at single precision;
/// what lies outside the 32-bit range, infinity included, gives the nearest
/// end of that range. Any other text, `nan` among it, gives none.
pub open spec fn numeral_value(s: Seq<char>) -> Option<int> {
    let body = unsigned_part(s);
    if names_infinity(body) {
        Some(saturated(is_negative(s), MAGNITUDE_CAP as nat))
    } else {
        match decimal_of(body) {
            Some(d) => Some(saturated(is_negative(s), decimal_magnitude(d))),
            None => None,
        }
    }
}

/// A position `n` up to which everything is a digit, and which is the end of
/// `s` or holds another character, is the count of leading digits.
pub proof fn lemma_leading_digits(s: Seq<char>, n: int)
    requires
        0 <= n <= s.len(),
        forall|i: int| 0 <= i < n ==> is_digit(#[trigger] s[i]),
        n < s.len() ==> !is_digit(s[n]),
    ensures
        leading_digits(s) == n,
    decreases s.len(),
{
    if n > 0 {
        let rest = s.drop_first();
        assert(is_digit(s[0]));
        assert forall|i: int| 0 <= i < n - 1 implies is_digit(#[trigger] rest[i]) by {
            assert(rest[i] == s[i + 1]);
        }
        lemma_leading_digits(rest, n - 1);
    }
}

/// The whole number that the numeric field `s` stands for exactly: the
/// value of its numeral, signed, where that value is whole and at most
/// `2^24` in magnitude. Fraction digits and an exponent may write it, as in
/// `10.0` and `1e1`.
pub open spec fn whole_value(s: Seq<char>) -> Option<int> {
    match decimal_of(unsigned_part(s)) {
        Some(d) => if scaled_exact(d.digits, d.scale()) && scaled(d.digits, d.scale())
            <= SIGNIFICAND_END {
            Some(
                if is_negative(s) {
                    -(scaled(d.digits, d.scale()) as int)
                } else {
                    scaled(d.digits, d.scale()) as int
                },
            )
        } else {
            None
        },
        None => None,
    }
}

/// A numeral whose value is a whole number of at most `2^24` in magnitude
/// stands for that number: single precision holds it exactly.
pub proof fn lemma_whole_value_is_exact(s: Seq<char>)
    requires
        whole_value(s) is Some,
    ensures
        numeral_value(s) == whole_value(s),
{
    let body = unsigned_part(s);
    let d = decimal_of(body).unwrap();
    let whole_len = leading_digits(body);
    assert(body.len() > 0 && (is_digit(body[0]) || body[0] == '.')) by {
        if whole_len == 0 {
            assert(body.skip(0) == body);
        }
    }
    assert(!same_letter(body[0], 'i'));
    assert(!names_infinity(body));
    lemma_scaled_whole(d.digits, d.scale(), 25);
    assert(pow10(25) == DECIMAL_UNIT) by {
        reveal_with_fuel(pow10, 26);
    }
    lemma_small_whole_is_kept(scaled(d.digits, d.scale()));
}

/// A whole number of at most `2^24` in magnitude reads the same as a
/// numeric field as it does as a whole number: single precision holds it
/// exactly.
pub proof fn lemma_whole_number_reads_the_same(s: Seq<char>)
    requires
        integer_value(s) is Some,
        -SIGNIFICAND_END <= integer_value(s).unwrap() <= SIGNIFICAND_END,
    ensures
        numeral_value(s) == integer_value(s),
{
    let body = unsigned_part(s);
    let value = digits_value(body);
    assert(is_digit(body[0]));
    assert(!same_letter(body[0], 'i'));
    assert(!names_infinity(body));
    lemma_leading_digits(body, body.len() as int);
    assert(body.skip(body.len() as int).len() == 0);
    let after = body.skip(body.len() as int);
    assert(body.take(body.len() as int) + after.take(0) == body);
    assert(after.skip(0) == after);
    assert(decimal_of(body) == Some(Decimal { digits: body, fraction_len: 0, exponent: 0 }));
    assert(pow10(25) == DECIMAL_UNIT) by {
        reveal_with_fuel(pow10, 26);
    }
    lemma_small_whole_is_kept(value);
}

/// `10^36` is beyond the bound from which rounding saturates.
pub proof fn lemma_pow10_reaches_cap()
    ensures
        pow10(36) >= SCALED_CAP,
{
    reveal_with_fuel(pow10, 37);
}

/// Whether `c` is the lower-case letter `letter` or its upper-case form.
pub fn is_letter(c: char, letter: char) -> (r: bool)
    ensures
        r == same_letter(c, letter),
{
    c == letter || c as u32 as u64 + 32 == letter as u32 as u64
}

/// Whether `s` is `word`, whatever the case of its letters.
pub fn spells_word(s: &[char], word: &[char]) -> (r: bool)
    ensures
        r == spells(s@, word@),
{
    if s.len() != word.len() {
        return false;
    }
    let len = s.len();
    let mut i: usize = 0;
    while i < len
        invariant
            i <= len == s@.len() == word@.len(),
            forall|j: int| 0 <= j < i ==> same_letter(#[trigger] s@[j], word@[j]),
        decreases len - i,
    {
        if !is_letter(s[i], word[i]) {
            return false;
        }
        i += 1;
    }
    true
}

/// Appends to `digits` the digits that `s` starts with, and returns their
/// number.
pub fn take_digits(s: &[char], digits: &mut Vec<char>) -> (count: usize)
    ensures
        count == leading_digits(s@),
        count <= s@.len(),
        final(digits)@ == old(digits)@ + s@.take(count as int),
{
    let len = s.len();
    let mut count: usize = 0;
    while count < len && digit_of(s[count]).is_some()
        invariant
            count <= len == s@.len(),
            forall|j: int| 0 <= j < count ==> is_digit(#[trigger] s@[j]),
            digits@ == old(digits)@ + s@.take(count as int),
        decreases len - count,
    {
        digits.push(s[count]);
        count += 1;
        assert(s@.take(count as int) == s@.take(count - 1).push(s@[count - 1]));
    }
    proof {
        lemma_leading_digits(s@, count as int);
    }
    count
}

/// `e` limited to `cap` in magnitude.
pub open spec fn limited(e: int, cap: int) -> int {
    if e > cap {
        cap
    } else if e < -cap {
        -cap
    } else {
        e
    }
}

/// Reads the exponent that `s` writes, limited to `EXPONENT_CAP` in
/// magnitude.
pub fn read_exponent(s: &[char]) -> (r: Option<i128>)
    ensures
        match exponent_of(s@) {
            Some(e) => r == Some(limited(e, EXPONENT_CAP as int) as i128),
            None => r is None,
        },
{
    let len = s.len();
    if len == 0 {
        return Some(0);
    }
    if !(s[0] == 'e' || s[0] == 'E') {
        return None;
    }
    let rest = slice_subrange(s, 1, len);
    assert(rest@ == s@.drop_first());
    let signed = len > 1 && (rest[0] == '+' || rest[0] == '-');
    let negative = len > 1 && rest[0] == '-';
    let body = if signed {
        slice_subrange(rest, 1, len - 1)
    } else {
        rest
    };
    assert(body@ == unsigned_part(rest@));
    let count = body.len();
    if count == 0 {
        return None;
    }
    let mut acc: i128 = 0;
    let mut i: usize = 0;
    while i < count
        invariant
            i <= count == body@.len(),
            count > 0,
            s@.len() > 0 && (s@[0] == 'e' || s@[0] == 'E'),
            rest@ == s@.drop_first(),
            body@ == unsigned_part(rest@),
            forall|j: int| 0 <= j < i ==> is_digit(#[trigger] body@[j]),
            acc == at_most(digits_value(body@.take(i as int)), EXPONENT_CAP as nat),
        decreases count - i,
    {
        let d: i128 = match digit_of(body[i]) {
            Some(d) => d as i128,
            None => {
                assert(!is_digit(body@[i as int]));
                return None;
            },
        };
        proof {
            lemma_digits_value_step(body@, i as int);
        }
        if acc < EXPONENT_CAP {
            acc = acc * 10 + d;
            if acc > EXPONENT_CAP {
                acc = EXPONENT_CAP;
            }
        }
        i += 1;
    }
    assert(body@.take(count as int) == body@);
    if negative {
        Some(-acc)
    } else {
        Some(acc)
    }
}

/// The signed magnitude as a 32-bit integer, limited to its range.
pub fn saturate(negative: bool, magnitude: u32) -> (r: i32)
    ensures
        r == saturated(negative, magnitude as nat),
{
    if magnitude >= 0x8000_0000 {
        if negative {
            i32::MIN
        } else {
            i32::MAX
        }
    } else if negative {
        -(magnitude as i32)
    } else {
        magnitude as i32
    }
}

/// An unsigned decimal numeral as it was read: its digits without the
/// point, how many of them stood after the point, and its exponent, limited
/// to `EXPONENT_CAP` on both sides.
pub struct DecimalParts {
    pub digits: Vec<char>,
    pub fraction_len: usize,
    pub exponent: i128,
}

impl DecimalParts {
    /// Whether these parts are what reading `d` gives.
    pub open spec fn reads(self, d: Decimal) -> bool {
        &&& self.digits@ == d.digits
        &&& self.fraction_len == d.fraction_len
        &&& self.exponent == limited(d.exponent, EXPONENT_CAP as int)
    }
}

/// Reads an unsigned decimal numeral from `s`.
pub fn read_decimal(s: &[char]) -> (r: Option<DecimalParts>)
    ensures
        match decimal_of(s@) {
            Some(d) => r is Some && r->0.reads(d),
            None => r is None,
        },
{
    let mut digits: Vec<char> = Vec::new();
    let whole_len = take_digits(s, &mut digits);
    let after_whole = slice_subrange(s, whole_len, s.len());
    let dotted = after_whole.len() > 0 && after_whole[0] == '.';
    let after_point = if dotted {
        slice_subrange(after_whole, 1, after_whole.len())
    } else {
        after_whole
    };
    let fraction_len = if dotted {
        take_digits(after_point, &mut digits)
    } else {
        0
    };
    assert(digits@ == s@.take(whole_len as int) + after_point@.take(fraction_len as int));
    if digits.len() == 0 {
        return None;
    }
    match read_exponent(slice_subrange(after_point, fraction_len, after_point.len())) {
        Some(exponent) => Some(DecimalParts { digits, fraction_len, exponent }),
        None => None,
    }
}

/// The integer part, at single precision, of the numeral that `parts` were
/// read from.
fn magnitude_of(parts: &DecimalParts, Ghost(d): Ghost<Decimal>) -> (r: u32)
    requires
        parts.reads(d),
    ensures
        r == decimal_magnitude(d),
{
    let count = parts.digits.len();
    let shift = parts.exponent - parts.fraction_len as i128 + DECIMAL_PLACES;
    let (scaled_value, exact) = scaled_floor(parts.digits.as_slice(), shift);
    proof {
        let real_shift = d.scale() + DECIMAL_PLACES;
        if real_shift > shift {
            lemma_pow10_reaches_cap();
            lemma_scaled_far_left(d.digits, shift as int, 36);
            lemma_scaled_far_left(d.digits, real_shift, 36);
            assert(scaled_exact(d.digits, real_shift) == exact);
        } else if real_shift < shift {
            assert(count + shift <= 0);
            lemma_scaled_by_digits(d.digits, shift as int);
            lemma_scaled_by_digits(d.digits, real_shift);
            assert(scaled_exact(d.digits, real_shift) == exact);
            assert(scaled(d.digits, real_shift) == scaled_value);
        }
        assert(single_integer_part(scaled_value as nat, exact) == decimal_magnitude(d));
    }
    round_to_single(scaled_value, exact)
}

/// Reads a numeric field from `s`, which is taken as it stands: whitespace
/// is not skipped.
pub fn parse_numeral(s: &[char]) -> (r: Option<i32>)
    ensures
        match numeral_value(s@) {
            Some(v) => r == Some(v as i32) && i32::MIN <= v <= i32::MAX,
            None => r is None,
        },
{
    let len = s.len();
    let signed = len > 0 && (s[0] == '+' || s[0] == '-');
    let negative = len > 0 && s[0] == '-';
    let body = if signed {
        slice_subrange(s, 1, len)
    } else {
        s
    };
    assert(body@ == unsigned_part(s@));
    let short = vec!['i', 'n', 'f'];
    let long = vec!['i', 'n', 'f', 'i', 'n', 'i', 't', 'y'];
    if spells_word(body, short.as_slice()) || spells_word(body, long.as_slice()) {
        return Some(saturate(negative, 0x8000_0000));
    }
    match read_decimal(body) {
        Some(parts) => {
            let magnitude = magnitude_of(&parts, Ghost(decimal_of(body@).unwrap()));
            Some(saturate(negative, magnitude))
        },
        None => None,
    }
}

} // verus!
