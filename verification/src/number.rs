//! Decimal digits and the reading of a whole number from text.

use vstd::prelude::*;
use vstd::slice::slice_subrange;

verus! {

/// Whether `c` is one of the ten ASCII digits.
pub open spec fn is_digit(c: char) -> bool {
    '0' <= c <= '9'
}

/// The number that the digit `c` stands for; 0 for any other character.
pub open spec fn digit_value(c: char) -> nat {
    if is_digit(c) {
        (c as u32 - '0' as u32) as nat
    } else {
        0
    }
}

/// Whether `s` holds digits and nothing else.
pub open spec fn all_digits(s: Seq<char>) -> bool {
    forall|i: int| 0 <= i < s.len() ==> is_digit(#[trigger] s[i])
}

/// The number that the digits `s` write in base ten, most significant first.
pub open spec fn digits_value(s: Seq<char>) -> nat
    decreases s.len(),
{
    if s.len() == 0 {
        0
    } else {
        digits_value(s.drop_last()) * 10 + digit_value(s.last())
    }
}

/// Whether `s` starts with a sign character.
pub open spec fn has_sign(s: Seq<char>) -> bool {
    s.len() > 0 && (s[0] == '+' || s[0] == '-')
}

/// Whether `s` starts with a minus sign.
pub open spec fn is_negative(s: Seq<char>) -> bool {
    s.len() > 0 && s[0] == '-'
}

/// `s` without its sign character, if it has one.
pub open spec fn unsigned_part(s: Seq<char>) -> Seq<char> {
    if has_sign(s) {
        s.drop_first()
    } else {
        s
    }
}

/// The whole number that `s` writes: an optional `+` or `-`, then one or more
/// digits and nothing else, with a value that a 32-bit signed integer holds.
/// Any other text writes none.
pub open spec fn integer_value(s: Seq<char>) -> Option<int> {
    let body = unsigned_part(s);
    let magnitude = digits_value(body) as int;
    let value = if is_negative(s) {
        -magnitude
    } else {
        magnitude
    };
    if body.len() > 0 && all_digits(body) && i32::MIN <= value <= i32::MAX {
        Some(value)
    } else {
        None
    }
}

/// Reading one more digit multiplies by ten and adds it.
pub proof fn lemma_digits_value_step(s: Seq<char>, n: int)
    requires
        0 <= n < s.len(),
    ensures
        digits_value(s.take(n + 1)) == digits_value(s.take(n)) * 10 + digit_value(s[n]),
{
    assert(s.take(n + 1).drop_last() == s.take(n));
}

/// Whether `c` is a digit, and which.
pub fn digit_of(c: char) -> (r: Option<u8>)
    ensures
        r is Some <==> is_digit(c),
        r matches Some(d) ==> d == digit_value(c) && d <= 9,
{
    if '0' <= c && c <= '9' {
        Some((c as u32 - '0' as u32) as u8)
    } else {
        None
    }
}

/// Reads a whole number from `s`, which is taken as it stands: whitespace is
/// not skipped.
pub fn parse_integer(s: &[char]) -> (r: Option<i32>)
    ensures
        r is Some <==> integer_value(s@) is Some,
        r matches Some(v) ==> integer_value(s@) == Some(v as int),
{
    let len = s.len();
    let signed = len > 0 && (s[0] == '+' || s[0] == '-');
    let negative = len > 0 && s[0] == '-';
    let body = if signed {
        slice_subrange(s, 1, len)
    } else {
        s
    };
    assert(body@ == unsigned_part(s@));
    let count = body.len();
    if count == 0 {
        return None;
    }
    let limit: i64 = 0x8000_0000;
    let mut acc: i64 = 0;
    let mut too_large = false;
    let mut i: usize = 0;
    while i < count
        invariant
            i <= count == body@.len(),
            body@ == unsigned_part(s@),
            limit == 0x8000_0000,
            forall|j: int| 0 <= j < i ==> is_digit(#[trigger] body@[j]),
            0 <= acc <= limit,
            !too_large ==> acc == digits_value(body@.take(i as int)),
            too_large ==> digits_value(body@.take(i as int)) > limit,
        decreases count - i,
    {
        let d = match digit_of(body[i]) {
            Some(d) => d,
            None => {
                assert(!is_digit(body@[i as int]));
                return None;
            },
        };
        proof {
            lemma_digits_value_step(body@, i as int);
        }
        if !too_large {
            acc = acc * 10 + d as i64;
            if acc > limit {
                too_large = true;
                acc = limit;
            }
        }
        i += 1;
    }
    assert(body@.take(count as int) == body@);
    if too_large {
        None
    } else if negative {
        Some((-acc) as i32)
    } else if acc < limit {
        Some(acc as i32)
    } else {
        None
    }
}

} // verus!
