//! Decimal numerals: a run of digits with a power of ten, and the whole part
//! of its value at a given scale.

use vstd::prelude::*;
use vstd::arithmetic::div_mod::lemma_fundamental_div_mod;
use vstd::arithmetic::div_mod::lemma_fundamental_div_mod_converse;
use vstd::arithmetic::div_mod::lemma_small_mod;
use vstd::arithmetic::div_mod::lemma_basic_div;
use crate::number::digit_of;
use crate::number::digit_value;
use crate::number::digits_value;
use crate::number::lemma_digits_value_step;
use crate::rounding::SCALED_CAP;

verus! {

/// `10^n`.
pub open spec fn pow10(n: nat) -> nat
    decreases n,
{
    if n == 0 {
        1
    } else {
        10 * pow10((n - 1) as nat)
    }
}

/// `floor(v * 10^shift)`, where `v` is the number that `digits` write.
pub open spec fn scaled(digits: Seq<char>, shift: int) -> nat {
    if shift >= 0 {
        digits_value(digits) * pow10(shift as nat)
    } else {
        digits_value(digits) / pow10((-shift) as nat)
    }
}

/// Whether `v * 10^shift` is a whole number, where `v` is the number that
/// `digits` write.
pub open spec fn scaled_exact(digits: Seq<char>, shift: int) -> bool {
    shift >= 0 || digits_value(digits) % pow10((-shift) as nat) == 0
}

/// `n` limited to `cap`.
pub open spec fn at_most(n: nat, cap: nat) -> nat {
    if n < cap {
        n
    } else {
        cap
    }
}

/// Powers of ten are positive and grow with the exponent.
pub proof fn lemma_pow10_grows(a: nat, b: nat)
    requires
        a <= b,
    ensures
        1 <= pow10(a) <= pow10(b),
    decreases b,
{
    if b > 0 {
        if a < b {
            lemma_pow10_grows(a, (b - 1) as nat);
        } else {
            lemma_pow10_grows((a - 1) as nat, (b - 1) as nat);
        }
    }
}

/// Powers of ten multiply as their exponents add.
pub proof fn lemma_pow10_adds(a: nat, b: nat)
    ensures
        pow10(a + b) == pow10(a) * pow10(b),
    decreases a,
{
    if a > 0 {
        lemma_pow10_adds((a - 1) as nat, b);
        let p = pow10((a - 1) as nat);
        let q = pow10(b);
        assert(pow10(a + b) == 10 * pow10((a - 1 + b) as nat));
        assert(10 * (p * q) == (10 * p) * q) by (nonlinear_arith);
    } else {
        assert(1 * pow10(b) == pow10(b));
    }
}

/// A numeral whose value is whole, moved `places` further to the left, is
/// that value times `10^places`, and whole.
pub proof fn lemma_scaled_whole(digits: Seq<char>, shift: int, places: nat)
    requires
        scaled_exact(digits, shift),
    ensures
        scaled(digits, shift + places) == scaled(digits, shift) * pow10(places),
        scaled_exact(digits, shift + places),
{
    let v = digits_value(digits);
    let n = scaled(digits, shift);
    let f = pow10(places);
    if shift >= 0 {
        lemma_pow10_adds(shift as nat, places);
        let p = pow10(shift as nat);
        assert(v * (p * f) == (v * p) * f) by (nonlinear_arith);
    } else {
        let k = (-shift) as nat;
        let d = pow10(k);
        lemma_pow10_grows(0, k);
        lemma_fundamental_div_mod(v as int, d as int);
        assert(v == d * n);
        if places >= k {
            let rest = (places - k) as nat;
            lemma_pow10_adds(k, rest);
            let r = pow10(rest);
            assert((d * n) * r == n * (d * r)) by (nonlinear_arith);
        } else {
            let rest = (k - places) as nat;
            lemma_pow10_adds(places, rest);
            let r = pow10(rest);
            lemma_pow10_grows(0, rest);
            assert(v == (n * f) * r + 0) by (nonlinear_arith)
                requires
                    v == d * n,
                    d == f * r,
            ;
            lemma_fundamental_div_mod_converse(v as int, r as int, (n * f) as int, 0);
        }
    }
}

/// `n` digits write a number below `10^n`.
pub proof fn lemma_digits_value_bound(s: Seq<char>)
    ensures
        digits_value(s) < pow10(s.len()),
    decreases s.len(),
{
    if s.len() > 0 {
        lemma_digits_value_bound(s.drop_last());
    }
}

/// The digits write 0 exactly when each of them stands for 0.
pub proof fn lemma_digits_value_zero(s: Seq<char>)
    ensures
        digits_value(s) == 0 <==> forall|i: int| 0 <= i < s.len() ==> digit_value(#[trigger] s[i]) == 0,
    decreases s.len(),
{
    if s.len() > 0 {
        let front = s.drop_last();
        lemma_digits_value_zero(front);
        if digits_value(s) == 0 {
            assert forall|i: int| 0 <= i < s.len() implies digit_value(#[trigger] s[i]) == 0 by {
                if i < s.len() - 1 {
                    assert(s[i] == front[i]);
                }
            }
        } else if digits_value(front) != 0 {
            let i = choose|i: int| 0 <= i < front.len() && digit_value(#[trigger] front[i]) != 0;
            assert(s[i] == front[i]);
        } else {
            assert(digit_value(s[s.len() - 1]) != 0);
        }
    }
}

/// Digits split at `k` write the number of the front part, moved left past
/// the back part, plus the number of the back part.
pub proof fn lemma_digits_value_split(s: Seq<char>, k: int)
    requires
        0 <= k <= s.len(),
    ensures
        digits_value(s) == digits_value(s.take(k)) * pow10((s.len() - k) as nat) + digits_value(
            s.skip(k),
        ),
    decreases s.len(),
{
    if k == s.len() {
        assert(s.take(k) == s);
        assert(s.skip(k).len() == 0);
        assert(pow10((s.len() - k) as nat) == 1);
        assert(digits_value(s) * 1 == digits_value(s));
    } else {
        let front = s.drop_last();
        lemma_digits_value_split(front, k);
        assert(front.take(k) == s.take(k));
        assert(front.skip(k) == s.skip(k).drop_last());
        assert(s.skip(k).last() == s.last());
        let a = digits_value(s.take(k));
        let b = digits_value(front.skip(k));
        let p = pow10((s.len() - 1 - k) as nat);
        assert(digits_value(front) == a * p + b);
        assert(digits_value(s.skip(k)) == b * 10 + digit_value(s.last()));
        assert(pow10((s.len() - k) as nat) == 10 * p);
        assert((a * p) * 10 == a * (10 * p)) by (nonlinear_arith);
        assert(digits_value(s) == a * (10 * p) + digits_value(s.skip(k)));
    }
}

/// What `scaled` and `scaled_exact` come to when the shift is negative:
/// with `p` digits left of the point, the first `p` digits give the whole
/// part and the others decide whether anything is left over.
pub proof fn lemma_scaled_by_digits(digits: Seq<char>, shift: int)
    requires
        shift < 0,
    ensures
        digits.len() + shift <= 0 ==> scaled(digits, shift) == 0 && (scaled_exact(digits, shift)
            <==> digits_value(digits) == 0),
        digits.len() + shift > 0 ==> scaled(digits, shift) == digits_value(
            digits.take(digits.len() + shift),
        ) && (scaled_exact(digits, shift) <==> digits_value(digits.skip(digits.len() + shift))
            == 0),
{
    let v = digits_value(digits);
    let d = pow10((-shift) as nat);
    lemma_pow10_grows(0, (-shift) as nat);
    if digits.len() + shift <= 0 {
        lemma_digits_value_bound(digits);
        lemma_pow10_grows(digits.len(), (-shift) as nat);
        lemma_basic_div(v as int, d as int);
        lemma_small_mod(v, d);
    } else {
        let p = digits.len() + shift;
        lemma_digits_value_split(digits, p);
        lemma_digits_value_bound(digits.skip(p));
        assert(digits.skip(p).len() == -shift);
        let q = digits_value(digits.take(p));
        let r = digits_value(digits.skip(p));
        assert(v == q * d + r);
        lemma_fundamental_div_mod_converse(v as int, d as int, q as int, r as int);
    }
}

/// What `scaled` comes to when the shift is large: a number other than 0
/// reaches any bound below `10^shift`.
pub proof fn lemma_scaled_far_left(digits: Seq<char>, shift: int, reach: nat)
    requires
        shift >= reach,
    ensures
        digits_value(digits) == 0 ==> scaled(digits, shift) == 0,
        digits_value(digits) != 0 ==> scaled(digits, shift) >= pow10(reach),
{
    let v = digits_value(digits);
    let p = pow10(shift as nat);
    lemma_pow10_grows(reach, shift as nat);
    if v == 0 {
        assert(v * p == 0) by (nonlinear_arith)
            requires
                v == 0,
        ;
    } else {
        assert(v * p >= p) by (nonlinear_arith)
            requires
                v >= 1,
                p >= 0,
        ;
    }
}

/// `floor(v * 10^shift)`, limited to the bound from which rounding
/// saturates, and whether `v * 10^shift` is whole; `v` is the number that
/// `digits` write, a character that is no digit counting as 0.
pub fn scaled_floor(digits: &[char], shift: i128) -> (r: (u128, bool))
    ensures
        r.0 == at_most(scaled(digits@, shift as int), SCALED_CAP as nat),
        r.1 == scaled_exact(digits@, shift as int),
{
    let len = digits.len();
    let kept: usize = if shift >= 0 {
        len
    } else if shift <= -(len as i128) {
        0
    } else {
        (len as i128 + shift) as usize
    };
    let mut acc: u128 = 0;
    let mut i: usize = 0;
    while i < kept
        invariant
            i <= kept <= len == digits@.len(),
            acc == at_most(digits_value(digits@.take(i as int)), SCALED_CAP as nat),
        decreases kept - i,
    {
        let d: u128 = match digit_of(digits[i]) {
            Some(d) => d as u128,
            None => 0,
        };
        proof {
            lemma_digits_value_step(digits@, i as int);
        }
        if acc < SCALED_CAP {
            acc = acc * 10 + d;
            if acc > SCALED_CAP {
                acc = SCALED_CAP;
            }
        }
        i += 1;
    }
    let mut rest_is_zero = true;
    while i < len
        invariant
            kept <= i <= len == digits@.len(),
            rest_is_zero <==> forall|j: int| kept <= j < i ==> digit_value(#[trigger] digits@[j]) == 0,
        decreases len - i,
    {
        if let Some(d) = digit_of(digits[i]) {
            if d != 0 {
                rest_is_zero = false;
            }
        }
        i += 1;
    }
    proof {
        let rest = digits@.skip(kept as int);
        lemma_digits_value_zero(rest);
        if rest_is_zero {
            assert forall|j: int| 0 <= j < rest.len() implies digit_value(#[trigger] rest[j])
                == 0 by {
                assert(rest[j] == digits@[kept + j]);
            }
        } else {
            let j = choose|j: int| kept <= j < len && digit_value(#[trigger] digits@[j]) != 0;
            assert(rest[j - kept] == digits@[j]);
        }
        assert(rest_is_zero <==> digits_value(rest) == 0);
    }
    if shift < 0 {
        proof {
            lemma_scaled_by_digits(digits@, shift as int);
            if kept == 0 {
                assert(digits@.skip(0) == digits@);
            }
        }
        return (acc, rest_is_zero);
    }
    assert(digits@.take(len as int) == digits@);
    let ghost value = digits_value(digits@);
    assert(value * pow10(0) == value) by (nonlinear_arith)
        requires
            pow10(0) == 1,
    ;
    let mut moved: i128 = 0;
    while moved < shift && 0 < acc && acc < SCALED_CAP
        invariant
            0 <= moved <= shift,
            value == digits_value(digits@),
            acc == at_most(value * pow10(moved as nat), SCALED_CAP as nat),
        decreases shift - moved,
    {
        proof {
            let p = pow10(moved as nat);
            assert((value * p) * 10 == value * (10 * p)) by (nonlinear_arith);
        }
        acc = acc * 10;
        if acc > SCALED_CAP {
            acc = SCALED_CAP;
        }
        moved += 1;
    }
    proof {
        let p = pow10(moved as nat);
        let q = pow10(shift as nat);
        lemma_pow10_grows(moved as nat, shift as nat);
        if moved < shift {
            if acc == 0 {
                assert(value == 0) by (nonlinear_arith)
                    requires
                        value * p == 0,
                        p >= 1,
                        value >= 0,
                ;
                assert(value * q == 0) by (nonlinear_arith)
                    requires
                        value == 0,
                ;
            } else {
                assert(value * q >= value * p) by (nonlinear_arith)
                    requires
                        q >= p,
                        value >= 0,
                ;
            }
        }
    }
    (acc, true)
}

} // verus!
