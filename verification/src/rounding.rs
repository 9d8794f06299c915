//! Rounding a decimal magnitude to single precision and taking its integer
//! part, in integer arithmetic throughout.
//!
//! A magnitude `x` arrives as `floor(x * 10^25)` together with a flag that
//! says whether `x * 10^25` is a whole number. Twenty-five decimal places
//! hold every binary fraction of twenty-five places exactly, which is one
//! place more than single precision keeps for any `x` of one half or more.

use vstd::prelude::*;
use vstd::arithmetic::div_mod::lemma_fundamental_div_mod;
use vstd::arithmetic::div_mod::lemma_fundamental_div_mod_converse;

verus! {

/// `10^25`: the scale at which a magnitude arrives.
pub const DECIMAL_UNIT: u128 = 10_000_000_000_000_000_000_000_000;

/// `5^25`, which is `10^25 / 2^25`.
pub const BINARY_STEP: u128 = 298_023_223_876_953_125;

/// `2^25`: the scale of the binary fixed-point form.
pub const BINARY_UNIT: u128 = 0x200_0000;

/// `2^24`: a significand of single precision is below it.
pub const SIGNIFICAND_END: u128 = 0x100_0000;

/// `2^31`: the magnitude at which the result saturates.
pub const MAGNITUDE_CAP: u128 = 0x8000_0000;

/// `2^31 * 10^25`: the scaled magnitude from which the result saturates.
pub const SCALED_CAP: u128 = 21_474_836_480_000_000_000_000_000_000_000_000;

/// The weight of the last of the twenty-four significant bits of `b`: the
/// power of two `u` with `2^23 * u <= b < 2^24 * u`, and 1 for a `b` below
/// `2^24`.
pub open spec fn last_place(b: nat) -> nat
    decreases b,
{
    if b < SIGNIFICAND_END {
        1
    } else {
        2 * last_place(b / 2)
    }
}

/// `b` rounded to twenty-four significant bits, to the nearest and, half way
/// between two, to the one whose last kept bit is 0. `sticky` says that the
/// number that `b` stands for has a part below the last bit of `b`.
pub open spec fn rounded_to_significand(b: nat, sticky: bool) -> nat {
    let unit = last_place(b);
    let kept = b / unit;
    let rest = b % unit;
    if 2 * rest > unit || (2 * rest == unit && (sticky || kept % 2 == 1)) {
        (kept + 1) * unit
    } else {
        kept * unit
    }
}

/// The integer part of the single-precision number nearest to the magnitude
/// `x`, where `scaled` is `floor(x * 10^25)` and `exact` says whether
/// `x * 10^25` is whole. From `x = 2^31` on the result is `2^31`.
pub open spec fn single_integer_part(scaled: nat, exact: bool) -> nat {
    if scaled >= SCALED_CAP {
        MAGNITUDE_CAP as nat
    } else {
        let b = scaled / (BINARY_STEP as nat);
        let sticky = scaled % (BINARY_STEP as nat) != 0 || !exact;
        if b < SIGNIFICAND_END {
            0
        } else {
            rounded_to_significand(b, sticky) / (BINARY_UNIT as nat)
        }
    }
}

/// `last_place(b)` keeps between twenty-three and twenty-four bits above it.
pub proof fn lemma_last_place_brackets(b: nat)
    ensures
        last_place(b) >= 1,
        b >= SIGNIFICAND_END ==> last_place(b) * 0x80_0000 <= b < last_place(b) * 0x100_0000,
    decreases b,
{
    if b >= SIGNIFICAND_END {
        lemma_last_place_brackets(b / 2);
    }
}

/// Rounding gives a number of twenty-four significant bits, and one of the
/// two nearest: a multiple of the last place, at most `2^24` of them, and at
/// most half a last place away.
pub proof fn lemma_rounded_is_nearest(b: nat, sticky: bool)
    ensures
        rounded_to_significand(b, sticky) % last_place(b) == 0,
        rounded_to_significand(b, sticky) <= SIGNIFICAND_END * last_place(b),
        2 * (rounded_to_significand(b, sticky) - b) <= last_place(b),
        2 * (b - rounded_to_significand(b, sticky)) <= last_place(b),
{
    let unit = last_place(b);
    let kept = b / unit;
    let rest = b % unit;
    lemma_last_place_brackets(b);
    lemma_fundamental_div_mod(b as int, unit as int);
    assert(kept * unit == b - rest) by (nonlinear_arith)
        requires
            b == unit * kept + rest,
    ;
    assert((kept + 1) * unit == b - rest + unit) by (nonlinear_arith)
        requires
            b == unit * kept + rest,
    ;
    lemma_fundamental_div_mod_converse((kept * unit) as int, unit as int, kept as int, 0);
    lemma_fundamental_div_mod_converse(((kept + 1) * unit) as int, unit as int, (kept + 1) as int, 0);
    assert(kept < SIGNIFICAND_END) by (nonlinear_arith)
        requires
            kept * unit <= b,
            b < unit * 0x100_0000 || (b < 0x100_0000 && unit == 1),
            unit >= 1,
    ;
    assert((kept + 1) * unit <= SIGNIFICAND_END * unit) by (nonlinear_arith)
        requires
            kept + 1 <= SIGNIFICAND_END,
            unit >= 1,
    ;
}

/// `m` doubled `j` times.
pub open spec fn doubled(m: nat, j: nat) -> nat
    decreases j,
{
    if j == 0 {
        m
    } else {
        2 * doubled(m, (j - 1) as nat)
    }
}

/// A number of at most twenty-four bits, doubled any number of times, has
/// nothing below its last significant bit.
pub proof fn lemma_doubled_fits_significand(m: nat, j: nat)
    requires
        m < SIGNIFICAND_END,
    ensures
        doubled(m, j) % last_place(doubled(m, j)) == 0,
    decreases j,
{
    let b: nat = doubled(m, j);
    if b >= SIGNIFICAND_END {
        let half = doubled(m, (j - 1) as nat);
        let unit = last_place(half);
        lemma_doubled_fits_significand(m, (j - 1) as nat);
        lemma_last_place_brackets(half);
        lemma_fundamental_div_mod(half as int, unit as int);
        let q = half / unit;
        assert(b == q * (2 * unit)) by (nonlinear_arith)
            requires
                b == 2 * half,
                half == unit * q,
        ;
        lemma_fundamental_div_mod_converse(b as int, (2 * unit) as int, q as int, 0);
    }
}

/// A whole number of at most `2^24` is a single-precision number, and is its
/// own integer part.
pub proof fn lemma_small_whole_is_kept(n: nat)
    requires
        n <= SIGNIFICAND_END,
    ensures
        single_integer_part(n * (DECIMAL_UNIT as nat), true) == n,
{
    let scaled: nat = n * (DECIMAL_UNIT as nat);
    let b: nat = n * (BINARY_UNIT as nat);
    assert(scaled == b * BINARY_STEP + 0);
    lemma_fundamental_div_mod_converse(scaled as int, BINARY_STEP as int, b as int, 0);
    if n > 0 {
        if n < SIGNIFICAND_END {
            assert(b == doubled(n, 25)) by {
                reveal_with_fuel(doubled, 26);
            }
            lemma_doubled_fits_significand(n, 25);
        } else {
            assert(b == doubled(0x80_0000, 26)) by {
                reveal_with_fuel(doubled, 27);
            }
            lemma_doubled_fits_significand(0x80_0000, 26);
        }
        let unit = last_place(b);
        lemma_last_place_brackets(b);
        lemma_fundamental_div_mod(b as int, unit as int);
        let kept = b / unit;
        assert(kept * unit == b) by (nonlinear_arith)
            requires
                b == unit * kept + 0,
        ;
        assert(rounded_to_significand(b, false) == b);
        lemma_fundamental_div_mod_converse(b as int, BINARY_UNIT as int, n as int, 0);
    }
}

/// The weight of the last significant bit of `b`.
pub fn last_place_of(b: u64) -> (unit: u64)
    ensures
        unit == last_place(b as nat),
    decreases b,
{
    proof {
        lemma_last_place_brackets(b as nat);
    }
    if b < 0x100_0000 {
        1
    } else {
        proof {
            lemma_last_place_brackets((b / 2) as nat);
        }
        2 * last_place_of(b / 2)
    }
}

/// The integer part of the single-precision number nearest to a magnitude
/// given at scale `10^25`.
pub fn round_to_single(scaled: u128, exact: bool) -> (r: u32)
    ensures
        r == single_integer_part(scaled as nat, exact),
{
    if scaled >= SCALED_CAP {
        return 0x8000_0000;
    }
    let wide: u128 = scaled / BINARY_STEP;
    let sticky = scaled % BINARY_STEP != 0 || !exact;
    if wide < SIGNIFICAND_END {
        return 0;
    }
    assert(wide < 0x100_0000_0000_0000);
    let b: u64 = wide as u64;
    let unit = last_place_of(b);
    proof {
        lemma_last_place_brackets(b as nat);
    }
    let kept = b / unit;
    let rest = b % unit;
    proof {
        lemma_fundamental_div_mod(b as int, unit as int);
        assert(kept * unit <= b) by (nonlinear_arith)
            requires
                b == unit * kept + rest,
                rest >= 0,
        ;
        assert((kept + 1) * unit == kept * unit + unit) by (nonlinear_arith);
    }
    let up = 2 * rest > unit || (2 * rest == unit && (sticky || kept % 2 == 1));
    let rounded: u64 = if up {
        (kept + 1) * unit
    } else {
        kept * unit
    };
    let whole = rounded / 0x200_0000;
    assert(rounded == rounded_to_significand(b as nat, sticky));
    assert(rounded < 0x200_0000_0000_0000);
    whole as u32
}

} // verus!
