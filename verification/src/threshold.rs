//! The similarity that a name must reach to be suggested.
//!
//! The threshold is that of double precision arithmetic, computed here in integers: a number
//! is a multiple of 2 to the power of -54, and each operation rounds to 53 significant bits.

use vstd::arithmetic::div_mod::lemma_fundamental_div_mod_converse;
use vstd::arithmetic::power2::{
    lemma2_to64, lemma2_to64_rest, lemma_pow2_strictly_increases, lemma_pow2_unfold, pow2,
};
use vstd::prelude::*;

verus! {

/// One, in units of 2 to the power of -54.
pub const ONE: u128 = 0x40_0000_0000_0000;

/// The double nearest to 0.4, in units of 2 to the power of -54.
pub const FOUR_TENTHS: u128 = 0x19_9999_9999_999A;

/// The smallest number that takes more than 53 bits.
pub const PRECISION: u128 = 0x20_0000_0000_0000;

/// The place value of the last of the 53 significant bits of an integer.
pub open spec fn grain(value: nat) -> nat
    decreases value,
{
    if value < PRECISION {
        1
    } else {
        2 * grain(value / 2)
    }
}

/// A quotient rounded to 53 significant bits, to the nearest such integer; of two that are
/// equally near, the one with an even last bit.
pub open spec fn nearest(dividend: nat, divisor: nat) -> nat {
    let unit = grain(dividend / divisor);
    let step = divisor * unit;
    let count = dividend / step;
    let rest = dividend % step;
    if 2 * rest < step || (2 * rest == step && count % 2 == 0) {
        count * unit
    } else {
        (count + 1) * unit
    }
}

/// `1.0 - (length * 0.4 + 1.0) / (length + 1.0)`, or zero where that is negative.
pub open spec fn base_threshold(length: nat) -> nat {
    let rounded = nearest(length, 1);
    let scaled = nearest(rounded * FOUR_TENTHS as nat, 1);
    let above = nearest(scaled + ONE as nat, 1);
    let below = nearest((rounded + 1) * ONE as nat, 1);
    let ratio = nearest(above * ONE as nat, below);
    if ratio >= ONE {
        0
    } else {
        nearest((ONE - ratio) as nat, 1)
    }
}

/// The base threshold, but at least 0.4.
pub open spec fn threshold_units(length: nat) -> nat {
    if base_threshold(length) < FOUR_TENTHS {
        FOUR_TENTHS as nat
    } else {
        base_threshold(length)
    }
}

/// The bits of the double that is a number between a quarter and one.
pub open spec fn double_bits(units: nat) -> nat {
    if units >= ONE {
        0x3FF0_0000_0000_0000
    } else if units >= PRECISION {
        (0x3FE0_0000_0000_0000 + (units / 2 - 0x10_0000_0000_0000)) as nat
    } else {
        (0x3FD0_0000_0000_0000 + (units - 0x10_0000_0000_0000)) as nat
    }
}

/// A number of more than 53 bits is large against the place value of its last significant bit.
proof fn lemma_grain(value: nat)
    ensures
        grain(value) >= 1,
        value < PRECISION ==> grain(value) == 1,
        value >= PRECISION ==> grain(value) * 0x10_0000_0000_0000 <= value,
    decreases value,
{
    if value >= PRECISION {
        lemma_grain(value / 2);
    }
}

/// A quotient and a remainder, regrouped by the place value of the last significant bit.
proof fn lemma_regroup(dividend: nat, divisor: nat, quotient: nat, rest: nat)
    requires
        divisor > 0,
        dividend == quotient * divisor + rest,
        rest < divisor,
    ensures
        dividend / divisor == quotient,
        ({
            let unit = grain(quotient);
            &&& dividend / (divisor * unit) == quotient / unit
            &&& dividend % (divisor * unit) == (quotient % unit) * divisor + rest
        }),
{
    lemma_grain(quotient);
    let unit = grain(quotient);
    lemma_fundamental_div_mod_converse(
        dividend as int,
        divisor as int,
        quotient as int,
        rest as int,
    );
    let count = quotient / unit;
    let left = quotient % unit;
    let step = divisor * unit;
    assert(quotient == count * unit + left && left < unit) by (nonlinear_arith)
        requires
            unit >= 1,
            count == quotient / unit,
            left == quotient % unit,
    ;
    assert(dividend == count * step + (left * divisor + rest)) by (nonlinear_arith)
        requires
            dividend == quotient * divisor + rest,
            quotient == count * unit + left,
            step == divisor * unit,
    ;
    assert(left * divisor + rest < step) by (nonlinear_arith)
        requires
            left < unit,
            rest < divisor,
            step == divisor * unit,
    ;
    lemma_fundamental_div_mod_converse(
        dividend as int,
        step as int,
        count as int,
        (left * divisor + rest) as int,
    );
}

/// Rounding to 53 bits changes an integer by no more than an eighth.
proof fn lemma_rounding_error(value: nat)
    ensures
        7 * value <= 8 * nearest(value, 1) <= 9 * value,
        value < PRECISION ==> nearest(value, 1) == value,
{
    lemma_grain(value);
    let unit = grain(value);
    assert(value / 1 == value);
    assert(1 * unit == unit);
    let count = value / unit;
    let rest = value % unit;
    assert(value == count * unit + rest && rest < unit) by (nonlinear_arith)
        requires
            unit >= 1,
            count == value / unit,
            rest == value % unit,
    ;
    assert((count + 1) * unit == count * unit + unit) by (nonlinear_arith);
}

/// Rounds an integer to 53 significant bits.
fn round_integer(value: u128) -> (rounded: u128)
    requires
        value < 0x4000_0000_0000_0000_0000_0000_0000_0000,
    ensures
        rounded == nearest(value as nat, 1),
        7 * value <= 8 * rounded <= 9 * value,
{
    let mut unit: u128 = 1;
    let mut rest: u128 = value;
    while rest >= PRECISION
        invariant
            unit >= 1,
            unit == 1 || rest >= 1,
            unit * rest <= value,
            grain(value as nat) == unit * grain(rest as nat),
            value < 0x4000_0000_0000_0000_0000_0000_0000_0000,
        decreases rest,
    {
        assert(unit <= unit * rest) by (nonlinear_arith)
            requires
                rest >= 1,
                unit >= 1,
        ;
        assert((2 * unit) * (rest / 2) <= unit * rest) by (nonlinear_arith)
            requires
                unit >= 1,
                rest >= 1,
        ;
        assert(unit * (2 * grain((rest / 2) as nat)) == (2 * unit) * grain((rest / 2) as nat))
            by (nonlinear_arith);
        unit = unit * 2;
        rest = rest / 2;
    }
    proof {
        assert(grain(rest as nat) == 1);
        assert(unit == grain(value as nat));
        assert(unit == 1 || unit <= unit * rest) by (nonlinear_arith)
            requires
                unit == 1 || rest >= 1,
        ;
        lemma_rounding_error(value as nat);
        lemma_grain(value as nat);
        assert((value as nat) / 1 == value);
        assert(1 * unit == unit);
    }
    let count = value / unit;
    let left = value % unit;
    proof {
        assert(count * unit + left == value && left < unit) by (nonlinear_arith)
            requires
                unit >= 1,
                count == value / unit,
                left == value % unit,
        ;
        assert((count + 1) * unit == count * unit + unit) by (nonlinear_arith);
        assert(count <= count * unit) by (nonlinear_arith)
            requires
                unit >= 1,
        ;
    }
    if 2 * left < unit || (2 * left == unit && count % 2 == 0) {
        count * unit
    } else {
        (count + 1) * unit
    }
}

/// Divides two numbers and rounds the quotient to 53 significant bits.
fn divide(above: u128, below: u128) -> (ratio: u128)
    requires
        0 < below < 0x0200_0000_0000_0000_0000_0000_0000_0000,
        above < 2 * below,
    ensures
        ratio == nearest((above * ONE) as nat, below as nat),
{
    let mut quotient: u128 = above / below;
    let mut rest: u128 = above % below;
    assert(quotient * below + rest == above) by (nonlinear_arith)
        requires
            below > 0,
            quotient == above / below,
            rest == above % below,
    ;
    assert(quotient <= 1) by (nonlinear_arith)
        requires
            below > 0,
            above < 2 * below,
            quotient == above / below,
    ;
    proof {
        lemma2_to64();
        lemma2_to64_rest();
    }
    let mut power: u128 = 1;
    let mut i: u32 = 0;
    while i < 54
        invariant
            i <= 54,
            power == pow2(i as nat),
            pow2(54) == ONE,
            0 < below < 0x0200_0000_0000_0000_0000_0000_0000_0000,
            rest < below,
            above * power == quotient * below + rest,
            power <= ONE,
            quotient < 2 * power,
        decreases 54 - i,
    {
        proof {
            lemma_pow2_unfold((i + 1) as nat);
            if i < 53 {
                lemma_pow2_strictly_increases((i + 1) as nat, 54);
            }
            assert(above * (2 * power) == (2 * quotient) * below + 2 * rest) by (nonlinear_arith)
                requires
                    above * power == quotient * below + rest,
            ;
            assert((2 * quotient + 1) * below == (2 * quotient) * below + below)
                by (nonlinear_arith);
        }
        power = power * 2;
        quotient = quotient * 2;
        rest = rest * 2;
        if rest >= below {
            rest = rest - below;
            quotient = quotient + 1;
        }
        i += 1;
    }
    proof {
        lemma_regroup((above * ONE) as nat, below as nat, quotient as nat, rest as nat);
        reveal_with_fuel(grain, 4);
    }
    let unit: u128 = if quotient < PRECISION {
        1
    } else if quotient < ONE {
        2
    } else {
        4
    };
    assert(unit == grain(quotient as nat));
    let step = below * unit;
    let count = quotient / unit;
    let left = (quotient % unit) * below + rest;
    if 2 * left < step || (2 * left == step && count % 2 == 0) {
        count * unit
    } else {
        (count + 1) * unit
    }
}

/// Computes the threshold for a name of the given length, as the bits of a double.
pub fn similarity_threshold(length: usize) -> (bits: u64)
    ensures
        bits == double_bits(threshold_units(length as nat)),
{
    let rounded = round_integer(length as u128);
    let scaled = round_integer(rounded * FOUR_TENTHS);
    let above = round_integer(scaled + ONE);
    let below = round_integer((rounded + 1) * ONE);
    let ratio = divide(above, below);
    let base = if ratio >= ONE {
        0
    } else {
        round_integer(ONE - ratio)
    };
    let units = if base < FOUR_TENTHS {
        FOUR_TENTHS
    } else {
        base
    };
    if units >= ONE {
        0x3FF0_0000_0000_0000
    } else if units >= PRECISION {
        0x3FE0_0000_0000_0000 + ((units / 2) as u64 - 0x10_0000_0000_0000)
    } else {
        0x3FD0_0000_0000_0000 + (units as u64 - 0x10_0000_0000_0000)
    }
}

/// Rounding a quotient to 53 bits makes it smaller by no more than an eighth.
proof fn lemma_nearest_is_close(dividend: nat, divisor: nat)
    requires
        divisor > 0,
    ensures
        8 * nearest(dividend, divisor) >= 7 * (dividend / divisor),
{
    let quotient = dividend / divisor;
    let rest = dividend % divisor;
    assert(dividend == quotient * divisor + rest && rest < divisor) by (nonlinear_arith)
        requires
            divisor > 0,
            quotient == dividend / divisor,
            rest == dividend % divisor,
    ;
    lemma_regroup(dividend, divisor, quotient, rest);
    lemma_grain(quotient);
    let unit = grain(quotient);
    let count = quotient / unit;
    assert(quotient == count * unit + quotient % unit && quotient % unit < unit) by (
    nonlinear_arith)
        requires
            unit >= 1,
            count == quotient / unit,
    ;
    assert((count + 1) * unit == count * unit + unit) by (nonlinear_arith);
}

/// The threshold is at least 0.4 and less than 0.95, both as the bits of a double.
pub proof fn law_threshold_bounds(length: nat)
    ensures
        0x3FD9_9999_9999_999A <= double_bits(threshold_units(length)) < 0x3FEE_6666_6666_6666,
{
    let rounded = nearest(length, 1);
    let scaled = nearest(rounded * FOUR_TENTHS as nat, 1);
    let above = nearest(scaled + ONE as nat, 1);
    let below = nearest((rounded + 1) * ONE as nat, 1);
    let ratio = nearest(above * ONE as nat, below);
    lemma_rounding_error(rounded * FOUR_TENTHS as nat);
    lemma_rounding_error(scaled + ONE as nat);
    lemma_rounding_error((rounded + 1) * ONE as nat);
    assert(4 * above >= below);
    assert(below > 0);
    let quarter = 0x10_0000_0000_0000nat;
    assert(above * ONE as nat >= quarter * below);
    assert((above * ONE as nat) / below >= quarter) by (nonlinear_arith)
        requires
            above * ONE as nat >= quarter * below,
            below > 0,
    ;
    lemma_nearest_is_close(above * ONE as nat, below);
    if ratio < ONE {
        lemma_rounding_error((ONE - ratio) as nat);
    }
}

/// A rounded quotient is off by at most half the place value of its last significant bit, and is a
/// multiple of that; where the quotient is such a multiple, it is the quotient itself.
pub proof fn law_rounding_is_to_the_nearest(dividend: nat, divisor: nat)
    requires
        divisor > 0,
    ensures
        ({
            let unit = grain(dividend / divisor);
            let rounded = nearest(dividend, divisor);
            &&& -(divisor * unit) <= 2 * (rounded * divisor - dividend) <= divisor * unit
            &&& rounded % unit == 0
            &&& dividend % (divisor * unit) == 0 ==> rounded * divisor == dividend
        }),
{
    lemma_grain(dividend / divisor);
    let unit = grain(dividend / divisor);
    let step = divisor * unit;
    assert(step >= 1) by (nonlinear_arith)
        requires
            divisor > 0,
            unit >= 1,
            step == divisor * unit,
    ;
    let count = dividend / step;
    let rest = dividend % step;
    assert(dividend == count * step + rest && 0 <= rest < step) by (nonlinear_arith)
        requires
            step >= 1,
            count == dividend / step,
            rest == dividend % step,
    ;
    assert(count * unit * divisor == count * step) by (nonlinear_arith)
        requires
            step == divisor * unit,
    ;
    assert((count + 1) * unit * divisor == count * step + step) by (nonlinear_arith)
        requires
            step == divisor * unit,
    ;
    assert((count * unit) % unit == 0 && ((count + 1) * unit) % unit == 0) by (nonlinear_arith)
        requires
            unit >= 1,
    ;
}

} // verus!
