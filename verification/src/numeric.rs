//! Exact fixed-point arithmetic for the metric engine.
//!
//! Every quantity is a signed count of raw units, `SCALE` raw units to one.
//! All formulas are stated over unbounded integers; the executable operations
//! compute the same values in `i128` and the engine checks every produced
//! metric against `VALUE_LIMIT`, so no result is ever silently truncated.

use vstd::prelude::*;

verus! {

/// Raw units per one: values carry nine decimal digits.
pub const SCALE: i64 = 1_000_000_000;

/// Largest raw magnitude a stored value may have (one hundred million units).
pub const VALUE_LIMIT: i64 = 100_000_000_000_000_000;

/// Operand band within which `div_round_exec` is free of overflow.
pub const DIV_BOUND: i128 = 10_000_000_000_000_000_000_000_000_000_000_000_000;

/// Band for values fed to `round_decimals`.
pub const ROUND_BOUND: i128 = 10_000_000_000_000_000_000_000_000_000;

/// A raw value lies within the representable band.
pub open spec fn in_limit(x: int) -> bool {
    -VALUE_LIMIT <= x <= VALUE_LIMIT
}

/// Integer division rounded to the nearest integer, ties away from zero.
pub open spec fn div_round(n: int, d: int) -> int {
    let nn = if d < 0 {
        -n
    } else {
        n
    };
    let dd = if d < 0 {
        -d
    } else {
        d
    };
    if nn >= 0 {
        (nn + dd / 2) / dd
    } else {
        -((-nn + dd / 2) / dd)
    }
}

/// Core magnitude bound: rounding a nonnegative quotient never exceeds the
/// numerator.
proof fn lemma_div_round_core(nn: int, dd: int)
    requires
        nn >= 0,
        dd >= 1,
    ensures
        0 <= (nn + dd / 2) / dd <= nn,
{
    let a = nn + dd / 2;
    let q = a / dd;
    let r = a % dd;
    let h = dd / 2;
    vstd::arithmetic::div_mod::lemma_div_pos_is_pos(a, dd);
    vstd::arithmetic::div_mod::lemma_fundamental_div_mod(a, dd);
    vstd::arithmetic::div_mod::lemma_fundamental_div_mod(dd, 2);
    assert(2 * h <= dd);
    if q > nn {
        assert(false) by (nonlinear_arith)
            requires
                nn >= 0,
                dd >= 1,
                q > nn,
                a == dd * q + r,
                0 <= r,
                a == nn + h,
                2 * h <= dd,
        {}
    }
}

/// The rounded quotient never has a larger magnitude than the numerator.
pub proof fn lemma_div_round_magnitude(n: int, d: int)
    requires
        d != 0,
    ensures
        -vstd::math::abs(n) <= div_round(n, d) <= vstd::math::abs(n),
{
    let nn = if d < 0 {
        -n
    } else {
        n
    };
    let dd = if d < 0 {
        -d
    } else {
        d
    };
    if nn >= 0 {
        lemma_div_round_core(nn, dd);
    } else {
        lemma_div_round_core(-nn, dd);
    }
}

/// Executable nearest-integer division, ties away from zero.
pub fn div_round_exec(n: i128, d: i128) -> (r: i128)
    requires
        d != 0,
        -DIV_BOUND <= n <= DIV_BOUND,
        -DIV_BOUND <= d <= DIV_BOUND,
    ensures
        r == div_round(n as int, d as int),
        -DIV_BOUND <= r <= DIV_BOUND,
{
    proof {
        lemma_div_round_magnitude(n as int, d as int);
    }
    let nn: i128 = if d < 0 {
        -n
    } else {
        n
    };
    let dd: i128 = if d < 0 {
        -d
    } else {
        d
    };
    if nn >= 0 {
        (nn + dd / 2) / dd
    } else {
        -((-nn + dd / 2) / dd)
    }
}

/// Ten to the `k`-th power.
pub open spec fn pow10(k: nat) -> int
    decreases k,
{
    if k == 0 {
        1
    } else {
        10 * pow10((k - 1) as nat)
    }
}

/// Executable power of ten for the decimal scales of rounding.
pub fn pow10_exec(k: u32) -> (r: i64)
    requires
        k <= 9,
    ensures
        r == pow10(k as nat),
        1 <= r <= 1_000_000_000,
{
    proof {
        reveal_with_fuel(pow10, 11);
    }
    if k == 0 {
        1
    } else if k == 1 {
        10
    } else if k == 2 {
        100
    } else if k == 3 {
        1_000
    } else if k == 4 {
        10_000
    } else if k == 5 {
        100_000
    } else if k == 6 {
        1_000_000
    } else if k == 7 {
        10_000_000
    } else if k == 8 {
        100_000_000
    } else {
        1_000_000_000
    }
}

/// A raw value rounded to `digits` decimal digits, half away from zero.
/// With nine or more digits the raw resolution is already reached and the
/// value is returned unchanged.
pub open spec fn spec_round_decimals(x: int, digits: u32) -> int {
    if digits >= 9 {
        x
    } else {
        div_round(x, pow10((9 - digits) as nat)) * pow10((9 - digits) as nat)
    }
}

/// Executable decimal rounding of a raw value.
pub fn round_decimals(x: i128, digits: u32) -> (r: i128)
    requires
        -ROUND_BOUND <= x <= ROUND_BOUND,
    ensures
        r == spec_round_decimals(x as int, digits),
{
    if digits >= 9 {
        x
    } else {
        let p: i64 = pow10_exec(9 - digits);
        let q: i128 = div_round_exec(x, p as i128);
        proof {
            lemma_div_round_magnitude(x as int, p as int);
            assert(-ROUND_BOUND <= q <= ROUND_BOUND);
            assert(-(ROUND_BOUND * 1_000_000_000) <= q * (p as int) <= ROUND_BOUND
                * 1_000_000_000) by (nonlinear_arith)
                requires
                    -ROUND_BOUND <= q <= ROUND_BOUND,
                    1 <= p as int <= 1_000_000_000,
            {}
        }
        q * (p as i128)
    }
}

/// Clamping a value into a closed interval.
pub open spec fn spec_clamp(b: int, min: int, max: int) -> int {
    if b < min {
        min
    } else if b > max {
        max
    } else {
        b
    }
}

/// Executable clamp.
pub fn clamp(b: i64, min: i64, max: i64) -> (r: i64)
    ensures
        r == spec_clamp(b as int, min as int, max as int),
{
    if b < min {
        min
    } else if b > max {
        max
    } else {
        b
    }
}

} // verus!
