//! Fractions in fixed point, and the integer arithmetic on them.
//!
//! A fraction is an integer count of `1 / UNIT`. Products round towards
//! zero.

use vstd::prelude::*;

verus! {

/// The fraction one.
pub const UNIT: i64 = 65536;

/// Largest magnitude that [`scale`] takes as a value.
pub const SCALE_LIMIT: i64 = 0x100_0000_0000;

/// `a / b` rounded towards zero, for a positive `b`.
pub open spec fn quot(a: int, b: int) -> int
    recommends
        b > 0,
{
    if a >= 0 {
        a / b
    } else {
        -((-a) / b)
    }
}

/// `value` times the fraction `ratio`, rounded towards zero.
pub open spec fn scaled(value: int, ratio: int) -> int {
    quot(value * ratio, UNIT as int)
}

/// `a / b` rounded towards zero, for any `b` but zero.
pub open spec fn div_trunc(a: int, b: int) -> int
    recommends
        b != 0,
{
    if b > 0 {
        quot(a, b)
    } else {
        quot(-a, -b)
    }
}

/// `value` held between `low` and `high`.
pub open spec fn clamped(value: int, low: int, high: int) -> int {
    if value < low {
        low
    } else if value > high {
        high
    } else {
        value
    }
}

/// A product with a fraction between zero and one is no farther from zero
/// than the value, and on the same side.
pub proof fn lemma_scaled_bounds(value: int, ratio: int)
    requires
        0 <= ratio <= UNIT,
    ensures
        value >= 0 ==> 0 <= scaled(value, ratio) <= value,
        value <= 0 ==> value <= scaled(value, ratio) <= 0,
        scaled(value, UNIT as int) == value,
        scaled(value, 0) == 0,
{
    if value >= 0 {
        assert(0 <= value * ratio <= value * UNIT) by (nonlinear_arith)
            requires
                value >= 0,
                0 <= ratio <= UNIT,
        ;
        assert((value * ratio) / (UNIT as int) <= value) by (nonlinear_arith)
            requires
                0 <= value * ratio <= value * UNIT,
        ;
        assert((value * ratio) / (UNIT as int) >= 0) by (nonlinear_arith)
            requires
                0 <= value * ratio,
        ;
        assert((value * UNIT) / (UNIT as int) == value) by (nonlinear_arith);
    } else {
        let m = -value;
        assert(0 <= m * ratio <= m * UNIT) by (nonlinear_arith)
            requires
                m >= 0,
                0 <= ratio <= UNIT,
        ;
        assert(-(value * ratio) == m * ratio) by (nonlinear_arith)
            requires
                m == -value,
        ;
        assert((m * ratio) / (UNIT as int) <= m) by (nonlinear_arith)
            requires
                0 <= m * ratio <= m * UNIT,
        ;
        assert((m * ratio) / (UNIT as int) >= 0) by (nonlinear_arith)
            requires
                0 <= m * ratio,
        ;
        assert((m * UNIT) / (UNIT as int) == m) by (nonlinear_arith);
        assert(-(value * UNIT) == m * UNIT) by (nonlinear_arith)
            requires
                m == -value,
        ;
        if value * ratio >= 0 {
            assert(m * ratio == 0);
        }
    }
}

/// `value` times the fraction `ratio`, rounded towards zero.
pub fn scale(value: i64, ratio: i64) -> (product: i64)
    requires
        -SCALE_LIMIT <= value <= SCALE_LIMIT,
        0 <= ratio <= UNIT,
    ensures
        product == scaled(value as int, ratio as int),
        value >= 0 ==> 0 <= product <= value,
        value <= 0 ==> value <= product <= 0,
{
    proof {
        lemma_scaled_bounds(value as int, ratio as int);
    }
    if value >= 0 {
        assert(0 <= value * ratio <= SCALE_LIMIT * UNIT) by (nonlinear_arith)
            requires
                0 <= value <= SCALE_LIMIT,
                0 <= ratio <= UNIT,
        ;
        value * ratio / UNIT
    } else {
        let m: i64 = -value;
        assert(0 <= m * ratio <= SCALE_LIMIT * UNIT) by (nonlinear_arith)
            requires
                0 <= m <= SCALE_LIMIT,
                0 <= ratio <= UNIT,
        ;
        assert(-(value * ratio) == m * ratio) by (nonlinear_arith)
            requires
                m == -value,
        ;
        -(m * ratio / UNIT)
    }
}

/// `value` held between `low` and `high`.
pub fn clamp(value: i64, low: i64, high: i64) -> (held: i64)
    requires
        low <= high,
    ensures
        held == clamped(value as int, low as int, high as int),
        low <= held <= high,
{
    if value < low {
        low
    } else if value > high {
        high
    } else {
        value
    }
}

} // verus!
