//! Fixed-point arithmetic in micro-units: the integer 1 000 000 stands for
//! the real number 1.0. Samples, filter coefficients, chroma energies and
//! similarity scores are all held at this scale.

use vstd::prelude::*;

verus! {

/// One, in micro-units.
pub const UNIT: u64 = 1_000_000;

/// `a * b / UNIT`, truncated toward zero, for a signed value `a` and a
/// nonnegative factor `b`.
pub open spec fn spec_scale(a: int, b: int) -> int {
    if a >= 0 {
        a * b / (UNIT as int)
    } else {
        -((-a) * b / (UNIT as int))
    }
}

/// `a * b / UNIT`, truncated toward zero, for two signed values.
pub open spec fn spec_scale_signed(a: int, b: int) -> int {
    if b >= 0 {
        spec_scale(a, b)
    } else {
        spec_scale(-a, -b)
    }
}

/// `x` clamped into `[-UNIT, UNIT]`.
pub open spec fn spec_clamp_unit(x: int) -> int {
    if x < -(UNIT as int) {
        -(UNIT as int)
    } else if x > UNIT as int {
        UNIT as int
    } else {
        x
    }
}

/// Scales a signed micro-unit value by a nonnegative micro-unit factor.
pub fn scale_micro(a: i64, b: u64) -> (r: i64)
    requires
        -1_000_000_000_000 <= a <= 1_000_000_000_000,
        b <= UNIT,
    ensures
        r == spec_scale(a as int, b as int),
        -1_000_000_000_000 <= r <= 1_000_000_000_000,
{
    proof {
        lemma_scale_bound(a as int, b as int, 1_000_000_000_000);
    }
    if a >= 0 {
        proof {
            assert((a as int) * (b as int) <= 1_000_000_000_000 * (UNIT as int))
                by (nonlinear_arith)
                requires
                    0 <= a <= 1_000_000_000_000,
                    0 <= b <= UNIT,
            ;
        }
        let m: u64 = (a as u64) * b / UNIT;
        m as i64
    } else {
        let neg: i64 = -a;
        proof {
            assert((neg as int) * (b as int) <= 1_000_000_000_000 * (UNIT as int))
                by (nonlinear_arith)
                requires
                    0 <= neg <= 1_000_000_000_000,
                    0 <= b <= UNIT,
            ;
        }
        let m: u64 = (neg as u64) * b / UNIT;
        -(m as i64)
    }
}

/// Scales a signed micro-unit value by a signed micro-unit factor.
pub fn scale_micro_signed(a: i64, b: i64) -> (r: i64)
    requires
        -1_000_000_000_000 <= a <= 1_000_000_000_000,
        -1_000_000 <= b <= 1_000_000,
    ensures
        r == spec_scale_signed(a as int, b as int),
        -1_000_000_000_000 <= r <= 1_000_000_000_000,
{
    if b >= 0 {
        scale_micro(a, b as u64)
    } else {
        scale_micro(-a, (-b) as u64)
    }
}

/// Clamps a sample into the representable range `[-1.0, 1.0]`.
pub fn clamp_unit(x: i64) -> (r: i64)
    ensures
        r == spec_clamp_unit(x as int),
        -(UNIT as int) <= r <= UNIT as int,
{
    let unit_i: i64 = 1_000_000;
    if x < -unit_i {
        -unit_i
    } else if x > unit_i {
        unit_i
    } else {
        x
    }
}

/// Scaling by a factor at most `UNIT` never grows a value's magnitude
/// beyond its old bound.
pub proof fn lemma_scale_bound(a: int, b: int, bound: int)
    requires
        -bound <= a <= bound,
        0 <= b <= UNIT,
        bound >= 0,
    ensures
        -bound <= spec_scale(a, b) <= bound,
{
    if a >= 0 {
        assert(0 <= a * b / (UNIT as int) <= bound) by (nonlinear_arith)
            requires
                0 <= a <= bound,
                0 <= b <= UNIT,
                UNIT == 1_000_000u64,
        ;
    } else {
        assert(0 <= (-a) * b / (UNIT as int) <= bound) by (nonlinear_arith)
            requires
                0 < -a <= bound,
                0 <= b <= UNIT,
                UNIT == 1_000_000u64,
        ;
    }
}

/// Scaling a value of at most one magnitude by a nonnegative factor gives
/// at most the factor itself.
pub proof fn lemma_scale_le_factor(a: int, b: int)
    requires
        -(UNIT as int) <= a <= UNIT as int,
        0 <= b,
    ensures
        -b <= spec_scale(a, b) <= b,
{
    if a >= 0 {
        assert(0 <= a * b / (UNIT as int) <= b) by (nonlinear_arith)
            requires
                0 <= a <= UNIT,
                0 <= b,
                UNIT == 1_000_000u64,
        ;
    } else {
        assert(0 <= (-a) * b / (UNIT as int) <= b) by (nonlinear_arith)
            requires
                0 < -a <= UNIT,
                0 <= b,
                UNIT == 1_000_000u64,
        ;
    }
}

/// The signed form obeys the same magnitude bound.
pub proof fn lemma_scale_signed_bound(a: int, b: int, bound: int)
    requires
        -bound <= a <= bound,
        -(UNIT as int) <= b <= UNIT as int,
        bound >= 0,
    ensures
        -bound <= spec_scale_signed(a, b) <= bound,
{
    if b >= 0 {
        lemma_scale_bound(a, b, bound);
    } else {
        lemma_scale_bound(-a, -b, bound);
    }
}

} // verus!
