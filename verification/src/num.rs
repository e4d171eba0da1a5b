//! Saturating fixed-point scalar arithmetic.
//!
//! Coordinates are plain `i64` values kept inside `[-COORD_CAP, COORD_CAP]`.
//! Fractions (anchors, rotations, scales) are numerators over [`UNIT`];
//! multiplying a coordinate by a fraction truncates toward zero, like a
//! float-to-int cast would.

use vstd::prelude::*;

verus! {

/// Fixed-point denominator for fractional quantities.
pub const UNIT: i64 = 10000;

/// One half, in [`UNIT`] terms: the magnitude bound of a well-formed anchor
/// component.
pub const HALF: i64 = 5000;

/// Bound on fraction numerators (rotations, scales): one hundred times
/// [`UNIT`].
pub const FRAC_CAP: i64 = 1_000_000;

/// Saturation bound for coordinates.
pub const COORD_CAP: i64 = 1_000_000_000_000;

/// Bound on the dimensions and margins a layout consumes per item.
pub const ITEM_CAP: i64 = 500_000;

/// Bound on how many items one layout invocation consumes.
pub const ITEM_COUNT_CAP: usize = 1_000_000;

/// Truncating division (rounds toward zero), defined for positive divisors.
pub open spec fn tdiv(a: int, b: int) -> int {
    if a >= 0 {
        a / b
    } else {
        -((-a) / b)
    }
}

/// Saturate a mathematical integer into the coordinate range.
pub open spec fn spec_cap(a: int) -> int {
    if a > COORD_CAP as int {
        COORD_CAP as int
    } else if a < -(COORD_CAP as int) {
        -(COORD_CAP as int)
    } else {
        a
    }
}

/// Saturate a mathematical integer into the fraction range.
pub open spec fn spec_cap_frac(a: int) -> int {
    if a > FRAC_CAP as int {
        FRAC_CAP as int
    } else if a < -(FRAC_CAP as int) {
        -(FRAC_CAP as int)
    } else {
        a
    }
}

/// Multiply a coordinate by a fraction numerator and divide by [`UNIT`],
/// truncating toward zero.
pub open spec fn frac(a: int, num: int) -> int {
    tdiv(a * num, UNIT as int)
}

proof fn lemma_div_bound(a: int, b: int)
    requires
        a >= 0,
        b >= 1,
    ensures
        0 <= a / b <= a,
{
    assert(0 <= a / b <= a) by (nonlinear_arith)
        requires
            a >= 0,
            b >= 1,
    ;
}

/// Truncating division on machine integers; the divisor must be positive.
pub fn div_trunc(a: i64, b: i64) -> (r: i64)
    requires
        b > 0,
    ensures
        r == tdiv(a as int, b as int),
{
    proof {
        if a >= 0 {
            lemma_div_bound(a as int, b as int);
        } else {
            lemma_div_bound(-(a as int), b as int);
        }
    }
    match a.checked_div(b) {
        Some(r) => r,
        None => 0,
    }
}

/// Saturate a machine integer into the coordinate range.
pub fn cap(a: i64) -> (r: i64)
    ensures
        r == spec_cap(a as int),
{
    if a > COORD_CAP {
        COORD_CAP
    } else if a < -COORD_CAP {
        -COORD_CAP
    } else {
        a
    }
}

/// Saturating addition of two in-range coordinates.
pub fn cap_add(a: i64, b: i64) -> (r: i64)
    requires
        -COORD_CAP <= a <= COORD_CAP,
        -COORD_CAP <= b <= COORD_CAP,
    ensures
        r == spec_cap(a + b),
{
    cap(a + b)
}

/// Multiply an in-range coordinate by a fraction numerator, truncating.
/// The result of a multiplication by a well-formed fraction is saturated
/// back into the coordinate range.
pub fn mul_frac(a: i64, num: i64) -> (r: i64)
    requires
        -COORD_CAP <= a <= COORD_CAP,
        -2 * (FRAC_CAP as int) <= num <= 2 * (FRAC_CAP as int),
    ensures
        r == spec_cap(frac(a as int, num as int)),
{
    proof {
        assert(-2_000_000_000_000_000_000 <= (a as int) * (num as int)
            <= 2_000_000_000_000_000_000) by (nonlinear_arith)
            requires
                -COORD_CAP <= a <= COORD_CAP,
                -2 * (FRAC_CAP as int) <= num <= 2 * (FRAC_CAP as int),
        ;
    }
    cap(div_trunc(a * num, UNIT))
}

/// Saturate a machine integer into the fraction range.
pub fn cap_frac(a: i64) -> (r: i64)
    ensures
        r == spec_cap_frac(a as int),
{
    if a > FRAC_CAP {
        FRAC_CAP
    } else if a < -FRAC_CAP {
        -FRAC_CAP
    } else {
        a
    }
}

pub(crate) proof fn lemma_mul_bound(a: int, b: int, ca: int, cb: int)
    requires
        -ca <= a <= ca,
        -cb <= b <= cb,
        ca >= 0,
        cb >= 0,
    ensures
        -ca * cb <= a * b <= ca * cb,
{
    assert(-ca * cb <= a * b <= ca * cb) by (nonlinear_arith)
        requires
            -ca <= a <= ca,
            -cb <= b <= cb,
            ca >= 0,
            cb >= 0,
    ;
}


/// Scaling by a fraction whose magnitude is at most one keeps a value
/// within its bound.
pub proof fn lemma_frac_abs(a: int, f: int, bound: int)
    requires
        -bound <= a <= bound,
        -(UNIT as int) <= f <= UNIT as int,
        bound >= 0,
    ensures
        -bound <= frac(a, f) <= bound,
{
    let x = a * f;
    assert(-bound * UNIT <= x <= bound * UNIT) by (nonlinear_arith)
        requires
            -bound <= a <= bound,
            -(UNIT as int) <= f <= UNIT as int,
            bound >= 0,
            x == a * f,
    ;
    if x >= 0 {
        assert(0 <= x / (UNIT as int) <= bound) by (nonlinear_arith)
            requires
                0 <= x <= bound * UNIT,
                bound >= 0,
        ;
    } else {
        assert(0 <= (-x) / (UNIT as int) <= bound) by (nonlinear_arith)
            requires
                0 <= -x <= bound * UNIT,
                bound >= 0,
        ;
    }
}

/// Multiplying by one whole unit and dividing by it cancels exactly.
pub proof fn lemma_tdiv_cancel(a: int)
    ensures
        tdiv(a * UNIT, UNIT as int) == a,
{
    if a >= 0 {
        assert((a * UNIT) / (UNIT as int) == a) by (nonlinear_arith)
            requires
                a >= 0,
        ;
        assert(a * UNIT >= 0) by (nonlinear_arith)
            requires
                a >= 0,
        ;
    } else {
        assert(((-a) * UNIT) / (UNIT as int) == -a) by (nonlinear_arith)
            requires
                -a >= 0,
        ;
        assert(a * UNIT < 0) by (nonlinear_arith)
            requires
                a < 0,
        ;
        assert(-(a * UNIT) == (-a) * UNIT) by (nonlinear_arith);
    }
}

/// A rotation of a bounded vector is bounded by twice the vector bound.
pub proof fn lemma_rotate_arg_bound(x: int, y: int, c: int, s: int, m: int)
    requires
        -m <= x <= m,
        -m <= y <= m,
        -(UNIT as int) <= c <= UNIT as int,
        -(UNIT as int) <= s <= UNIT as int,
        m >= 0,
    ensures
        -2 * m <= tdiv(x * c - y * s, UNIT as int) <= 2 * m,
        -2 * m <= tdiv(x * s + y * c, UNIT as int) <= 2 * m,
{
    let p = x * c - y * s;
    let q = x * s + y * c;
    assert(-2 * m * UNIT <= p <= 2 * m * UNIT && -2 * m * UNIT <= q <= 2 * m * UNIT)
        by (nonlinear_arith)
        requires
            -m <= x <= m,
            -m <= y <= m,
            -(UNIT as int) <= c <= UNIT as int,
            -(UNIT as int) <= s <= UNIT as int,
            m >= 0,
            p == x * c - y * s,
            q == x * s + y * c,
    ;
    lemma_tdiv_scaled_bound(p, 2 * m);
    lemma_tdiv_scaled_bound(q, 2 * m);
}

/// Dividing a value within `b * UNIT` by one unit stays within `b`.
pub proof fn lemma_tdiv_scaled_bound(a: int, b: int)
    requires
        -b * UNIT <= a <= b * UNIT,
        b >= 0,
    ensures
        -b <= tdiv(a, UNIT as int) <= b,
{
    if a >= 0 {
        assert(0 <= a / (UNIT as int) <= b) by (nonlinear_arith)
            requires
                0 <= a <= b * UNIT,
                b >= 0,
        ;
    } else {
        assert(0 <= (-a) / (UNIT as int) <= b) by (nonlinear_arith)
            requires
                0 <= -a <= b * UNIT,
                b >= 0,
        ;
    }
}


/// Truncating division leaves a remainder smaller than the divisor in
/// magnitude, with the dividend's sign.
pub proof fn lemma_tdiv_rem(a: int, b: int)
    requires
        b > 0,
    ensures
        -(b - 1) <= a - tdiv(a, b) * b <= b - 1,
{
    if a >= 0 {
        assert(a - (a / b) * b == a % b) by (nonlinear_arith)
            requires
                b > 0,
        ;
        assert(0 <= a % b < b) by (nonlinear_arith)
            requires
                a >= 0,
                b > 0,
        ;
    } else {
        assert((-a) - ((-a) / b) * b == (-a) % b) by (nonlinear_arith)
            requires
                b > 0,
        ;
        assert(0 <= (-a) % b < b) by (nonlinear_arith)
            requires
                -a >= 0,
                b > 0,
        ;
        assert(a - (-((-a) / b)) * b == -((-a) - ((-a) / b) * b)) by (nonlinear_arith);
    }
}

} // verus!
