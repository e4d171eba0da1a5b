//! Geometric primitives: integer 2D vectors, fixed-point rotations and
//! axis-aligned rectangles.

use vstd::prelude::*;

use crate::num::{cap, cap_add, div_trunc, mul_frac, spec_cap, tdiv, frac, COORD_CAP, FRAC_CAP,
    UNIT};
use crate::num::lemma_mul_bound;

verus! {

/// A 2D vector with integer coordinates.
#[derive(Debug, Clone, Copy, PartialEq, Eq, Structural, Default)]
pub struct Vec2i {
    pub x: i64,
    pub y: i64,
}

/// A 2D rotation held as a fixed-point unit vector: `c` and `s` are the
/// cosine and sine numerators over [`UNIT`].
#[derive(Debug, Clone, Copy, PartialEq, Eq, Structural)]
pub struct Rot2 {
    pub c: i64,
    pub s: i64,
}

/// An axis-aligned rectangle given by two corners.
#[derive(Debug, Clone, Copy, PartialEq, Eq, Structural)]
pub struct Rect2i {
    pub min: Vec2i,
    pub max: Vec2i,
}

impl Vec2i {
    /// Both coordinates lie in the saturation range.
    pub open spec fn bounded(self) -> bool {
        &&& -COORD_CAP <= self.x <= COORD_CAP
        &&& -COORD_CAP <= self.y <= COORD_CAP
    }

    /// Both coordinates lie in the fraction range.
    pub open spec fn frac_bounded(self) -> bool {
        &&& -FRAC_CAP <= self.x <= FRAC_CAP
        &&& -FRAC_CAP <= self.y <= FRAC_CAP
    }

    pub fn new(x: i64, y: i64) -> (r: Vec2i)
        ensures
            r == (Vec2i { x, y }),
    {
        Vec2i { x, y }
    }

    pub fn zero() -> (r: Vec2i)
        ensures
            r == (Vec2i { x: 0, y: 0 }),
    {
        Vec2i { x: 0, y: 0 }
    }

    /// The fraction numerator standing for `1.0` on both axes.
    pub fn one_frac() -> (r: Vec2i)
        ensures
            r == (Vec2i { x: UNIT as i64, y: UNIT as i64 }),
    {
        Vec2i { x: UNIT, y: UNIT }
    }

    /// Saturating componentwise addition.
    pub fn add(self, other: Vec2i) -> (r: Vec2i)
        requires
            self.bounded(),
            other.bounded(),
        ensures
            r == spec_add(self, other),
            r.bounded(),
    {
        Vec2i { x: cap_add(self.x, other.x), y: cap_add(self.y, other.y) }
    }

    /// Saturating componentwise subtraction.
    pub fn sub(self, other: Vec2i) -> (r: Vec2i)
        requires
            self.bounded(),
            other.bounded(),
        ensures
            r == spec_sub(self, other),
            r.bounded(),
    {
        Vec2i { x: cap_add(self.x, -other.x), y: cap_add(self.y, -other.y) }
    }

    /// Componentwise negation.
    pub fn neg(self) -> (r: Vec2i)
        requires
            self.bounded(),
        ensures
            r == (Vec2i { x: (-self.x) as i64, y: (-self.y) as i64 }),
            r.bounded(),
    {
        Vec2i { x: -self.x, y: -self.y }
    }

    /// Scale both components by a fraction vector (numerators over
    /// [`UNIT`]), truncating, then saturate.
    pub fn mul_frac_vec(self, f: Vec2i) -> (r: Vec2i)
        requires
            self.bounded(),
            f.frac_bounded(),
        ensures
            r == spec_mul_frac_vec(self, f),
            r.bounded(),
    {
        Vec2i { x: mul_frac(self.x, f.x), y: mul_frac(self.y, f.y) }
    }

    /// Halve both components, truncating toward zero.
    pub fn half(self) -> (r: Vec2i)
        requires
            self.bounded(),
        ensures
            r == spec_half(self),
            r.bounded(),
    {
        proof {
            lemma_tdiv_shrinks(self.x as int, 2);
            lemma_tdiv_shrinks(self.y as int, 2);
        }
        Vec2i { x: div_trunc(self.x, 2), y: div_trunc(self.y, 2) }
    }
}

pub open spec fn spec_add(a: Vec2i, b: Vec2i) -> Vec2i {
    Vec2i { x: spec_cap(a.x + b.x) as i64, y: spec_cap(a.y + b.y) as i64 }
}

pub open spec fn spec_sub(a: Vec2i, b: Vec2i) -> Vec2i {
    Vec2i { x: spec_cap(a.x - b.x) as i64, y: spec_cap(a.y - b.y) as i64 }
}

pub open spec fn spec_mul_frac_vec(a: Vec2i, f: Vec2i) -> Vec2i {
    Vec2i {
        x: spec_cap(frac(a.x as int, f.x as int)) as i64,
        y: spec_cap(frac(a.y as int, f.y as int)) as i64,
    }
}

pub open spec fn spec_half(a: Vec2i) -> Vec2i {
    Vec2i { x: tdiv(a.x as int, 2) as i64, y: tdiv(a.y as int, 2) as i64 }
}

/// Truncating division toward zero never grows a value's magnitude.
pub(crate) proof fn lemma_tdiv_shrinks(a: int, b: int)
    requires
        b >= 1,
    ensures
        a >= 0 ==> 0 <= tdiv(a, b) <= a,
        a < 0 ==> a <= tdiv(a, b) <= 0,
{
    if a >= 0 {
        assert(0 <= a / b <= a) by (nonlinear_arith)
            requires
                a >= 0,
                b >= 1,
        ;
    } else {
        assert(0 <= (-a) / b <= -a) by (nonlinear_arith)
            requires
                -a >= 0,
                b >= 1,
        ;
    }
}

impl Rot2 {
    /// The cosine and sine numerators lie within one [`UNIT`].
    pub open spec fn wf(self) -> bool {
        &&& -UNIT <= self.c <= UNIT
        &&& -UNIT <= self.s <= UNIT
    }

    /// The rotation by zero.
    pub fn identity() -> (r: Rot2)
        ensures
            r == (Rot2 { c: UNIT as i64, s: 0i64 }),
            r.wf(),
    {
        Rot2 { c: UNIT, s: 0 }
    }

    pub fn new(c: i64, s: i64) -> (r: Rot2)
        ensures
            r == (Rot2 { c, s }),
    {
        Rot2 { c, s }
    }

    /// The inverse rotation.
    pub fn inverse(self) -> (r: Rot2)
        requires
            self.wf(),
        ensures
            r == (Rot2 { c: self.c, s: (-self.s) as i64 }),
            r.wf(),
    {
        Rot2 { c: self.c, s: -self.s }
    }

    /// Compose two rotations (add the angles they stand for).
    pub fn compose(self, other: Rot2) -> (r: Rot2)
        requires
            self.wf(),
            other.wf(),
        ensures
            r == spec_rot_compose(self, other),
            r.wf(),
    {
        proof {
            lemma_mul_bound(self.c as int, other.c as int, UNIT as int, UNIT as int);
            lemma_mul_bound(self.s as int, other.s as int, UNIT as int, UNIT as int);
            lemma_mul_bound(self.s as int, other.c as int, UNIT as int, UNIT as int);
            lemma_mul_bound(self.c as int, other.s as int, UNIT as int, UNIT as int);
        }
        let c = div_trunc(self.c * other.c - self.s * other.s, UNIT);
        let s = div_trunc(self.s * other.c + self.c * other.s, UNIT);
        proof {
            lemma_tdiv_shrinks(self.c * other.c - self.s * other.s, UNIT as int);
            lemma_tdiv_shrinks(self.s * other.c + self.c * other.s, UNIT as int);
        }
        Rot2 { c: clamp_unit(c), s: clamp_unit(s) }
    }
}

/// Saturate a numerator into `[-UNIT, UNIT]`.
pub open spec fn spec_clamp_unit(a: int) -> int {
    if a > UNIT as int {
        UNIT as int
    } else if a < -(UNIT as int) {
        -(UNIT as int)
    } else {
        a
    }
}

fn clamp_unit(a: i64) -> (r: i64)
    ensures
        r == spec_clamp_unit(a as int),
{
    if a > UNIT {
        UNIT
    } else if a < -UNIT {
        -UNIT
    } else {
        a
    }
}

pub open spec fn spec_rot_compose(a: Rot2, b: Rot2) -> Rot2 {
    Rot2 {
        c: spec_clamp_unit(tdiv(a.c * b.c - a.s * b.s, UNIT as int)) as i64,
        s: spec_clamp_unit(tdiv(a.s * b.c + a.c * b.s, UNIT as int)) as i64,
    }
}

/// Rotate a vector: the integer form of multiplying by a rotation matrix,
/// truncating each component and saturating into the coordinate range.
pub open spec fn spec_rotate(v: Vec2i, r: Rot2) -> Vec2i {
    Vec2i {
        x: spec_cap(tdiv(v.x * r.c - v.y * r.s, UNIT as int)) as i64,
        y: spec_cap(tdiv(v.x * r.s + v.y * r.c, UNIT as int)) as i64,
    }
}

pub fn rotate(v: Vec2i, r: Rot2) -> (out: Vec2i)
    requires
        v.bounded(),
        r.wf(),
    ensures
        out == spec_rotate(v, r),
        out.bounded(),
{
    proof {
        lemma_mul_bound(v.x as int, r.c as int, COORD_CAP as int, UNIT as int);
        lemma_mul_bound(v.y as int, r.s as int, COORD_CAP as int, UNIT as int);
        lemma_mul_bound(v.x as int, r.s as int, COORD_CAP as int, UNIT as int);
        lemma_mul_bound(v.y as int, r.c as int, COORD_CAP as int, UNIT as int);
    }
    let x = cap(div_trunc(v.x * r.c - v.y * r.s, UNIT));
    let y = cap(div_trunc(v.x * r.s + v.y * r.c, UNIT));
    Vec2i { x, y }
}

impl Rect2i {
    pub open spec fn spec_contains(self, p: Vec2i) -> bool {
        &&& self.min.x <= p.x <= self.max.x
        &&& self.min.y <= p.y <= self.max.y
    }

    /// Whether a point lies inside the rectangle, borders included.
    pub fn contains(&self, p: Vec2i) -> (r: bool)
        ensures
            r == self.spec_contains(p),
    {
        self.min.x <= p.x && p.x <= self.max.x && self.min.y <= p.y && p.y <= self.max.y
    }

    /// The size of the rectangle; negative when min and max are swapped.
    pub fn size(&self) -> (r: Vec2i)
        requires
            self.min.bounded(),
            self.max.bounded(),
        ensures
            r == spec_sub(self.max, self.min),
    {
        self.max.sub(self.min)
    }
}

} // verus!
