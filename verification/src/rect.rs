//! Anchors, rotated rectangles and 2D affine transforms.

use vstd::prelude::*;

use crate::geom::{rotate, spec_add, spec_rotate, spec_sub, Rect2i, Rot2, Vec2i};
use crate::layouts::{spec_bucket, Trinary};
use crate::num::{cap_add, div_trunc, frac, mul_frac, spec_cap, spec_cap_frac, tdiv, COORD_CAP,
    FRAC_CAP, HALF, UNIT};
use crate::transform::Transform2D;

verus! {

/// Anchor of a rectangle: a normalized 2D point, each fraction numerator
/// over [`UNIT`] lying in `[-HALF, HALF]`, or the inherit sentinel that
/// falls back to a paired field.
#[derive(Debug, Clone, Copy, PartialEq, Eq, Structural)]
pub enum Anchor {
    /// Fall back to the paired anchor field.
    Inherit,
    /// A concrete fraction pair.
    At(Vec2i),
}

impl Anchor {
    /// The fraction pair, with the zero vector standing in for the
    /// sentinel.
    pub open spec fn spec_vec(self) -> Vec2i {
        match self {
            Anchor::Inherit => Vec2i { x: 0, y: 0 },
            Anchor::At(v) => v,
        }
    }

    /// A concrete anchor lies within `[-HALF, HALF]` on both axes.
    pub open spec fn wf(self) -> bool {
        match self {
            Anchor::Inherit => true,
            Anchor::At(v) => -HALF <= v.x <= HALF && -HALF <= v.y <= HALF,
        }
    }

    pub fn new(v: Vec2i) -> (r: Anchor)
        ensures
            r == Anchor::At(v),
    {
        Anchor::At(v)
    }

    /// An anchor from explicit fraction numerators.
    pub fn custom(x: i64, y: i64) -> (r: Anchor)
        ensures
            r == Anchor::At(Vec2i { x, y }),
    {
        Anchor::At(Vec2i { x, y })
    }

    pub fn inherit() -> (r: Anchor)
        ensures
            r == Anchor::Inherit,
    {
        Anchor::Inherit
    }

    pub fn bottom_left() -> (r: Anchor)
        ensures
            r == Anchor::At(Vec2i { x: -HALF as i64, y: -HALF as i64 }),
    {
        Anchor::At(Vec2i { x: -HALF, y: -HALF })
    }

    pub fn bottom_center() -> (r: Anchor)
        ensures
            r == Anchor::At(Vec2i { x: 0, y: -HALF as i64 }),
    {
        Anchor::At(Vec2i { x: 0, y: -HALF })
    }

    pub fn bottom_right() -> (r: Anchor)
        ensures
            r == Anchor::At(Vec2i { x: HALF as i64, y: -HALF as i64 }),
    {
        Anchor::At(Vec2i { x: HALF, y: -HALF })
    }

    pub fn center_left() -> (r: Anchor)
        ensures
            r == Anchor::At(Vec2i { x: -HALF as i64, y: 0 }),
    {
        Anchor::At(Vec2i { x: -HALF, y: 0 })
    }

    pub fn center() -> (r: Anchor)
        ensures
            r == Anchor::At(Vec2i { x: 0, y: 0 }),
    {
        Anchor::At(Vec2i { x: 0, y: 0 })
    }

    pub fn center_right() -> (r: Anchor)
        ensures
            r == Anchor::At(Vec2i { x: HALF as i64, y: 0 }),
    {
        Anchor::At(Vec2i { x: HALF, y: 0 })
    }

    pub fn top_left() -> (r: Anchor)
        ensures
            r == Anchor::At(Vec2i { x: -HALF as i64, y: HALF as i64 }),
    {
        Anchor::At(Vec2i { x: -HALF, y: HALF })
    }

    pub fn top_center() -> (r: Anchor)
        ensures
            r == Anchor::At(Vec2i { x: 0, y: HALF as i64 }),
    {
        Anchor::At(Vec2i { x: 0, y: HALF })
    }

    pub fn top_right() -> (r: Anchor)
        ensures
            r == Anchor::At(Vec2i { x: HALF as i64, y: HALF as i64 }),
    {
        Anchor::At(Vec2i { x: HALF, y: HALF })
    }

    pub fn is_inherit(&self) -> (r: bool)
        ensures
            r == (*self is Inherit),
    {
        matches!(self, Anchor::Inherit)
    }

    /// The concrete fraction pair of a non-sentinel anchor.
    pub fn as_vec(&self) -> (r: Vec2i)
        requires
            !(*self is Inherit),
        ensures
            r == self.spec_vec(),
    {
        match self {
            Anchor::Inherit => Vec2i { x: 0, y: 0 },
            Anchor::At(v) => *v,
        }
    }

    /// The fraction pair shifted into `[0, UNIT]`: zero at the bottom
    /// left corner, one unit at the top right.
    pub fn as_unit(&self) -> (r: Vec2i)
        requires
            !(*self is Inherit),
            self.wf(),
        ensures
            r == (Vec2i {
                x: (self.spec_vec().x + HALF) as i64,
                y: (self.spec_vec().y + HALF) as i64,
            }),
    {
        let v = self.as_vec();
        Vec2i { x: v.x + HALF, y: v.y + HALF }
    }

    pub fn x(&self) -> (r: i64)
        requires
            !(*self is Inherit),
        ensures
            r == self.spec_vec().x,
    {
        self.as_vec().x
    }

    pub fn y(&self) -> (r: i64)
        requires
            !(*self is Inherit),
        ensures
            r == self.spec_vec().y,
    {
        self.as_vec().y
    }

    /// The anchor itself, unless it is the sentinel, in which case the
    /// fallback.
    pub fn or(self, other: Anchor) -> (r: Anchor)
        ensures
            r == self.spec_or(other),
    {
        if self.is_inherit() {
            other
        } else {
            self
        }
    }

    pub open spec fn spec_or(self, other: Anchor) -> Anchor {
        if self is Inherit {
            other
        } else {
            self
        }
    }

    /// The mirrored anchor.
    pub fn neg(self) -> (r: Anchor)
        requires
            self.wf(),
        ensures
            self is Inherit ==> r == Anchor::Inherit,
            self is At ==> r == Anchor::At(
                Vec2i { x: (-self.spec_vec().x) as i64, y: (-self.spec_vec().y) as i64 },
            ),
            r.wf(),
    {
        match self {
            Anchor::Inherit => Anchor::Inherit,
            Anchor::At(v) => Anchor::At(Vec2i { x: -v.x, y: -v.y }),
        }
    }

    /// The name of the region of the rectangle the anchor falls in, with
    /// the same dead zone as the cross-axis lanes.
    pub fn str_name(&self) -> (r: &'static str)
        ensures
            *self is Inherit ==> r@ == "Inherit"@,
            *self is At ==> r@ == spec_region_name(
                spec_bucket(self.spec_vec().x as int),
                spec_bucket(self.spec_vec().y as int),
            ),
    {
        match self {
            Anchor::Inherit => "Inherit",
            Anchor::At(v) => {
                let bx = crate::layouts::bucket(v.x);
                let by = crate::layouts::bucket(v.y);
                match (bx, by) {
                    (Trinary::Neg, Trinary::Neg) => "BottomLeft",
                    (Trinary::Neg, Trinary::Pos) => "TopLeft",
                    (Trinary::Neg, Trinary::Mid) => "CenterLeft",
                    (Trinary::Pos, Trinary::Neg) => "BottomRight",
                    (Trinary::Pos, Trinary::Pos) => "TopRight",
                    (Trinary::Pos, Trinary::Mid) => "CenterRight",
                    (Trinary::Mid, Trinary::Neg) => "BottomCenter",
                    (Trinary::Mid, Trinary::Pos) => "TopCenter",
                    (Trinary::Mid, Trinary::Mid) => "Center",
                }
            },
        }
    }
}

/// Region names keyed by the lane pair of an anchor.
pub open spec fn spec_region_name(bx: Trinary, by: Trinary) -> Seq<char> {
    match (bx, by) {
        (Trinary::Neg, Trinary::Neg) => "BottomLeft"@,
        (Trinary::Neg, Trinary::Pos) => "TopLeft"@,
        (Trinary::Neg, Trinary::Mid) => "CenterLeft"@,
        (Trinary::Pos, Trinary::Neg) => "BottomRight"@,
        (Trinary::Pos, Trinary::Pos) => "TopRight"@,
        (Trinary::Pos, Trinary::Mid) => "CenterRight"@,
        (Trinary::Mid, Trinary::Neg) => "BottomCenter"@,
        (Trinary::Mid, Trinary::Pos) => "TopCenter"@,
        (Trinary::Mid, Trinary::Mid) => "Center"@,
    }
}

/// Scale a dimension by an anchor's fraction pair, componentwise.
pub open spec fn anchor_dim(av: Vec2i, d: Vec2i) -> Vec2i {
    Vec2i {
        x: spec_cap(frac(d.x as int, av.x as int)) as i64,
        y: spec_cap(frac(d.y as int, av.y as int)) as i64,
    }
}

/// Multiply a bounded dimension by a fraction pair.
pub fn mul_anchor_dim(av: Vec2i, d: Vec2i) -> (r: Vec2i)
    requires
        -2 * (FRAC_CAP as int) <= av.x <= 2 * (FRAC_CAP as int),
        -2 * (FRAC_CAP as int) <= av.y <= 2 * (FRAC_CAP as int),
        d.bounded(),
    ensures
        r == anchor_dim(av, d),
        r.bounded(),
{
    Vec2i { x: mul_frac(d.x, av.x), y: mul_frac(d.y, av.y) }
}

/// A 2D affine transform: translation, rotation and per-axis scale (a
/// fraction pair over [`UNIT`]).
#[derive(Debug, Clone, Copy, PartialEq, Eq, Structural)]
pub struct Transform2 {
    pub translation: Vec2i,
    pub rotation: Rot2,
    pub scale: Vec2i,
}

/// Multiply two scale fractions, saturating into the fraction range.
pub open spec fn spec_scale_mul(a: int, b: int) -> int {
    spec_cap_frac(frac(a, b))
}

fn scale_mul(a: i64, b: i64) -> (r: i64)
    requires
        -FRAC_CAP <= a <= FRAC_CAP,
        -FRAC_CAP <= b <= FRAC_CAP,
    ensures
        r == spec_scale_mul(a as int, b as int),
        -FRAC_CAP <= r <= FRAC_CAP,
{
    proof {
        crate::num::lemma_mul_bound(a as int, b as int, FRAC_CAP as int, FRAC_CAP as int);
        crate::geom::lemma_tdiv_shrinks((a as int) * (b as int), UNIT as int);
    }
    let raw = div_trunc(a * b, UNIT);
    if raw > FRAC_CAP {
        FRAC_CAP
    } else if raw < -FRAC_CAP {
        -FRAC_CAP
    } else {
        raw
    }
}

/// Apply an affine transform to a point: rotate, scale, then translate.
pub open spec fn spec_transform_point(t: Transform2, p: Vec2i) -> Vec2i {
    spec_add(crate::geom::spec_mul_frac_vec(spec_rotate(p, t.rotation), t.scale), t.translation)
}

impl Transform2 {
    pub open spec fn wf(self) -> bool {
        &&& self.translation.bounded()
        &&& self.rotation.wf()
        &&& self.scale.frac_bounded()
    }

    pub fn identity() -> (r: Transform2)
        ensures
            r == (Transform2 {
                translation: Vec2i { x: 0, y: 0 },
                rotation: Rot2 { c: UNIT as i64, s: 0 },
                scale: Vec2i { x: UNIT as i64, y: UNIT as i64 },
            }),
            r.wf(),
    {
        Transform2 {
            translation: Vec2i { x: 0, y: 0 },
            rotation: Rot2 { c: UNIT, s: 0 },
            scale: Vec2i { x: UNIT, y: UNIT },
        }
    }

    /// Compose with another transform: the other's translation is carried
    /// through this transform, rotations compose, scales multiply.
    pub fn mul(&self, other: Transform2) -> (r: Transform2)
        requires
            self.wf(),
            other.wf(),
        ensures
            r == spec_transform_mul(*self, other),
            r.wf(),
    {
        Transform2 {
            translation: self.transform_point2(other.translation),
            rotation: self.rotation.compose(other.rotation),
            scale: Vec2i {
                x: scale_mul(self.scale.x, other.scale.x),
                y: scale_mul(self.scale.y, other.scale.y),
            },
        }
    }

    /// Apply the transform to a point.
    pub fn transform_point2(&self, point: Vec2i) -> (r: Vec2i)
        requires
            self.wf(),
            point.bounded(),
        ensures
            r == spec_transform_point(*self, point),
            r.bounded(),
    {
        rotate(point, self.rotation).mul_frac_vec(self.scale).add(self.translation)
    }
}

pub open spec fn spec_transform_mul(a: Transform2, b: Transform2) -> Transform2 {
    Transform2 {
        translation: spec_transform_point(a, b.translation),
        rotation: crate::geom::spec_rot_compose(a.rotation, b.rotation),
        scale: Vec2i {
            x: spec_scale_mul(a.scale.x as int, b.scale.x as int) as i64,
            y: spec_scale_mul(a.scale.y as int, b.scale.y as int) as i64,
        },
    }
}

/// Transient context a parent hands each child during one traversal step.
#[derive(Debug, Clone, Copy, PartialEq, Eq, Structural)]
pub struct ParentInfo {
    /// The parent's resolved dimension.
    pub dimension: Vec2i,
    /// The parent's own center anchor fraction; carried for context.
    pub center: Vec2i,
    /// A parent anchor forced by a layout, as a fraction pair.
    pub anchor: Option<Vec2i>,
    /// Composed affine transform from the frame's origin.
    pub affine: Transform2,
    /// Handle of the owning frame.
    pub frame: u64,
    /// The owning frame's bounding rectangle.
    pub frame_rect: Rect2i,
}

impl ParentInfo {
    pub open spec fn wf(self) -> bool {
        &&& self.dimension.bounded()
        &&& self.center.bounded()
        &&& (self.anchor matches Option::Some(v) ==> v.frac_bounded())
        &&& self.affine.wf()
        &&& self.frame_rect.min.bounded()
        &&& self.frame_rect.max.bounded()
    }

    /// The same context with a forced parent anchor.
    pub fn with_anchor(self, anc: Vec2i) -> (r: ParentInfo)
        ensures
            r == (ParentInfo { anchor: Option::Some(anc), ..self }),
    {
        ParentInfo { anchor: Option::Some(anc), ..self }
    }
}

/// The local transform a resolved rectangle induces, relative to a chosen
/// center anchor.
#[derive(Debug, Clone, Copy, PartialEq, Eq, Structural)]
pub struct LocalTransform {
    pub translation: Vec2i,
    pub z: i64,
    pub rotation: Rot2,
    pub scale: Vec2i,
}

/// A rotated 2D rectangle.
///
/// `scale` is independent of `dimension`: it affects the rendered extent
/// only, never the layout math.
#[derive(Debug, Clone, Copy, PartialEq, Eq, Structural)]
pub struct RotatedRect {
    /// Center of the rect.
    pub center: Vec2i,
    /// Size of the rect.
    pub dimension: Vec2i,
    /// Rotation of the rect.
    pub rotation: Rot2,
    /// Z depth of the rect.
    pub z: i64,
    /// Scale of the rect, a fraction pair over [`UNIT`].
    pub scale: Vec2i,
    /// Handle of the owning frame.
    pub frame_entity: Option<u64>,
}

impl Default for RotatedRect {
    fn default() -> (r: Self)
        ensures
            r == (RotatedRect {
                center: Vec2i { x: 0, y: 0 },
                dimension: Vec2i { x: 0, y: 0 },
                rotation: Rot2 { c: UNIT as i64, s: 0 },
                z: 0,
                scale: Vec2i { x: 0, y: 0 },
                frame_entity: Option::None,
            }),
    {
        RotatedRect {
            center: Vec2i { x: 0, y: 0 },
            dimension: Vec2i { x: 0, y: 0 },
            rotation: Rot2 { c: UNIT, s: 0 },
            z: 0,
            scale: Vec2i { x: 0, y: 0 },
            frame_entity: Option::None,
        }
    }
}

/// The frame-space position of an anchor fraction of the rectangle.
pub open spec fn spec_rect_anchor(rr: RotatedRect, av: Vec2i) -> Vec2i {
    spec_add(spec_rotate(anchor_dim(av, rr.dimension), rr.rotation), rr.center)
}

/// A frame-space point carried into the rectangle's local space.
pub open spec fn spec_local_space(rr: RotatedRect, p: Vec2i) -> Vec2i {
    spec_rotate(spec_sub(p, rr.center), Rot2 { c: rr.rotation.c, s: (-rr.rotation.s) as i64 })
}

impl RotatedRect {
    pub open spec fn wf(self) -> bool {
        &&& self.center.bounded()
        &&& self.dimension.bounded()
        &&& self.rotation.wf()
        &&& -COORD_CAP <= self.z <= COORD_CAP
        &&& self.scale.frac_bounded()
    }

    /// Find the frame-space position of an anchor.
    pub fn anchor(&self, anchor: Anchor) -> (r: Vec2i)
        requires
            self.wf(),
            anchor.wf(),
            !(anchor is Inherit),
        ensures
            r == spec_rect_anchor(*self, anchor.spec_vec()),
            r.bounded(),
    {
        let av = anchor.as_vec();
        rotate(mul_anchor_dim(av, self.dimension), self.rotation).add(self.center)
    }

    /// Half the dimension.
    pub fn half_dim(&self) -> (r: Vec2i)
        requires
            self.wf(),
        ensures
            r == crate::geom::spec_half(self.dimension),
    {
        self.dimension.half()
    }

    /// Convert a frame-space point to local space, centered on the
    /// rectangle's center.
    pub fn local_space(&self, position: Vec2i) -> (r: Vec2i)
        requires
            self.wf(),
            position.bounded(),
        ensures
            r == spec_local_space(*self, position),
            r.bounded(),
    {
        rotate(position.sub(self.center), self.rotation.inverse())
    }

    /// The affine transform the rectangle induces for its children,
    /// relative to a center anchor fraction.
    pub fn transform2_at(&self, center: Vec2i) -> (r: Transform2)
        requires
            self.wf(),
            center.frac_bounded(),
            -HALF <= center.x <= HALF,
            -HALF <= center.y <= HALF,
        ensures
            r == (Transform2 {
                translation: spec_rect_anchor(*self,
                    Vec2i { x: (-center.x) as i64, y: (-center.y) as i64 }),
                rotation: self.rotation,
                scale: self.scale,
            }),
            r.wf(),
    {
        let neg = Vec2i { x: -center.x, y: -center.y };
        Transform2 {
            translation: self.anchor(Anchor::At(neg)),
            rotation: self.rotation,
            scale: self.scale,
        }
    }

    /// The local transform target for the node's own geometry write,
    /// relative to a center anchor fraction.
    pub fn transform_at(&self, center: Vec2i) -> (r: LocalTransform)
        requires
            self.wf(),
            -HALF <= center.x <= HALF,
            -HALF <= center.y <= HALF,
        ensures
            r == (LocalTransform {
                translation: spec_rect_anchor(*self,
                    Vec2i { x: (-center.x) as i64, y: (-center.y) as i64 }),
                z: self.z,
                rotation: self.rotation,
                scale: self.scale,
            }),
    {
        let neg = Vec2i { x: -center.x, y: -center.y };
        LocalTransform {
            translation: self.anchor(Anchor::At(neg)),
            z: self.z,
            rotation: self.rotation,
            scale: self.scale,
        }
    }

    /// The rectangle carried through an enclosing affine transform.
    pub fn under_transform2(self, transform: Transform2) -> (r: RotatedRect)
        requires
            self.wf(),
            transform.wf(),
        ensures
            r == spec_under_transform(self, transform),
            r.wf(),
    {
        RotatedRect {
            center: transform.transform_point2(self.center),
            rotation: transform.rotation.compose(self.rotation),
            scale: Vec2i {
                x: scale_mul(self.scale.x, transform.scale.x),
                y: scale_mul(self.scale.y, transform.scale.y),
            },
            ..self
        }
    }

    /// The rectangle of a node in parent space.
    ///
    /// A parent anchor forced by a layout wins over the descriptor's own.
    pub fn construct(parent: &ParentInfo, transform: &Transform2D, dimension: Vec2i,
        frame: u64) -> (r: RotatedRect)
        requires
            parent.wf(),
            transform.wf(),
            dimension.bounded(),
        ensures
            r == spec_construct(*parent, *transform, dimension, frame),
            r.wf(),
    {
        let parent_anchor = match parent.anchor {
            Option::Some(a) => a,
            Option::None => transform.get_parent_anchor(),
        };
        let anchor = transform.anchor.as_vec();
        RotatedRect::construct2(parent, transform, parent_anchor, anchor, dimension, frame)
    }

    /// The rectangle of a node in parent space, from explicit anchor and
    /// parent-anchor fraction pairs.
    ///
    /// The node's `anchor` edge is aligned with the parent's
    /// `parent_anchor` edge, the explicit offset applied, and rotation
    /// and scale re-centered on a possibly different `center` anchor.
    pub fn construct2(parent: &ParentInfo, transform: &Transform2D, parent_anchor: Vec2i,
        anchor: Vec2i, dimension: Vec2i, frame: u64) -> (r: RotatedRect)
        requires
            parent.wf(),
            transform.wf(),
            parent_anchor.frac_bounded(),
            anchor.frac_bounded(),
            dimension.bounded(),
        ensures
            r == spec_construct2(*parent, *transform, parent_anchor, anchor, dimension, frame),
            r.wf(),
    {
        let root = mul_anchor_dim(parent_anchor, parent.dimension);
        let center = transform.get_center();
        let cdiff = Vec2i { x: center.x - anchor.x, y: center.y - anchor.y };
        let self_center = root.add(transform.offset).add(mul_anchor_dim(cdiff, dimension));
        RotatedRect {
            center: self_center,
            dimension,
            z: transform.z,
            rotation: transform.rotation,
            scale: transform.scale,
            frame_entity: Option::Some(frame),
        }
    }

    /// The axis-aligned bounding box: the bottom-left anchor mirrored
    /// through the center. Exact only at zero rotation; a rotated rect
    /// gets an approximate box.
    pub fn aabb(&self) -> (r: Rect2i)
        requires
            self.wf(),
        ensures
            r == spec_aabb(*self),
            r.min.bounded(),
            r.max.bounded(),
    {
        let bl = self.anchor(Anchor::bottom_left());
        let tr = Vec2i { x: cap_add(self.center.x, self.center.x), y: cap_add(self.center.y,
            self.center.y) }.sub(bl);
        Rect2i {
            min: Vec2i {
                x: if bl.x < tr.x {
                    bl.x
                } else {
                    tr.x
                },
                y: if bl.y < tr.y {
                    bl.y
                } else {
                    tr.y
                },
            },
            max: Vec2i {
                x: if bl.x > tr.x {
                    bl.x
                } else {
                    tr.x
                },
                y: if bl.y > tr.y {
                    bl.y
                } else {
                    tr.y
                },
            },
        }
    }

    /// Whether the bottom-left anchor and its mirror through the center
    /// both lie inside a rectangle.
    pub fn is_inside(&self, rect: Rect2i) -> (r: bool)
        requires
            self.wf(),
        ensures
            r == spec_is_inside(*self, rect),
    {
        let bl = self.anchor(Anchor::bottom_left());
        let tr = Vec2i { x: cap_add(self.center.x, self.center.x), y: cap_add(self.center.y,
            self.center.y) }.sub(bl);
        rect.contains(bl) && rect.contains(tr)
    }

    /// Nudge the rectangle inside `bounds` by the minimal per-axis
    /// translation; do nothing when its bounding box is larger than
    /// `bounds` on either axis.
    pub fn nudge_inside(&mut self, bounds: Rect2i)
        requires
            old(self).wf(),
            bounds.min.bounded(),
            bounds.max.bounded(),
        ensures
            *final(self) == spec_nudge(*old(self), bounds),
    {
        let aabb = self.aabb();
        let size = aabb.size();
        let bsize = bounds.size();
        if size.x > bsize.x || size.y > bsize.y {
            return ;
        }
        let (dx, dy) = nudge_delta(aabb, bounds);
        self.center = Vec2i {
            x: crate::num::cap(self.center.x + dx),
            y: crate::num::cap(self.center.y + dy),
        };
    }

    /// As `nudge_inside`, but the correction is written to a separate
    /// value: the caller measures overflow in one space and corrects a
    /// coordinate in another.
    pub fn nudge_inside_ext(&self, bounds: Rect2i, value: &mut Vec2i)
        requires
            self.wf(),
            old(value).bounded(),
            bounds.min.bounded(),
            bounds.max.bounded(),
        ensures
            *final(value) == spec_nudge_ext(*self, bounds, *old(value)),
    {
        let aabb = self.aabb();
        let size = aabb.size();
        let bsize = bounds.size();
        if size.x > bsize.x || size.y > bsize.y {
            return ;
        }
        let (dx, dy) = nudge_delta(aabb, bounds);
        *value = Vec2i {
            x: crate::num::cap(value.x + dx),
            y: crate::num::cap(value.y + dy),
        };
    }

    /// Whether a frame-space point lies within the rectangle's visual
    /// extent: its local-space image is within the scaled half dimension
    /// on both axes.
    pub fn contains_point(&self, p: Vec2i) -> (r: bool)
        requires
            self.wf(),
            p.bounded(),
        ensures
            r == spec_contains_point(*self, p),
    {
        let local = self.local_space(p);
        let half = self.dimension.mul_frac_vec(self.scale).half();
        let ax = if local.x < 0 {
            -local.x
        } else {
            local.x
        };
        let ay = if local.y < 0 {
            -local.y
        } else {
            local.y
        };
        ax <= half.x && ay <= half.y
    }
}

pub open spec fn spec_under_transform(rr: RotatedRect, t: Transform2) -> RotatedRect {
    RotatedRect {
        center: spec_transform_point(t, rr.center),
        rotation: crate::geom::spec_rot_compose(t.rotation, rr.rotation),
        scale: Vec2i {
            x: spec_scale_mul(rr.scale.x as int, t.scale.x as int) as i64,
            y: spec_scale_mul(rr.scale.y as int, t.scale.y as int) as i64,
        },
        ..rr
    }
}

pub open spec fn spec_construct2(
    parent: ParentInfo,
    transform: Transform2D,
    parent_anchor: Vec2i,
    anchor: Vec2i,
    dimension: Vec2i,
    frame: u64,
) -> RotatedRect {
    let root = anchor_dim(parent_anchor, parent.dimension);
    let center = transform.spec_get_center();
    let cdiff = Vec2i { x: (center.x - anchor.x) as i64, y: (center.y - anchor.y) as i64 };
    RotatedRect {
        center: spec_add(spec_add(root, transform.offset), anchor_dim(cdiff, dimension)),
        dimension,
        z: transform.z,
        rotation: transform.rotation,
        scale: transform.scale,
        frame_entity: Option::Some(frame),
    }
}

pub open spec fn spec_construct(
    parent: ParentInfo,
    transform: Transform2D,
    dimension: Vec2i,
    frame: u64,
) -> RotatedRect {
    let parent_anchor = match parent.anchor {
        Option::Some(a) => a,
        Option::None => transform.spec_get_parent_anchor(),
    };
    spec_construct2(parent, transform, parent_anchor, transform.anchor.spec_vec(), dimension,
        frame)
}

pub open spec fn spec_aabb(rr: RotatedRect) -> Rect2i {
    let bl = spec_rect_anchor(rr, Vec2i { x: -HALF as i64, y: -HALF as i64 });
    let tr = spec_sub(
        Vec2i {
            x: spec_cap(rr.center.x + rr.center.x) as i64,
            y: spec_cap(rr.center.y + rr.center.y) as i64,
        },
        bl,
    );
    Rect2i {
        min: Vec2i {
            x: if bl.x < tr.x {
                bl.x
            } else {
                tr.x
            },
            y: if bl.y < tr.y {
                bl.y
            } else {
                tr.y
            },
        },
        max: Vec2i {
            x: if bl.x > tr.x {
                bl.x
            } else {
                tr.x
            },
            y: if bl.y > tr.y {
                bl.y
            } else {
                tr.y
            },
        },
    }
}

pub open spec fn spec_is_inside(rr: RotatedRect, rect: Rect2i) -> bool {
    let bl = spec_rect_anchor(rr, Vec2i { x: -HALF as i64, y: -HALF as i64 });
    let tr = spec_sub(
        Vec2i {
            x: spec_cap(rr.center.x + rr.center.x) as i64,
            y: spec_cap(rr.center.y + rr.center.y) as i64,
        },
        bl,
    );
    rect.spec_contains(bl) && rect.spec_contains(tr)
}

/// The minimal per-axis translation that brings `aabb` inside `bounds`.
pub open spec fn spec_nudge_delta(aabb: Rect2i, bounds: Rect2i) -> (int, int) {
    (
        if aabb.min.x < bounds.min.x {
            bounds.min.x - aabb.min.x
        } else if aabb.max.x > bounds.max.x {
            bounds.max.x - aabb.max.x
        } else {
            0
        },
        if aabb.min.y < bounds.min.y {
            bounds.min.y - aabb.min.y
        } else if aabb.max.y > bounds.max.y {
            bounds.max.y - aabb.max.y
        } else {
            0
        },
    )
}

fn nudge_delta(aabb: Rect2i, bounds: Rect2i) -> (r: (i64, i64))
    requires
        aabb.min.bounded(),
        aabb.max.bounded(),
        bounds.min.bounded(),
        bounds.max.bounded(),
    ensures
        r.0 as int == spec_nudge_delta(aabb, bounds).0,
        r.1 as int == spec_nudge_delta(aabb, bounds).1,
        -2 * (COORD_CAP as int) <= r.0 <= 2 * (COORD_CAP as int),
        -2 * (COORD_CAP as int) <= r.1 <= 2 * (COORD_CAP as int),
{
    let dx = if aabb.min.x < bounds.min.x {
        bounds.min.x - aabb.min.x
    } else if aabb.max.x > bounds.max.x {
        bounds.max.x - aabb.max.x
    } else {
        0
    };
    let dy = if aabb.min.y < bounds.min.y {
        bounds.min.y - aabb.min.y
    } else if aabb.max.y > bounds.max.y {
        bounds.max.y - aabb.max.y
    } else {
        0
    };
    (dx, dy)
}

/// The rectangle after the nudge policy: untouched when the bounding box
/// is larger than the bounds on either axis, else translated by the
/// minimal per-axis correction.
pub open spec fn spec_nudge(rr: RotatedRect, bounds: Rect2i) -> RotatedRect {
    let aabb = spec_aabb(rr);
    let size = spec_sub(aabb.max, aabb.min);
    let bsize = spec_sub(bounds.max, bounds.min);
    if size.x > bsize.x || size.y > bsize.y {
        rr
    } else {
        let d = spec_nudge_delta(aabb, bounds);
        RotatedRect {
            center: spec_add(rr.center, Vec2i { x: d.0 as i64, y: d.1 as i64 }),
            ..rr
        }
    }
}

/// The externally corrected value after the nudge policy.
pub open spec fn spec_nudge_ext(rr: RotatedRect, bounds: Rect2i, value: Vec2i) -> Vec2i {
    let aabb = spec_aabb(rr);
    let size = spec_sub(aabb.max, aabb.min);
    let bsize = spec_sub(bounds.max, bounds.min);
    if size.x > bsize.x || size.y > bsize.y {
        value
    } else {
        let d = spec_nudge_delta(aabb, bounds);
        spec_add(value, Vec2i { x: d.0 as i64, y: d.1 as i64 })
    }
}

pub open spec fn spec_contains_point(rr: RotatedRect, p: Vec2i) -> bool {
    let local = spec_local_space(rr, p);
    let half = crate::geom::spec_half(crate::geom::spec_mul_frac_vec(rr.dimension, rr.scale));
    let ax = if local.x < 0 {
        -local.x
    } else {
        local.x as int
    };
    let ay = if local.y < 0 {
        -local.y
    } else {
        local.y as int
    };
    ax <= half.x && ay <= half.y
}


/// A rotation by a whole quarter turn: the only rotations the integer
/// model carries exactly.
pub open spec fn is_cardinal(r: Rot2) -> bool {
    ||| (r.c == UNIT && r.s == 0)
    ||| (r.c == 0 && r.s == UNIT)
    ||| (r.c == -UNIT && r.s == 0)
    ||| (r.c == 0 && r.s == -UNIT)
}

/// Bound on rectangle numbers far enough from the saturation boundary
/// that the geometry laws hold exactly.
pub open spec fn comfortably_bounded(rr: RotatedRect) -> bool {
    &&& -50_000_000_000 <= rr.center.x <= 50_000_000_000
    &&& -50_000_000_000 <= rr.center.y <= 50_000_000_000
    &&& -50_000_000_000 <= rr.dimension.x <= 50_000_000_000
    &&& -50_000_000_000 <= rr.dimension.y <= 50_000_000_000
    &&& rr.rotation.wf()
}

/// A cardinal rotation permutes and negates coordinates exactly.
proof fn lemma_cardinal_rotate(v: Vec2i, r: Rot2)
    requires
        is_cardinal(r),
        v.bounded(),
    ensures
        r.c == UNIT && r.s == 0 ==> spec_rotate(v, r) == v,
        r.c == 0 && r.s == UNIT ==> spec_rotate(v, r) == (Vec2i {
            x: (-v.y) as i64,
            y: v.x,
        }),
        r.c == -UNIT && r.s == 0 ==> spec_rotate(v, r) == (Vec2i {
            x: (-v.x) as i64,
            y: (-v.y) as i64,
        }),
        r.c == 0 && r.s == -UNIT ==> spec_rotate(v, r) == (Vec2i {
            x: v.y,
            y: (-v.x) as i64,
        }),
{
    crate::num::lemma_tdiv_cancel(v.x as int);
    crate::num::lemma_tdiv_cancel(v.y as int);
    crate::num::lemma_tdiv_cancel(-(v.x as int));
    crate::num::lemma_tdiv_cancel(-(v.y as int));
    assert((v.x as int) * 0 == 0 && (v.y as int) * 0 == 0) by (nonlinear_arith);
    assert((v.x as int) * (-(UNIT as int)) == -((v.x as int) * (UNIT as int)))
        by (nonlinear_arith);
    assert((v.y as int) * (-(UNIT as int)) == -((v.y as int) * (UNIT as int)))
        by (nonlinear_arith);
    assert((-(v.x as int)) * (UNIT as int) == -((v.x as int) * (UNIT as int)))
        by (nonlinear_arith);
    assert((-(v.y as int)) * (UNIT as int) == -((v.y as int) * (UNIT as int)))
        by (nonlinear_arith);
}

/// For any rectangle carrying a cardinal rotation, reading an anchor's
/// frame-space position back through `local_space` recovers exactly the
/// anchor's offset from the center: `dimension` scaled by the anchor
/// fraction.
pub proof fn lemma_local_space_anchor_round_trip(rr: RotatedRect, av: Vec2i)
    requires
        comfortably_bounded(rr),
        is_cardinal(rr.rotation),
        -HALF <= av.x <= HALF,
        -HALF <= av.y <= HALF,
    ensures
        spec_local_space(rr, spec_rect_anchor(rr, av)) == anchor_dim(av, rr.dimension),
{
    let b: int = 50_000_000_000;
    let d = anchor_dim(av, rr.dimension);
    crate::num::lemma_frac_abs(rr.dimension.x as int, av.x as int, b);
    crate::num::lemma_frac_abs(rr.dimension.y as int, av.y as int, b);
    assert(-b <= d.x <= b && -b <= d.y <= b);
    let rot = spec_rotate(d, rr.rotation);
    lemma_cardinal_rotate(d, rr.rotation);
    assert(-b <= rot.x <= b && -b <= rot.y <= b);
    let q = spec_add(rot, rr.center);
    assert(q == spec_rect_anchor(rr, av));
    let diff = spec_sub(q, rr.center);
    assert(diff == rot);
    let inv = Rot2 { c: rr.rotation.c, s: (-rr.rotation.s) as i64 };
    assert(is_cardinal(inv));
    lemma_cardinal_rotate(rot, inv);
    assert(spec_local_space(rr, q) == spec_rotate(rot, inv));
    assert(spec_rotate(rot, inv) == d);
}

/// Constructing a rectangle is deterministic: identical inputs yield the
/// identical rectangle, field for field.
pub proof fn lemma_construct_deterministic(
    p1: ParentInfo,
    t1: Transform2D,
    d1: Vec2i,
    f1: u64,
    p2: ParentInfo,
    t2: Transform2D,
    d2: Vec2i,
    f2: u64,
)
    requires
        p1 == p2,
        t1 == t2,
        d1 == d2,
        f1 == f2,
    ensures
        spec_construct(p1, t1, d1, f1) == spec_construct(p2, t2, d2, f2),
{
}

/// When a rectangle's bounding box fits within the bounds on both axes,
/// the nudge policy brings the bounding box fully inside the bounds.
pub proof fn lemma_nudge_brings_inside(rr: RotatedRect, bounds: Rect2i)
    requires
        comfortably_bounded(rr),
        -50_000_000_000 <= bounds.min.x <= 50_000_000_000,
        -50_000_000_000 <= bounds.min.y <= 50_000_000_000,
        -50_000_000_000 <= bounds.max.x <= 50_000_000_000,
        -50_000_000_000 <= bounds.max.y <= 50_000_000_000,
        ({
            let a = spec_aabb(rr);
            &&& a.max.x - a.min.x <= bounds.max.x - bounds.min.x
            &&& a.max.y - a.min.y <= bounds.max.y - bounds.min.y
        }),
    ensures
        ({
            let a2 = spec_aabb(spec_nudge(rr, bounds));
            &&& bounds.min.x <= a2.min.x
            &&& a2.max.x <= bounds.max.x
            &&& bounds.min.y <= a2.min.y
            &&& a2.max.y <= bounds.max.y
        }),
{
    let b: int = 50_000_000_000;
    let bl_off = spec_rotate(
        anchor_dim(Vec2i { x: -HALF as i64, y: -HALF as i64 }, rr.dimension),
        rr.rotation,
    );
    crate::num::lemma_frac_abs(rr.dimension.x as int, -(HALF as int), b);
    crate::num::lemma_frac_abs(rr.dimension.y as int, -(HALF as int), b);
    crate::num::lemma_rotate_arg_bound(
        anchor_dim(Vec2i { x: -HALF as i64, y: -HALF as i64 }, rr.dimension).x as int,
        anchor_dim(Vec2i { x: -HALF as i64, y: -HALF as i64 }, rr.dimension).y as int,
        rr.rotation.c as int,
        rr.rotation.s as int,
        b,
    );
    let a = spec_aabb(rr);
    let d = spec_nudge_delta(a, bounds);
    let r2 = spec_nudge(rr, bounds);
    assert(r2.center == spec_add(rr.center, Vec2i { x: d.0 as i64, y: d.1 as i64 }));
    assert(-4 * b <= d.0 <= 4 * b && -4 * b <= d.1 <= 4 * b);
    assert(r2.center.x == rr.center.x + d.0 && r2.center.y == rr.center.y + d.1);
    let a2 = spec_aabb(r2);
    assert(a2.min.x == a.min.x + d.0 && a2.max.x == a.max.x + d.0);
    assert(a2.min.y == a.min.y + d.1 && a2.max.y == a.max.y + d.1);
}


/// A rotation whose fixed-point cosine and sine lie exactly on the unit
/// circle; the quarter turns and the scaled Pythagorean pairs are
/// examples.
pub open spec fn unit_norm(r: Rot2) -> bool {
    r.c * r.c + r.s * r.s == (UNIT as int) * (UNIT as int)
}

/// Rotating one fixed-point step forward and one back recovers a
/// coordinate up to two units: the core of the approximate round trip.
///
/// When the exact products `a` and `b` combine to `x` scaled by the
/// squared unit, truncating each of the three divisions loses less than
/// one unit, so the recovered coordinate lands within two of `x`.
#[verifier::rlimit(100)]
proof fn lemma_round_trip_component(x: int, c: int, s: int, a: int, b: int)
    requires
        c * c + s * s == (UNIT as int) * (UNIT as int),
        -(UNIT as int) <= c <= UNIT as int,
        -(UNIT as int) <= s <= UNIT as int,
        a * c + b * s == x * UNIT * UNIT,
    ensures
        -2 <= tdiv(tdiv(a, UNIT as int) * c + tdiv(b, UNIT as int) * s, UNIT as int) - x <= 2,
{
    let u = UNIT as int;
    let wa = tdiv(a, u);
    let wb = tdiv(b, u);
    crate::num::lemma_tdiv_rem(a, u);
    crate::num::lemma_tdiv_rem(b, u);
    let ra = a - wa * u;
    let rb = b - wb * u;
    let cc = wa * c + wb * s;
    crate::num::lemma_tdiv_rem(cc, u);
    let res = tdiv(cc, u);
    let rc = cc - res * u;
    assert(cc * u == (wa * c) * u + (wb * s) * u) by (nonlinear_arith)
        requires
            cc == wa * c + wb * s,
    ;
    assert((wa * c) * u == (a - ra) * c) by (nonlinear_arith)
        requires
            wa * u == a - ra,
    ;
    assert((wb * s) * u == (b - rb) * s) by (nonlinear_arith)
        requires
            wb * u == b - rb,
    ;
    assert((a - ra) * c == a * c - ra * c) by (nonlinear_arith);
    assert((b - rb) * s == b * s - rb * s) by (nonlinear_arith);
    assert(cc * u == a * c + b * s - ra * c - rb * s);
    assert(cc * u == (res * u + rc) * u) by (nonlinear_arith)
        requires
            cc == res * u + rc,
    ;
    assert((res * u + rc) * u == res * u * u + rc * u) by (nonlinear_arith);
    assert(res * u * u == x * u * u - ra * c - rb * s - rc * u);
    assert(-(u - 1) * u <= ra * c <= (u - 1) * u) by (nonlinear_arith)
        requires
            -(u - 1) <= ra <= u - 1,
            -u <= c <= u,
            u > 0,
    ;
    assert(-(u - 1) * u <= rb * s <= (u - 1) * u) by (nonlinear_arith)
        requires
            -(u - 1) <= rb <= u - 1,
            -u <= s <= u,
            u > 0,
    ;
    assert(-(u - 1) * u <= rc * u <= (u - 1) * u) by (nonlinear_arith)
        requires
            -(u - 1) <= rc <= u - 1,
            u > 0,
    ;
    assert(-2 <= res - x <= 2) by (nonlinear_arith)
        requires
            res * u * u == x * u * u - ra * c - rb * s - rc * u,
            -(u - 1) * u <= ra * c <= (u - 1) * u,
            -(u - 1) * u <= rb * s <= (u - 1) * u,
            -(u - 1) * u <= rc * u <= (u - 1) * u,
            u == 10000,
    ;
}

/// For any rectangle whose rotation lies exactly on the unit circle,
/// reading an anchor's frame-space position back through `local_space`
/// recovers the anchor's offset from the center — `dimension` scaled by
/// the anchor fraction — up to two fixed-point units of rounding per
/// axis.
#[verifier::rlimit(100)]
pub proof fn lemma_local_space_anchor_approx(rr: RotatedRect, av: Vec2i)
    requires
        comfortably_bounded(rr),
        unit_norm(rr.rotation),
        -HALF <= av.x <= HALF,
        -HALF <= av.y <= HALF,
    ensures
        ({
            let got = spec_local_space(rr, spec_rect_anchor(rr, av));
            let want = anchor_dim(av, rr.dimension);
            &&& -2 <= got.x - want.x <= 2
            &&& -2 <= got.y - want.y <= 2
        }),
{
    let b: int = 50_000_000_000;
    let u = UNIT as int;
    let c = rr.rotation.c as int;
    let s = rr.rotation.s as int;
    let d = anchor_dim(av, rr.dimension);
    crate::num::lemma_frac_abs(rr.dimension.x as int, av.x as int, b);
    crate::num::lemma_frac_abs(rr.dimension.y as int, av.y as int, b);
    crate::num::lemma_rotate_arg_bound(d.x as int, d.y as int, c, s, b);
    let aa = d.x * c - d.y * s;
    let bb = d.x * s + d.y * c;
    let w = spec_rotate(d, rr.rotation);
    assert(w.x == tdiv(aa, u) && w.y == tdiv(bb, u));
    let q = spec_add(w, rr.center);
    assert(q == spec_rect_anchor(rr, av));
    let back = spec_sub(q, rr.center);
    assert(back == w);
    crate::num::lemma_rotate_arg_bound(w.x as int, w.y as int, c, -s, 2 * b);
    assert(w.x * c - w.y * (-s) == w.x * c + w.y * s) by (nonlinear_arith);
    assert(w.x * (-s) + w.y * c == w.y * c - w.x * s) by (nonlinear_arith);
    let got = spec_local_space(rr, q);
    assert(got.x == tdiv(w.x * c + w.y * s, u));
    assert(got.y == tdiv(w.y * c - w.x * s, u));
    assert(aa * c + bb * s == d.x * u * u) by (nonlinear_arith)
        requires
            aa == d.x * c - d.y * s,
            bb == d.x * s + d.y * c,
            c * c + s * s == u * u,
    ;
    assert(bb * c == (d.x * s) * c + (d.y * c) * c) by (nonlinear_arith)
        requires
            bb == d.x * s + d.y * c,
    ;
    assert(aa * s == (d.x * c) * s - (d.y * s) * s) by (nonlinear_arith)
        requires
            aa == d.x * c - d.y * s,
    ;
    assert((d.x * s) * c == (d.x * c) * s) by (nonlinear_arith);
    assert((d.y * c) * c + (d.y * s) * s == d.y * (c * c + s * s)) by (nonlinear_arith);
    assert(d.y * (c * c + s * s) == d.y * u * u) by (nonlinear_arith)
        requires
            c * c + s * s == u * u,
    ;
    assert(aa * (-s) == -(aa * s)) by (nonlinear_arith);
    assert(bb * c + aa * (-s) == d.y * u * u);
    assert(c * c + (-s) * (-s) == u * u) by (nonlinear_arith)
        requires
            c * c + s * s == u * u,
    ;
    lemma_round_trip_component(d.x as int, c, s, aa, bb);
    lemma_round_trip_component(d.y as int, c, -s, bb, aa);
    assert(tdiv(bb, u) * c + tdiv(aa, u) * (-s) == w.y * c - w.x * s) by (nonlinear_arith)
        requires
            w.x == tdiv(aa, u),
            w.y == tdiv(bb, u),
    ;
}

} // verus!
