//! The 2D transform descriptor a node carries, and its suggested size.

use vstd::prelude::*;

use crate::geom::{Rot2, Vec2i};
use crate::num::{COORD_CAP, FRAC_CAP, HALF, UNIT};
use crate::rect::Anchor;

verus! {

/// The declarative 2D transform descriptor of a node.
#[derive(Debug, Clone, Copy, PartialEq, Eq, Structural)]
pub struct Transform2D {
    /// The anchor matched on the child side.
    ///
    /// With a zero offset, `anchor` on this rectangle and `parent_anchor`
    /// on the parent rectangle overlap.
    pub anchor: Anchor,
    /// The anchor matched on the parent side; the inherit sentinel falls
    /// back to `anchor`.
    pub parent_anchor: Anchor,
    /// Center of rotation and scale, and position of the written local
    /// transform; the inherit sentinel falls back to `anchor`.
    pub center: Anchor,
    /// Offset from the parent's anchor.
    pub offset: Vec2i,
    /// Z depth.
    pub z: i64,
    /// Rotation around `center`.
    pub rotation: Rot2,
    /// Scaling around `center`, a fraction pair over [`UNIT`].
    pub scale: Vec2i,
}

impl Transform2D {
    /// A meaningful descriptor: anchors are well-formed and the child
    /// anchor is concrete, the offset lies in the coordinate range, the
    /// rotation and scale are well-formed fractions.
    pub open spec fn wf(self) -> bool {
        &&& self.anchor.wf()
        &&& !(self.anchor is Inherit)
        &&& self.parent_anchor.wf()
        &&& self.center.wf()
        &&& self.offset.bounded()
        &&& -COORD_CAP <= self.z <= COORD_CAP
        &&& self.rotation.wf()
        &&& self.scale.frac_bounded()
    }

    pub open spec fn spec_get_center(self) -> Vec2i {
        self.center.spec_or(self.anchor).spec_vec()
    }

    pub open spec fn spec_get_parent_anchor(self) -> Vec2i {
        self.parent_anchor.spec_or(self.anchor).spec_vec()
    }

    /// The center of rotation and scale, falling back to the anchor.
    pub fn get_center(&self) -> (r: Vec2i)
        requires
            !(self.anchor is Inherit),
        ensures
            r == self.spec_get_center(),
            self.wf() ==> -HALF <= r.x <= HALF && -HALF <= r.y <= HALF,
    {
        self.center.or(self.anchor).as_vec()
    }

    /// The anchor matched on the parent side, falling back to the
    /// child-side anchor.
    pub fn get_parent_anchor(&self) -> (r: Vec2i)
        requires
            !(self.anchor is Inherit),
        ensures
            r == self.spec_get_parent_anchor(),
            self.wf() ==> -HALF <= r.x <= HALF && -HALF <= r.y <= HALF,
    {
        self.parent_anchor.or(self.anchor).as_vec()
    }

    /// The identity descriptor: centered, no offset, no rotation, unit
    /// scale, a small positive z step.
    pub fn identity() -> (r: Transform2D)
        ensures
            r == Transform2D::spec_identity(),
            r.wf(),
    {
        Transform2D {
            anchor: Anchor::At(Vec2i { x: 0, y: 0 }),
            parent_anchor: Anchor::Inherit,
            center: Anchor::At(Vec2i { x: 0, y: 0 }),
            offset: Vec2i { x: 0, y: 0 },
            rotation: Rot2 { c: UNIT, s: 0 },
            z: 1,
            scale: Vec2i { x: UNIT, y: UNIT },
        }
    }

    pub open spec fn spec_identity() -> Transform2D {
        Transform2D {
            anchor: Anchor::At(Vec2i { x: 0, y: 0 }),
            parent_anchor: Anchor::Inherit,
            center: Anchor::At(Vec2i { x: 0, y: 0 }),
            offset: Vec2i { x: 0, y: 0 },
            rotation: Rot2 { c: UNIT as i64, s: 0 },
            z: 1,
            scale: Vec2i { x: UNIT as i64, y: UNIT as i64 },
        }
    }

    /// Set the offset.
    pub fn with_offset(self, offset: Vec2i) -> (r: Transform2D)
        ensures
            r == (Transform2D { offset, ..self }),
    {
        Transform2D { offset, ..self }
    }

    /// Set the rotation.
    pub fn with_rotation(self, rot: Rot2) -> (r: Transform2D)
        ensures
            r == (Transform2D { rotation: rot, ..self }),
    {
        Transform2D { rotation: rot, ..self }
    }

    /// Set the scale.
    pub fn with_scale(self, scale: Vec2i) -> (r: Transform2D)
        ensures
            r == (Transform2D { scale, ..self }),
    {
        Transform2D { scale, ..self }
    }

    /// Set the z depth.
    pub fn with_z(self, z: i64) -> (r: Transform2D)
        ensures
            r == (Transform2D { z, ..self }),
    {
        Transform2D { z, ..self }
    }

    /// Set the child-side anchor.
    pub fn with_anchor(self, anchor: Anchor) -> (r: Transform2D)
        ensures
            r == (Transform2D { anchor, ..self }),
    {
        Transform2D { anchor, ..self }
    }

    /// Set the parent-side anchor.
    pub fn with_parent_anchor(self, anchor: Anchor) -> (r: Transform2D)
        ensures
            r == (Transform2D { parent_anchor: anchor, ..self }),
    {
        Transform2D { parent_anchor: anchor, ..self }
    }

    /// Set the center of rotation and scale.
    pub fn with_center(self, center: Anchor) -> (r: Transform2D)
        ensures
            r == (Transform2D { center, ..self }),
    {
        Transform2D { center, ..self }
    }
}

impl Default for Transform2D {
    fn default() -> (r: Self)
        ensures
            r == Transform2D::spec_identity(),
    {
        Transform2D::identity()
    }
}

/// Suggested dimension of a node; a layout may override it.
#[derive(Debug, Clone, Copy, PartialEq, Eq, Structural, Default)]
pub struct Dimension(pub Vec2i);

impl Dimension {
    pub fn zero() -> (r: Dimension)
        ensures
            r == Dimension(Vec2i { x: 0, y: 0 }),
    {
        Dimension(Vec2i { x: 0, y: 0 })
    }
}

/// How a node's dimension synchronizes with an externally measured size,
/// such as a sprite's.
#[derive(Debug, Clone, Copy, PartialEq, Eq, Structural)]
pub enum SyncDimension {
    /// Do not transfer the dimension.
    Keep,
    /// Set the external size from the node's dimension.
    FromDimension,
    /// Set the node's dimension from the external size.
    ToDimension,
    /// Fit the external size inside the dimension, keeping the measured
    /// aspect ratio.
    FromAspectDimension,
    /// Derive the external size from the dimension's x extent, keeping
    /// the measured aspect ratio.
    FromAspectDimensionX,
    /// Derive the external size from the dimension's y extent, keeping
    /// the measured aspect ratio.
    FromAspectDimensionY,
}

impl Default for SyncDimension {
    fn default() -> (r: Self)
        ensures
            r == SyncDimension::Keep,
    {
        SyncDimension::Keep
    }
}

} // verus!
