//! The frame: a root node that creates an area to place child entities.

use vstd::prelude::*;

use crate::geom::{Rect2i, Vec2i};
use crate::num::{COORD_CAP, HALF};
use crate::rect::{anchor_dim, Anchor};

verus! {

/// A root coordinate space bounding a subtree of positioned nodes.
#[derive(Debug, Clone, Copy, PartialEq, Eq, Structural)]
pub struct RectrayFrame {
    /// Size of the frame.
    pub dimension: Vec2i,
    /// The origin point expressed as an anchor fraction pair.
    pub at: Vec2i,
    /// Offset in the parent's local z axis.
    pub z: i64,
    /// If false, picking is disabled for all children.
    pub pickable: bool,
}

impl RectrayFrame {
    /// A meaningful frame: the dimension lies in the coordinate range and
    /// the origin anchor is a well-formed fraction pair.
    pub open spec fn wf(self) -> bool {
        &&& self.dimension.bounded()
        &&& -HALF <= self.at.x <= HALF
        &&& -HALF <= self.at.y <= HALF
        &&& -COORD_CAP <= self.z <= COORD_CAP
    }

    pub fn from_dimension(dimension: Vec2i) -> (r: RectrayFrame)
        ensures
            r == (RectrayFrame { dimension, at: Vec2i { x: 0, y: 0 }, z: 0, pickable: true }),
    {
        RectrayFrame { dimension, at: Vec2i { x: 0, y: 0 }, z: 0, pickable: true }
    }

    pub fn from_anchor_dimension(anchor: Anchor, dimension: Vec2i) -> (r: RectrayFrame)
        requires
            !(anchor is Inherit),
        ensures
            r == (RectrayFrame { dimension, at: anchor.spec_vec(), z: 0, pickable: true }),
    {
        RectrayFrame { dimension, at: anchor.as_vec(), z: 0, pickable: true }
    }

    pub fn with_z(self, z: i64) -> (r: RectrayFrame)
        ensures
            r == (RectrayFrame { z, ..self }),
    {
        RectrayFrame { z, ..self }
    }

    /// The bounding rectangle of the frame: its dimension centered so
    /// that the origin anchor sits at zero.
    pub fn rect(&self) -> (r: Rect2i)
        requires
            self.wf(),
        ensures
            r == self.spec_rect(),
            r.min.bounded(),
            r.max.bounded(),
    {
        let neg_at = Vec2i { x: -self.at.x, y: -self.at.y };
        let center = crate::rect::mul_anchor_dim(neg_at, self.dimension);
        let half = self.dimension.half();
        Rect2i { min: center.sub(half), max: center.add(half) }
    }

    pub open spec fn spec_rect(self) -> Rect2i {
        let center = anchor_dim(
            Vec2i { x: (-self.at.x) as i64, y: (-self.at.y) as i64 },
            self.dimension,
        );
        let half = crate::geom::spec_half(self.dimension);
        Rect2i {
            min: crate::geom::spec_sub(center, half),
            max: crate::geom::spec_add(center, half),
        }
    }
}

impl Default for RectrayFrame {
    fn default() -> (r: Self)
        ensures
            r == (RectrayFrame {
                dimension: Vec2i { x: 0, y: 0 },
                at: Vec2i { x: 0, y: 0 },
                z: 0,
                pickable: true,
            }),
    {
        RectrayFrame {
            dimension: Vec2i { x: 0, y: 0 },
            at: Vec2i { x: 0, y: 0 },
            z: 0,
            pickable: true,
        }
    }
}

} // verus!
