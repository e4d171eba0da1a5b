//! The closed set of layout algorithms and their shared input and output
//! types.

use vstd::prelude::*;

use crate::container::{LayoutControl, LayoutRange};
use crate::geom::Vec2i;
use crate::num::{div_trunc, tdiv, COORD_CAP, HALF, ITEM_CAP, ITEM_COUNT_CAP, UNIT};

verus! {

/// Direction of a layout's run: the axis it advances along and the sense
/// it advances in.
#[derive(Debug, Clone, Copy, PartialEq, Eq, Structural)]
pub enum LayoutDir {
    /// Left to right.
    PosX,
    /// Right to left.
    NegX,
    /// Bottom to top.
    PosY,
    /// Top to bottom.
    NegY,
}

impl LayoutDir {
    /// Whether the direction runs along the x axis.
    pub open spec fn spec_axis_x(self) -> bool {
        self is PosX || self is NegX
    }

    /// Whether the direction runs against its axis.
    pub open spec fn spec_reversed(self) -> bool {
        self is NegX || self is NegY
    }

    pub fn axis_x(self) -> (r: bool)
        ensures
            r == self.spec_axis_x(),
    {
        matches!(self, LayoutDir::PosX | LayoutDir::NegX)
    }

    pub fn reversed(self) -> (r: bool)
        ensures
            r == self.spec_reversed(),
    {
        matches!(self, LayoutDir::NegX | LayoutDir::NegY)
    }
}

/// Which of the three cross-axis lanes an anchor falls into.
#[derive(Debug, Clone, Copy, PartialEq, Eq, PartialOrd, Ord, Structural)]
pub enum Trinary {
    Neg,
    Mid,
    Pos,
}

/// Dead zone around a centered anchor when bucketing into lanes: `0.16` in
/// [`UNIT`] terms.
pub const LANE_EPS: i64 = 1600;

/// The lane an anchor component selects: a dead zone of [`LANE_EPS`]
/// around zero maps to the middle lane.
pub open spec fn spec_bucket(a: int) -> Trinary {
    if a < -(LANE_EPS as int) {
        Trinary::Neg
    } else if a > LANE_EPS as int {
        Trinary::Pos
    } else {
        Trinary::Mid
    }
}

pub fn bucket(a: i64) -> (r: Trinary)
    ensures
        r == spec_bucket(a as int),
{
    if a < -LANE_EPS {
        Trinary::Neg
    } else if a > LANE_EPS {
        Trinary::Pos
    } else {
        Trinary::Mid
    }
}

/// Dimension info of a layout parent.
#[derive(Debug, Clone, Copy, PartialEq, Eq, Structural)]
pub struct LayoutInfo {
    pub dimension: Vec2i,
    pub margin: Vec2i,
}

/// A placement request for one child of a container.
#[derive(Debug, Clone, Copy, PartialEq, Eq, Structural)]
pub struct LayoutItem {
    /// Handle of the item: the caller's stable index for the child.
    pub entity: usize,
    /// Anchor of the item, as fraction numerators over [`UNIT`].
    pub anchor: Vec2i,
    /// Dimension of the item.
    pub dimension: Vec2i,
    /// Special placement behavior of the item.
    pub control: LayoutControl,
}

/// Output of a layout: anchors of the placed children and the computed
/// dimension of the container.
#[derive(Debug, Clone, PartialEq, Eq)]
pub struct LayoutOutput {
    /// For each placed child, its handle and the fraction anchor (over
    /// [`UNIT`]) of the point inside the container where the child's own
    /// anchor sits.
    pub entity_anchors: Vec<(usize, Vec2i)>,
    /// Resolved dimension of the container.
    pub dimension: Vec2i,
    /// Maximum windowing value for the layout: items, rows or pages.
    pub max_count: usize,
}

/// Normalize a raw coordinate `p` against an extent `dim` into a fraction
/// numerator in `[-HALF, HALF]`; a degenerate extent leaves the value
/// untouched.
pub open spec fn spec_norm(p: int, dim: int) -> int {
    if dim > 0 {
        tdiv(p * UNIT, dim) - HALF
    } else {
        p
    }
}

pub(crate) fn norm(p: i64, dim: i64) -> (r: i64)
    requires
        -9_000_000_000_000 <= p <= 9_000_000_000_000,
    ensures
        r == spec_norm(p as int, dim as int),
{
    if dim > 0 {
        proof {
            crate::num::lemma_mul_bound(p as int, UNIT as int, 9_000_000_000_000int,
                UNIT as int);
            crate::geom::lemma_tdiv_shrinks((p as int) * (UNIT as int), dim as int);
        }
        div_trunc(p * UNIT, dim) - HALF
    } else {
        p
    }
}

impl LayoutOutput {
    /// Divide every anchor by the output dimension and recenter, turning
    /// raw positions into fraction anchors. An axis with a degenerate
    /// dimension is left unscaled.
    pub fn normalized(self) -> (r: LayoutOutput)
        requires
            forall|j: int|
                0 <= j < self.entity_anchors@.len() ==> (
                #[trigger] self.entity_anchors@[j].1).in_norm_range(),
        ensures
            r.dimension == self.dimension,
            r.max_count == self.max_count,
            r.entity_anchors@.len() == self.entity_anchors@.len(),
            forall|j: int|
                0 <= j < self.entity_anchors@.len() ==> #[trigger] r.entity_anchors@[j]
                    == (
                self.entity_anchors@[j].0,
                Vec2i {
                    x: spec_norm(self.entity_anchors@[j].1.x as int, self.dimension.x as int)
                        as i64,
                    y: spec_norm(self.entity_anchors@[j].1.y as int, self.dimension.y as int)
                        as i64,
                },
                ),
    {
        let mut out: Vec<(usize, Vec2i)> = Vec::new();
        let n = self.entity_anchors.len();
        let mut j: usize = 0;
        while j < n
            invariant
                n == self.entity_anchors@.len(),
                j <= n,
                out@.len() == j,
                forall|k: int|
                    0 <= k < self.entity_anchors@.len() ==> (
                    #[trigger] self.entity_anchors@[k].1).in_norm_range(),
                forall|k: int|
                    0 <= k < j ==> #[trigger] out@[k] == (
                    self.entity_anchors@[k].0,
                    Vec2i {
                        x: spec_norm(self.entity_anchors@[k].1.x as int, self.dimension.x as int)
                            as i64,
                        y: spec_norm(self.entity_anchors@[k].1.y as int, self.dimension.y as int)
                            as i64,
                    },
                    ),
            decreases n - j,
        {
            let (e, p) = self.entity_anchors[j];
            let v = Vec2i { x: norm(p.x, self.dimension.x), y: norm(p.y, self.dimension.y) };
            out.push((e, v));
            j = j + 1;
        }
        LayoutOutput { entity_anchors: out, dimension: self.dimension, max_count: self.max_count }
    }

    /// Replace the maximum windowing value.
    pub fn with_max(self, max: usize) -> (r: LayoutOutput)
        ensures
            r == (LayoutOutput { max_count: max, ..self }),
    {
        LayoutOutput { max_count: max, ..self }
    }
}

impl Vec2i {
    /// Loose bound on raw anchor positions handed to normalization.
    pub open spec fn in_norm_range(self) -> bool {
        &&& -4 * (COORD_CAP as int) <= self.x <= 4 * (COORD_CAP as int)
        &&& -4 * (COORD_CAP as int) <= self.y <= 4 * (COORD_CAP as int)
    }
}

/// Items a layout can consume: anchors are well-formed fractions and
/// dimensions stay within the per-item bound.
pub open spec fn items_wf(items: Seq<LayoutItem>) -> bool {
    &&& items.len() <= ITEM_COUNT_CAP
    &&& forall|j: int|
        0 <= j < items.len() ==> {
            let it = #[trigger] items[j];
            &&& -(ITEM_CAP as int) <= it.dimension.x <= ITEM_CAP
            &&& -(ITEM_CAP as int) <= it.dimension.y <= ITEM_CAP
            &&& -HALF <= it.anchor.x <= HALF
            &&& -HALF <= it.anchor.y <= HALF
        }
}

/// Margins a layout can consume.
pub open spec fn margin_wf(m: Vec2i) -> bool {
    &&& -(ITEM_CAP as int) <= m.x <= ITEM_CAP
    &&& -(ITEM_CAP as int) <= m.y <= ITEM_CAP
}

/// A dynamically dimensioned layout with size equal to the maximum of its
/// children, and no further behavior.
#[derive(Debug, Clone, Copy, PartialEq, Eq, Structural)]
pub struct BoundsLayout {
    /// If set, use the parent's dimension on that axis.
    pub fixed_x: bool,
    pub fixed_y: bool,
    /// Minimum bounds.
    pub min: Vec2i,
    /// Maximum bounds.
    pub max: Vec2i,
}

impl BoundsLayout {
    /// Ignore constraints and use the layout as padding only.
    pub fn padding() -> (r: BoundsLayout)
        ensures
            r == (BoundsLayout {
                fixed_x: false,
                fixed_y: false,
                min: Vec2i { x: 0, y: 0 },
                max: Vec2i { x: COORD_CAP as i64, y: COORD_CAP as i64 },
            }),
    {
        BoundsLayout {
            fixed_x: false,
            fixed_y: false,
            min: Vec2i { x: 0, y: 0 },
            max: Vec2i { x: COORD_CAP, y: COORD_CAP },
        }
    }

    /// Constrain from above only.
    pub fn from_max(max: Vec2i) -> (r: BoundsLayout)
        ensures
            r == (BoundsLayout { max, ..BoundsLayout::spec_padding() }),
    {
        let mut r = BoundsLayout::padding();
        r.max = max;
        r
    }

    /// Constrain from below only.
    pub fn from_min(min: Vec2i) -> (r: BoundsLayout)
        ensures
            r == (BoundsLayout { min, ..BoundsLayout::spec_padding() }),
    {
        let mut r = BoundsLayout::padding();
        r.min = min;
        r
    }

    /// Constrain the x axis and pin the y axis to the parent.
    pub fn x_bounds(min: i64, max: i64) -> (r: BoundsLayout)
        ensures
            r == (BoundsLayout {
                fixed_x: false,
                fixed_y: true,
                min: Vec2i { x: min, y: min },
                max: Vec2i { x: max, y: max },
            }),
    {
        BoundsLayout {
            fixed_x: false,
            fixed_y: true,
            min: Vec2i { x: min, y: min },
            max: Vec2i { x: max, y: max },
        }
    }

    /// Constrain the y axis and pin the x axis to the parent.
    pub fn y_bounds(min: i64, max: i64) -> (r: BoundsLayout)
        ensures
            r == (BoundsLayout {
                fixed_x: true,
                fixed_y: false,
                min: Vec2i { x: min, y: min },
                max: Vec2i { x: max, y: max },
            }),
    {
        BoundsLayout {
            fixed_x: true,
            fixed_y: false,
            min: Vec2i { x: min, y: min },
            max: Vec2i { x: max, y: max },
        }
    }

    pub open spec fn spec_padding() -> BoundsLayout {
        BoundsLayout {
            fixed_x: false,
            fixed_y: false,
            min: Vec2i { x: 0, y: 0 },
            max: Vec2i { x: COORD_CAP as i64, y: COORD_CAP as i64 },
        }
    }
}

impl Default for BoundsLayout {
    fn default() -> (r: Self)
        ensures
            r == BoundsLayout::spec_padding(),
    {
        BoundsLayout::padding()
    }
}

/// A size-agnostic mono-directional run of items.
#[derive(Debug, Clone, Copy, PartialEq, Eq, Structural)]
pub struct StackLayout {
    pub direction: LayoutDir,
}

impl StackLayout {
    pub fn new(direction: LayoutDir) -> (r: StackLayout)
        ensures
            r == (StackLayout { direction }),
    {
        StackLayout { direction }
    }

    /// A left-to-right stack.
    pub fn hstack() -> (r: StackLayout)
        ensures
            r == (StackLayout { direction: LayoutDir::PosX }),
    {
        StackLayout { direction: LayoutDir::PosX }
    }

    /// A top-to-bottom stack.
    pub fn vstack() -> (r: StackLayout)
        ensures
            r == (StackLayout { direction: LayoutDir::NegY }),
    {
        StackLayout { direction: LayoutDir::NegY }
    }
}

impl Default for StackLayout {
    fn default() -> (r: Self)
        ensures
            r == (StackLayout { direction: LayoutDir::PosX }),
    {
        StackLayout { direction: LayoutDir::PosX }
    }
}

/// A fixed-extent mono-directional run of items.
#[derive(Debug, Clone, Copy, PartialEq, Eq, Structural)]
pub struct SpanLayout {
    pub direction: LayoutDir,
    /// Redistribute leftover space between items instead of leaving
    /// trailing room.
    pub stretch: bool,
}

impl SpanLayout {
    pub fn new(direction: LayoutDir) -> (r: SpanLayout)
        ensures
            r == (SpanLayout { direction, stretch: false }),
    {
        SpanLayout { direction, stretch: false }
    }

    /// A left-to-right span with fixed extent.
    pub fn hbox() -> (r: SpanLayout)
        ensures
            r == (SpanLayout { direction: LayoutDir::PosX, stretch: false }),
    {
        SpanLayout { direction: LayoutDir::PosX, stretch: false }
    }

    /// A top-to-bottom span with fixed extent.
    pub fn vbox() -> (r: SpanLayout)
        ensures
            r == (SpanLayout { direction: LayoutDir::NegY, stretch: false }),
    {
        SpanLayout { direction: LayoutDir::NegY, stretch: false }
    }

    pub fn with_stretch(self) -> (r: SpanLayout)
        ensures
            r == (SpanLayout { stretch: true, ..self }),
    {
        SpanLayout { stretch: true, ..self }
    }
}

impl Default for SpanLayout {
    fn default() -> (r: Self)
        ensures
            r == (SpanLayout { direction: LayoutDir::PosX, stretch: false }),
    {
        SpanLayout { direction: LayoutDir::PosX, stretch: false }
    }
}

/// Only a horizontal run paired with a vertical line advance is a valid
/// paragraph configuration.
pub open spec fn dir_pair_valid(main: LayoutDir, secondary: LayoutDir) -> bool {
    main.spec_axis_x() && !secondary.spec_axis_x()
}

/// A multi-line span: fills the primary axis greedily, then advances along
/// the secondary axis, like the layout of a paragraph of text.
#[derive(Debug, Clone, Copy, PartialEq, Eq, Structural)]
pub struct ParagraphLayout {
    pub direction: LayoutDir,
    pub secondary: LayoutDir,
    /// Redistribute leftover space inside every line.
    pub stretch: bool,
}

impl ParagraphLayout {
    pub fn new(direction: LayoutDir, secondary: LayoutDir) -> (r: ParagraphLayout)
        requires
            dir_pair_valid(direction, secondary),
        ensures
            r == (ParagraphLayout { direction, secondary, stretch: false }),
    {
        ParagraphLayout { direction, secondary, stretch: false }
    }

    /// A left-to-right, top-to-bottom paragraph.
    pub fn paragraph() -> (r: ParagraphLayout)
        ensures
            r == (ParagraphLayout {
                direction: LayoutDir::PosX,
                secondary: LayoutDir::NegY,
                stretch: false,
            }),
    {
        ParagraphLayout { direction: LayoutDir::PosX, secondary: LayoutDir::NegY, stretch: false }
    }

    pub fn with_stretch(self) -> (r: ParagraphLayout)
        ensures
            r == (ParagraphLayout { stretch: true, ..self }),
    {
        ParagraphLayout { stretch: true, ..self }
    }
}

impl Default for ParagraphLayout {
    fn default() -> (r: Self)
        ensures
            r == (ParagraphLayout {
                direction: LayoutDir::PosX,
                secondary: LayoutDir::NegY,
                stretch: false,
            }),
    {
        ParagraphLayout::paragraph()
    }
}

/// The closed set of layouts, dispatched by a single match.
#[derive(Debug, Clone, Copy, PartialEq, Eq, Structural)]
pub enum LayoutObject {
    Bounds(BoundsLayout),
    Stack(StackLayout),
    Span(SpanLayout),
    Paragraph(ParagraphLayout),
}

impl Default for LayoutObject {
    fn default() -> (r: Self)
        ensures
            r == LayoutObject::Bounds(BoundsLayout::spec_padding()),
    {
        LayoutObject::Bounds(BoundsLayout::padding())
    }
}

impl LayoutObject {
    /// The layout's output is the same whatever the parent's dimension.
    pub fn is_size_agnostic(&self) -> (r: bool)
        ensures
            r == (*self is Stack),
    {
        matches!(self, LayoutObject::Stack(_))
    }
}

} // verus!
