//! Containers and the range windowing policy that picks the visible subset
//! of a container's children.

use vstd::prelude::*;

use crate::geom::Vec2i;
use crate::layouts::{LayoutInfo, LayoutItem, LayoutObject, LayoutOutput};
use crate::num::{div_trunc, tdiv, COORD_CAP, UNIT};

verus! {

/// Range of content displayed in a layout; the default is `All`.
///
/// What a unit means depends on the layout: items for stacks and spans,
/// rows for paragraphs.
#[derive(Debug, Clone, Copy, PartialEq, Eq, Structural)]
pub enum LayoutRange {
    All,
    /// Fixed-size window; `min` is clamped so that `min + len <= total`.
    Bounded { min: usize, len: usize },
    /// Window `[min, min + len)`; `min` may range up to `total - 1`, so the
    /// window shrinks near the end.
    Capped { min: usize, len: usize },
    /// Page-based window selecting block `step` of size `len`; `step` is
    /// clamped to `total / len`.
    Stepped { step: usize, len: usize },
}

impl Default for LayoutRange {
    fn default() -> (r: Self)
        ensures
            r == LayoutRange::All,
    {
        LayoutRange::All
    }
}

/// A range is meaningful if a `Stepped` page size is nonzero and window
/// arithmetic stays within the coordinate saturation bound.
pub open spec fn range_wf(r: LayoutRange) -> bool {
    match r {
        LayoutRange::All => true,
        LayoutRange::Bounded { min, len } => min <= COORD_CAP && len <= COORD_CAP,
        LayoutRange::Capped { min, len } => min <= COORD_CAP && len <= COORD_CAP,
        LayoutRange::Stepped { step, len } => step <= COORD_CAP && len <= COORD_CAP && len > 0,
    }
}

/// The range after clamping against `total` logical units.
pub open spec fn spec_resolve(r: LayoutRange, total: usize) -> LayoutRange {
    match r {
        LayoutRange::All => LayoutRange::All,
        LayoutRange::Bounded { min, len } => {
            let cap = if total >= len {
                (total - len) as usize
            } else {
                0usize
            };
            LayoutRange::Bounded { min: if min < cap { min } else { cap }, len }
        },
        LayoutRange::Capped { min, len } => {
            let cap = if total >= 1 {
                (total - 1) as usize
            } else {
                0usize
            };
            LayoutRange::Capped { min: if min < cap { min } else { cap }, len }
        },
        LayoutRange::Stepped { step, len } => {
            let cap = ((total as int) / (len as int)) as usize;
            LayoutRange::Stepped { step: if step < cap { step } else { cap }, len }
        },
    }
}

/// The concrete index interval `[start, end)` selected by a range.
pub open spec fn spec_to_range(r: LayoutRange, total: usize) -> (usize, usize) {
    match r {
        LayoutRange::All => (0usize, total),
        LayoutRange::Bounded { min, len } => (
            min,
            if min + len < total {
                (min + len) as usize
            } else {
                total
            },
        ),
        LayoutRange::Capped { min, len } => (
            min,
            if min + len < total {
                (min + len) as usize
            } else {
                total
            },
        ),
        LayoutRange::Stepped { step, len } => (
            (step * len) as usize,
            if step * len + len < total {
                (step * len + len) as usize
            } else {
                total
            },
        ),
    }
}

impl LayoutRange {
    /// Whether the range selects everything.
    pub fn is_unbounded(&self) -> (r: bool)
        ensures
            r == (*self is All),
    {
        matches!(self, LayoutRange::All)
    }

    /// Clamp the window's position so it stays meaningful for `total`
    /// logical units. Misconfiguration is corrected, never rejected.
    pub fn resolve(&mut self, total: usize)
        requires
            *old(self) is Stepped ==> range_wf(*old(self)),
        ensures
            *final(self) == spec_resolve(*old(self), total),
    {
        match self {
            LayoutRange::All => (),
            LayoutRange::Bounded { min, len } => {
                let cap = if total >= *len {
                    total - *len
                } else {
                    0
                };
                if *min > cap {
                    *min = cap;
                }
            },
            LayoutRange::Capped { min, len: _ } => {
                let cap = if total >= 1 {
                    total - 1
                } else {
                    0
                };
                if *min > cap {
                    *min = cap;
                }
            },
            LayoutRange::Stepped { step, len } => {
                let cap = total / *len;
                if *step > cap {
                    *step = cap;
                }
            },
        }
    }

    /// The concrete index interval selected, clipped to `[0, total)` on the
    /// right. `resolve(total)` is expected to have run first; an unresolved
    /// window is clipped, not rejected.
    pub fn to_range(self, total: usize) -> (r: (usize, usize))
        requires
            to_range_pre(self),
        ensures
            r == spec_to_range(self, total),
            r.0 <= r.1 <= total || r.0 > total,
    {
        match self {
            LayoutRange::All => (0, total),
            LayoutRange::Bounded { min, len } => (
                min,
                if len < total && min < total - len {
                    min + len
                } else {
                    total
                },
            ),
            LayoutRange::Capped { min, len } => (
                min,
                if len < total && min < total - len {
                    min + len
                } else {
                    total
                },
            ),
            LayoutRange::Stepped { step, len } => {
                let start = step * len;
                (
                    start,
                    if len < total && start < total - len {
                        start + len
                    } else {
                        total
                    },
                )
            },
        }
    }
}

/// The window arithmetic of `to_range` fits the machine's index type.
pub open spec fn to_range_pre(r: LayoutRange) -> bool {
    match r {
        LayoutRange::All => true,
        LayoutRange::Bounded { min, len } => true,
        LayoutRange::Capped { min, len } => true,
        LayoutRange::Stepped { step, len } => step * len <= usize::MAX,
    }
}

/// After `resolve(total)`, the selected interval always lies inside
/// `[0, total]`, for every `total` and every meaningful range.
pub proof fn lemma_resolved_range_in_bounds(r: LayoutRange, total: usize)
    requires
        r is Stepped ==> range_wf(r),
    ensures
        to_range_pre(spec_resolve(r, total)),
        ({
            let (start, end) = spec_to_range(spec_resolve(r, total), total);
            start <= end <= total
        }),
{
    let rr = spec_resolve(r, total);
    let (start, end) = spec_to_range(rr, total);
    match rr {
        LayoutRange::All => {},
        LayoutRange::Bounded { min, len } => {
            assert(min <= total);
        },
        LayoutRange::Capped { min, len } => {
            assert(min <= total);
        },
        LayoutRange::Stepped { step, len } => {
            let q = (total as int) / (len as int);
            assert(q * len <= total && q >= 0) by (nonlinear_arith)
                requires
                    len > 0,
                    total >= 0,
                    q == (total as int) / (len as int),
            ;
            assert(step <= q);
            assert(step * len <= q * len) by (nonlinear_arith)
                requires
                    0 <= step <= q,
                    len >= 0,
            ;
            assert(step * len <= total);
        },
    }
}

/// Causes special behavior when an item sits in a [`Container`].
#[derive(Debug, Clone, Copy, PartialEq, Eq, Structural)]
pub enum LayoutControl {
    /// No special behavior.
    Normal,
    /// Ignore the layout and use plain anchor based positioning.
    IgnoreLayout,
    /// Break the line in a container after placing this item.
    Linebreak,
    /// Break the line in a container without taking up space; the item's
    /// dimension still contributes to the line height. The item itself is
    /// discarded and its children are not updated.
    LinebreakMarker,
    /// Spacing that takes up room between placed items but is trimmed at
    /// the beginning and end of each row. The item itself is discarded and
    /// its children are not updated.
    WhiteSpace,
}

impl Default for LayoutControl {
    fn default() -> (r: Self)
        ensures
            r == LayoutControl::Normal,
    {
        LayoutControl::Normal
    }
}

impl LayoutControl {
    /// Either [`LayoutControl::Linebreak`] or
    /// [`LayoutControl::LinebreakMarker`].
    pub fn is_linebreak(&self) -> (r: bool)
        ensures
            r == (*self is Linebreak || *self is LinebreakMarker),
    {
        matches!(self, LayoutControl::Linebreak | LayoutControl::LinebreakMarker)
    }
}

/// A configurable container that lays out an ordered sequence of children.
#[derive(Debug, Clone, Copy, PartialEq, Eq, Structural)]
pub struct Container {
    /// Layout of the container.
    pub layout: LayoutObject,
    /// Margin between cells, always along the X and Y axes regardless of
    /// the layout's directions.
    pub margin: Vec2i,
    /// Padding around the container.
    pub padding: Vec2i,
    /// If set, only display a subset of children.
    pub range: LayoutRange,
    /// A maximum computed by the last placement: number of items, rows or
    /// pages, depending on the layout.
    pub maximum: usize,
}

impl Container {
    /// Place the ordered children in the container's layout, resolving
    /// the visible range against the layout's logical total.
    pub fn place(&mut self, parent: &LayoutInfo, entities: &Vec<LayoutItem>) -> (out:
        LayoutOutput)
        requires
            crate::layouts::items_wf(entities@),
            crate::layouts::margin_wf(parent.margin),
            parent.dimension.bounded(),
            old(self).range is Stepped ==> range_wf(old(self).range),
        ensures
            *final(self) == (Container {
                range: crate::span::spec_place_range(old(self).layout, entities@, *parent,
                    old(self).range),
                ..*old(self)
            }),
            ({
                let m = crate::span::spec_place_out(old(self).layout, entities@, *parent,
                    old(self).range);
                &&& crate::span::anchors_match(out.entity_anchors@, m.0)
                &&& out.dimension.x == m.1.0
                &&& out.dimension.y == m.1.1
                &&& out.max_count == m.2
            }),
    {
        let lay = self.layout;
        lay.place(parent, entities, &mut self.range)
    }

    pub open spec fn wf(self) -> bool {
        &&& range_wf(self.range)
        &&& self.maximum <= COORD_CAP
    }

    /// The scroll factor the current window stands at, as a fraction
    /// numerator over [`UNIT`] in `[0, UNIT]`. The denominator depends on
    /// the policy: remaining positions for `Bounded`, the total for
    /// `Capped`, the page count for `Stepped`.
    pub fn get_fac(&self) -> (r: i64)
        requires
            self.wf(),
        ensures
            r == spec_get_fac(*self),
            0 <= r <= UNIT,
    {
        let raw: i64 = match self.range {
            LayoutRange::All => 0,
            LayoutRange::Bounded { min, len } => {
                if self.maximum <= len {
                    0
                } else {
                    proof {
                        crate::num::lemma_mul_bound(min as int, UNIT as int, COORD_CAP as int,
                            UNIT as int);
                    }
                    div_trunc((min as i64) * UNIT, (self.maximum - len) as i64)
                }
            },
            LayoutRange::Capped { min, len: _ } => {
                if self.maximum == 0 {
                    0
                } else {
                    proof {
                        crate::num::lemma_mul_bound(min as int, UNIT as int, COORD_CAP as int,
                            UNIT as int);
                    }
                    div_trunc((min as i64) * UNIT, self.maximum as i64)
                }
            },
            LayoutRange::Stepped { step, len } => {
                let count = self.maximum / len;
                if count == 0 {
                    0
                } else {
                    proof {
                        crate::num::lemma_mul_bound(step as int, UNIT as int, COORD_CAP as int,
                            UNIT as int);
                    }
                    div_trunc((step as i64) * UNIT, count as i64)
                }
            },
        };
        if raw < 0 {
            0
        } else if raw > UNIT {
            UNIT
        } else {
            raw
        }
    }

    /// Move the window to the position described by a scroll factor, a
    /// fraction numerator over [`UNIT`] (clamped into `[0, UNIT]`).
    pub fn set_fac(&mut self, fac: i64)
        requires
            old(self).wf(),
        ensures
            *final(self) == spec_set_fac(*old(self), fac as int),
    {
        let fac = if fac < 0 {
            0
        } else if fac > UNIT {
            UNIT
        } else {
            fac
        };
        let maximum = self.maximum;
        match &mut self.range {
            LayoutRange::All => (),
            LayoutRange::Bounded { min, len } => {
                if maximum > *len {
                    proof {
                        crate::num::lemma_mul_bound((maximum - *len) as int, fac as int,
                            COORD_CAP as int, UNIT as int);
                        crate::geom::lemma_tdiv_shrinks(((maximum - *len) as int) * (fac as int),
                            UNIT as int);
                        crate::num::lemma_mul_bound((maximum - *len) as int, 1, COORD_CAP as int,
                            UNIT as int);
                    }
                    *min = (div_trunc(((maximum - *len) as i64) * fac, UNIT)) as usize;
                } else {
                    *min = 0;
                }
            },
            LayoutRange::Capped { min, len: _ } => {
                if maximum == 0 {
                    *min = 0;
                } else {
                    proof {
                        crate::num::lemma_mul_bound(maximum as int, fac as int, COORD_CAP as int,
                            UNIT as int);
                        crate::geom::lemma_tdiv_shrinks((maximum as int) * (fac as int),
                            UNIT as int);
                        crate::num::lemma_mul_bound(maximum as int, 1, COORD_CAP as int,
                            UNIT as int);
                    }
                    *min = (div_trunc((maximum as i64) * fac, UNIT)) as usize;
                }
            },
            LayoutRange::Stepped { step, len } => {
                let count = maximum / *len;
                if count == 0 {
                    *step = 0;
                } else {
                    proof {
                        crate::num::lemma_mul_bound(count as int, fac as int, COORD_CAP as int,
                            UNIT as int);
                        crate::geom::lemma_tdiv_shrinks((count as int) * (fac as int),
                            UNIT as int);
                        crate::num::lemma_mul_bound(count as int, 1, COORD_CAP as int,
                            UNIT as int);
                    }
                    *step = (div_trunc((count as i64) * fac, UNIT)) as usize;
                }
            },
        }
    }

    /// Step the window back by one unit; clamping happens at the next
    /// `resolve`.
    pub fn decrement(&mut self)
        ensures
            *final(self) == spec_step_range(*old(self), -1),
    {
        match &mut self.range {
            LayoutRange::All => (),
            LayoutRange::Bounded { min, .. } => {
                if *min > 0 {
                    *min = *min - 1;
                }
            },
            LayoutRange::Capped { min, .. } => {
                if *min > 0 {
                    *min = *min - 1;
                }
            },
            LayoutRange::Stepped { step, .. } => {
                if *step > 0 {
                    *step = *step - 1;
                }
            },
        }
    }

    /// Step the window forward by one unit; clamping happens at the next
    /// `resolve`.
    pub fn increment(&mut self)
        requires
            range_position(old(self).range) < usize::MAX,
        ensures
            *final(self) == spec_step_range(*old(self), 1),
    {
        match &mut self.range {
            LayoutRange::All => (),
            LayoutRange::Bounded { min, .. } => {
                *min = *min + 1;
            },
            LayoutRange::Capped { min, .. } => {
                *min = *min + 1;
            },
            LayoutRange::Stepped { step, .. } => {
                *step = *step + 1;
            },
        }
    }
}

/// The window's position: `min` for `Bounded` and `Capped`, `step` for
/// `Stepped`, zero for `All`.
pub open spec fn range_position(r: LayoutRange) -> usize {
    match r {
        LayoutRange::All => 0usize,
        LayoutRange::Bounded { min, .. } => min,
        LayoutRange::Capped { min, .. } => min,
        LayoutRange::Stepped { step, .. } => step,
    }
}

/// The container after its window position moved by `delta` (saturated at
/// zero from below).
pub open spec fn spec_step_range(c: Container, delta: int) -> Container {
    let pos = range_position(c.range);
    let moved = if pos + delta < 0 {
        0usize
    } else {
        (pos + delta) as usize
    };
    let range = match c.range {
        LayoutRange::All => LayoutRange::All,
        LayoutRange::Bounded { min, len } => LayoutRange::Bounded { min: moved, len },
        LayoutRange::Capped { min, len } => LayoutRange::Capped { min: moved, len },
        LayoutRange::Stepped { step, len } => LayoutRange::Stepped { step: moved, len },
    };
    Container { range, ..c }
}

pub open spec fn spec_clamp01(raw: int) -> int {
    if raw < 0 {
        0
    } else if raw > UNIT as int {
        UNIT as int
    } else {
        raw
    }
}

pub open spec fn spec_get_fac(c: Container) -> int {
    spec_clamp01(
        match c.range {
            LayoutRange::All => 0,
            LayoutRange::Bounded { min, len } => if c.maximum <= len {
                0
            } else {
                tdiv(min * UNIT, c.maximum - len)
            },
            LayoutRange::Capped { min, len } => if c.maximum == 0 {
                0
            } else {
                tdiv(min * UNIT, c.maximum as int)
            },
            LayoutRange::Stepped { step, len } => {
                let count = (c.maximum as int) / (len as int);
                if count == 0 {
                    0
                } else {
                    tdiv(step * UNIT, count)
                }
            },
        },
    )
}

pub open spec fn spec_set_fac(c: Container, fac: int) -> Container {
    let fac = spec_clamp01(fac);
    let range = match c.range {
        LayoutRange::All => LayoutRange::All,
        LayoutRange::Bounded { min, len } => LayoutRange::Bounded {
            min: if c.maximum > len {
                tdiv((c.maximum - len) * fac, UNIT as int) as usize
            } else {
                0usize
            },
            len,
        },
        LayoutRange::Capped { min, len } => LayoutRange::Capped {
            min: if c.maximum == 0 {
                0usize
            } else {
                tdiv((c.maximum as int) * fac, UNIT as int) as usize
            },
            len,
        },
        LayoutRange::Stepped { step, len } => {
            let count = (c.maximum as int) / (len as int);
            LayoutRange::Stepped {
                step: if count == 0 {
                    0usize
                } else {
                    tdiv(count * fac, UNIT as int) as usize
                },
                len,
            }
        },
    };
    Container { range, ..c }
}

} // verus!
