//! Placement algorithms for the directional layouts: a shared row scan,
//! the mono-directional stack and span, and the multi-line paragraph.
//!
//! A row scan walks an ordered run of items along a primary axis, keeping
//! a cursor of accumulated extent. Whitespace advances the cursor without
//! being placed (and is trimmed at row edges); linebreak markers are
//! discarded by single-row layouts and close the line in a paragraph.

use vstd::prelude::*;

use crate::container::{lemma_resolved_range_in_bounds, spec_resolve, spec_to_range, range_wf,
    to_range_pre, LayoutControl, LayoutRange};
use crate::geom::{lemma_tdiv_shrinks, Vec2i};
use crate::layouts::{items_wf, margin_wf, norm, spec_bucket, spec_norm, BoundsLayout, LayoutDir,
    LayoutInfo, LayoutItem, LayoutObject, LayoutOutput, Trinary};
use crate::num::{div_trunc, frac, lemma_mul_bound, mul_frac, spec_cap, tdiv, COORD_CAP, HALF,
    ITEM_CAP, ITEM_COUNT_CAP, UNIT};

verus! {

/// One placed item of a row: its main-axis box start, extents and anchor
/// fractions, with the main axis first.
pub struct Slot {
    pub entity: usize,
    pub start: int,
    pub w: int,
    pub h: int,
    pub ax: int,
    pub ay: int,
}

/// State of a row being filled: placed slots, the accumulated cursor,
/// whether anything occupies the row yet, and the row height seen so far.
pub struct RowState {
    pub slots: Seq<Slot>,
    pub cursor: int,
    pub started: bool,
    pub height: int,
}

/// The component of a vector along the main axis.
pub open spec fn main_of(v: Vec2i, axis_x: bool) -> int {
    if axis_x {
        v.x as int
    } else {
        v.y as int
    }
}

/// The component of a vector across the main axis.
pub open spec fn cross_of(v: Vec2i, axis_x: bool) -> int {
    if axis_x {
        v.y as int
    } else {
        v.x as int
    }
}

pub open spec fn empty_row() -> RowState {
    RowState { slots: Seq::empty(), cursor: 0, started: false, height: 0 }
}

/// One step of the row scan.
///
/// * A linebreak marker is not placed (single-row layouts discard it).
/// * Whitespace inside a started row advances the cursor by a margin and
///   its own extent without being placed; at the start of a row it is
///   trimmed entirely.
/// * Anything else occupies the next box: a margin beyond the previous
///   occupant, then its own extent.
pub open spec fn row_step(st: RowState, it: LayoutItem, margin: int, axis_x: bool) -> RowState {
    let w = main_of(it.dimension, axis_x);
    let h = cross_of(it.dimension, axis_x);
    match it.control {
        LayoutControl::LinebreakMarker => st,
        LayoutControl::WhiteSpace => if st.started {
            RowState { cursor: st.cursor + margin + w, ..st }
        } else {
            st
        },
        _ => {
            let start = if st.started {
                st.cursor + margin
            } else {
                st.cursor
            };
            RowState {
                slots: st.slots.push(
                    Slot {
                        entity: it.entity,
                        start,
                        w,
                        h,
                        ax: main_of(it.anchor, axis_x),
                        ay: cross_of(it.anchor, axis_x),
                    },
                ),
                cursor: start + w,
                started: true,
                height: if h > st.height {
                    h
                } else {
                    st.height
                },
            }
        },
    }
}

/// The row scan folded over an ordered run of items.
pub open spec fn row_scan(items: Seq<LayoutItem>, margin: int, axis_x: bool) -> RowState
    decreases items.len(),
{
    if items.len() == 0 {
        empty_row()
    } else {
        row_step(row_scan(items.drop_last(), margin, axis_x), items.last(), margin, axis_x)
    }
}

/// Content length of a run of slots: the end of the last occupied box.
/// Trailing whitespace is thereby trimmed from the content.
pub open spec fn slots_main_len(slots: Seq<Slot>) -> int {
    if slots.len() == 0 {
        0
    } else {
        slots.last().start + slots.last().w
    }
}

/// Content length of a row being filled.
pub open spec fn row_main_len(st: RowState) -> int {
    slots_main_len(st.slots)
}

/// The cross-axis shift of a box inside a row, by lane: the negative lane
/// hugs the row's low edge, the middle lane centers, the positive lane
/// hugs the high edge.
pub open spec fn lane_shift(b: Trinary, row_h: int, h: int) -> int {
    match b {
        Trinary::Neg => 0,
        Trinary::Mid => tdiv(row_h - h, 2),
        Trinary::Pos => row_h - h,
    }
}

/// Pair a main and a cross coordinate back into x/y order.
pub open spec fn assemble(main: int, cross: int, axis_x: bool) -> (int, int) {
    if axis_x {
        (main, cross)
    } else {
        (cross, main)
    }
}

/// The anchor produced for slot `j` of a finished row of `k` slots.
///
/// With stretch active, leftover space is divided among the `k - 1` gaps
/// by shifting slot `j` forward a `j`-th share. A reversed direction
/// mirrors the box inside the row's total extent. The raw anchor point is
/// the spot inside the container where the item's own anchor fraction
/// sits; it is then normalized against the container dimension.
pub open spec fn slot_anchor(
    s: Slot,
    j: int,
    k: int,
    total_main: int,
    leftover: int,
    stretch: bool,
    row_h: int,
    base_cross: int,
    rev: bool,
    axis_x: bool,
    dim: (int, int),
) -> (usize, (int, int)) {
    let shift = if stretch && k >= 2 && leftover > 0 {
        tdiv(leftover * j, k - 1)
    } else {
        0
    };
    let sstart = s.start + shift;
    let start2 = if rev {
        total_main - sstart - s.w
    } else {
        sstart
    };
    let pm = start2 + frac(s.w, s.ax + HALF);
    let pc = base_cross + lane_shift(spec_bucket(s.ay), row_h, s.h) + frac(s.h, s.ay + HALF);
    let p = assemble(pm, pc, axis_x);
    (s.entity, (spec_norm(p.0, dim.0), spec_norm(p.1, dim.1)))
}

/// The anchors of a finished row.
pub open spec fn row_out(
    slots: Seq<Slot>,
    total_main: int,
    leftover: int,
    stretch: bool,
    row_h: int,
    base_cross: int,
    rev: bool,
    axis_x: bool,
    dim: (int, int),
) -> Seq<(usize, (int, int))> {
    Seq::new(
        slots.len(),
        |j: int|
            slot_anchor(
                slots[j],
                j,
                slots.len() as int,
                total_main,
                leftover,
                stretch,
                row_h,
                base_cross,
                rev,
                axis_x,
                dim,
            ),
    )
}

/// A well-formed slot: extents within the per-item bound, anchors
/// well-formed fractions, the box start within the coordinate range.
pub open spec fn slot_wf(s: Slot) -> bool {
    &&& -(COORD_CAP as int) <= s.start <= COORD_CAP as int
    &&& -(ITEM_CAP as int) <= s.w <= ITEM_CAP as int
    &&& -(ITEM_CAP as int) <= s.h <= ITEM_CAP as int
    &&& -(HALF as int) <= s.ax <= HALF as int
    &&& -(HALF as int) <= s.ay <= HALF as int
}

pub open spec fn slots_wf(slots: Seq<Slot>) -> bool {
    forall|j: int| 0 <= j < slots.len() ==> slot_wf(#[trigger] slots[j])
}

/// An executable slot; the ghost [`Slot`] is its model.
#[derive(Clone, Copy)]
struct ESlot {
    entity: usize,
    start: i64,
    w: i64,
    h: i64,
    ax: i64,
    ay: i64,
}

spec fn eslot_model(e: ESlot) -> Slot {
    Slot {
        entity: e.entity,
        start: e.start as int,
        w: e.w as int,
        h: e.h as int,
        ax: e.ax as int,
        ay: e.ay as int,
    }
}

spec fn slots_match(es: Seq<ESlot>, m: Seq<Slot>) -> bool {
    &&& es.len() == m.len()
    &&& forall|j: int| 0 <= j < es.len() ==> eslot_model(#[trigger] es[j]) == m[j]
}

/// Every slot the row scan places is well-formed, the cursor magnitude
/// grows by at most `2 * ITEM_CAP` (one margin and one extent, written as
/// the literal `1000000`) per item, the row height is a placed item's
/// extent, and slots are capped in number by the items.
pub proof fn lemma_row_scan_wf(items: Seq<LayoutItem>, margin: int, axis_x: bool)
    requires
        items_wf(items),
        -(ITEM_CAP as int) <= margin <= ITEM_CAP as int,
    ensures
        ({
            let st = row_scan(items, margin, axis_x);
            &&& slots_wf(st.slots)
            &&& st.slots.len() <= items.len()
            &&& -1000000 * items.len() <= st.cursor <= 1000000 * items.len()
            &&& -(COORD_CAP as int) <= st.cursor <= COORD_CAP as int
            &&& 0 <= st.height <= ITEM_CAP as int
        }),
    decreases items.len(),
{
    if items.len() == 0 {
    } else {
        let prefix = items.drop_last();
        assert(items_wf(prefix)) by {
            assert(forall|j: int| 0 <= j < prefix.len() ==> prefix[j] == items[j]);
        }
        lemma_row_scan_wf(prefix, margin, axis_x);
        let st = row_scan(prefix, margin, axis_x);
        let it = items.last();
        assert(it == items[items.len() - 1]);
        let n1 = prefix.len() as int;
        assert(-1000000 * n1 <= st.cursor <= 1000000 * n1);
        let st2 = row_step(st, it, margin, axis_x);
        assert(forall|j: int| 0 <= j < st.slots.len() ==> st2.slots[j] == st.slots[j]);
        match it.control {
            LayoutControl::LinebreakMarker => {},
            LayoutControl::WhiteSpace => {},
            _ => {
                let w = main_of(it.dimension, axis_x);
                let h = cross_of(it.dimension, axis_x);
                let start = if st.started {
                    st.cursor + margin
                } else {
                    st.cursor
                };
                let slot = Slot {
                    entity: it.entity,
                    start,
                    w,
                    h,
                    ax: main_of(it.anchor, axis_x),
                    ay: cross_of(it.anchor, axis_x),
                };
                assert(st2.slots == st.slots.push(slot));
                assert(st2.slots.last() == slot);
                assert(slot_wf(slot));
            },
        }
    }
}

/// The content length of a scanned row stays near the coordinate range.
pub proof fn lemma_cursor_in_cap(items: Seq<LayoutItem>, margin: int, axis_x: bool)
    requires
        items_wf(items),
        -(ITEM_CAP as int) <= margin <= ITEM_CAP as int,
    ensures
        ({
            let st = row_scan(items, margin, axis_x);
            &&& -(COORD_CAP as int) <= st.cursor <= COORD_CAP as int
            &&& -(COORD_CAP as int) - (ITEM_CAP as int) <= row_main_len(st) <= COORD_CAP as int
                + ITEM_CAP as int
        }),
{
    lemma_row_scan_wf(items, margin, axis_x);
    let st = row_scan(items, margin, axis_x);
    if st.slots.len() > 0 {
        let last = st.slots.last();
        assert(slot_wf(last));
    }
}

/// Scan one window of items into a row.
///
/// Returns the slots, the cursor, whether the row started, and its height.
fn scan_row(items: &Vec<LayoutItem>, from: usize, to: usize, margin: i64, axis_x: bool) -> (r: (
    Vec<ESlot>,
    i64,
    bool,
    i64,
))
    requires
        items_wf(items@),
        from <= to <= items@.len(),
        -(ITEM_CAP as int) <= margin <= ITEM_CAP as int,
    ensures
        ({
            let m = row_scan(items@.subrange(from as int, to as int), margin as int, axis_x);
            &&& slots_match(r.0@, m.slots)
            &&& r.1 == m.cursor
            &&& r.2 == m.started
            &&& r.3 == m.height
        }),
{
    let ghost whole = items@.subrange(from as int, to as int);
    let mut slots: Vec<ESlot> = Vec::new();
    let mut cursor: i64 = 0;
    let mut started: bool = false;
    let mut height: i64 = 0;
    let mut k: usize = from;
    proof {
        assert(items@.subrange(from as int, from as int) =~= Seq::<LayoutItem>::empty());
    }
    while k < to
        invariant
            items_wf(items@),
            from <= k <= to <= items@.len(),
            -(ITEM_CAP as int) <= margin <= ITEM_CAP as int,
            ({
                let m = row_scan(items@.subrange(from as int, k as int), margin as int, axis_x);
                &&& slots_match(slots@, m.slots)
                &&& cursor == m.cursor
                &&& started == m.started
                &&& height == m.height
            }),
        decreases to - k,
    {
        let ghost pre = items@.subrange(from as int, k as int);
        let ghost m = row_scan(pre, margin as int, axis_x);
        proof {
            lemma_row_scan_wf(pre, margin as int, axis_x);
            lemma_cursor_in_cap(pre, margin as int, axis_x);
            assert(items@.subrange(from as int, k as int + 1).drop_last() =~= pre);
            assert(items@.subrange(from as int, k as int + 1).last() == items@[k as int]);
        }
        let it = items[k];
        let w = if axis_x {
            it.dimension.x
        } else {
            it.dimension.y
        };
        let h = if axis_x {
            it.dimension.y
        } else {
            it.dimension.x
        };
        match it.control {
            LayoutControl::LinebreakMarker => {},
            LayoutControl::WhiteSpace => {
                if started {
                    cursor = cursor + margin + w;
                }
            },
            _ => {
                let start = if started {
                    cursor + margin
                } else {
                    cursor
                };
                let ax = if axis_x {
                    it.anchor.x
                } else {
                    it.anchor.y
                };
                let ay = if axis_x {
                    it.anchor.y
                } else {
                    it.anchor.x
                };
                slots.push(ESlot { entity: it.entity, start, w, h, ax, ay });
                cursor = start + w;
                started = true;
                if h > height {
                    height = h;
                }
            },
        }
        k = k + 1;
        proof {
            let post = items@.subrange(from as int, k as int);
            let m2 = row_scan(post, margin as int, axis_x);
            assert(m2 == row_step(m, items@[k as int - 1], margin as int, axis_x));
            assert(slots_match(slots@, m2.slots));
        }
    }
    (slots, cursor, started, height)
}


/// The ghost model of a vector of executable slots.
spec fn models(es: Seq<ESlot>) -> Seq<Slot> {
    Seq::new(es.len(), |j: int| eslot_model(es[j]))
}

/// Dividing a positive leftover among gaps never exceeds the leftover.
proof fn lemma_shift_bound(lo: int, j: int, k1: int)
    requires
        lo > 0,
        0 <= j <= k1,
        k1 >= 1,
    ensures
        0 <= tdiv(lo * j, k1) <= lo,
{
    assert(0 <= (lo * j) / k1 <= lo) by (nonlinear_arith)
        requires
            lo > 0,
            0 <= j <= k1,
            k1 >= 1,
    ;
    assert(lo * j >= 0) by (nonlinear_arith)
        requires
            lo > 0,
            j >= 0,
    ;
}

/// Scaling a value by a fraction in `[0, UNIT]` keeps it within its bound.
proof fn lemma_frac_within(a: int, f: int, bound: int)
    requires
        -bound <= a <= bound,
        0 <= f <= UNIT as int,
        bound >= 0,
    ensures
        -bound <= frac(a, f) <= bound,
{
    if a >= 0 {
        assert(0 <= (a * f) / (UNIT as int) <= bound) by (nonlinear_arith)
            requires
                0 <= a <= bound,
                0 <= f <= UNIT as int,
        ;
        assert(a * f >= 0) by (nonlinear_arith)
            requires
                a >= 0,
                f >= 0,
        ;
    } else {
        assert(0 <= ((-a) * f) / (UNIT as int) <= bound) by (nonlinear_arith)
            requires
                0 <= -a <= bound,
                0 <= f <= UNIT as int,
        ;
        assert(-(a * f) == (-a) * f) by (nonlinear_arith);
        assert(a * f <= 0) by (nonlinear_arith)
            requires
                a <= 0,
                f >= 0,
        ;
    }
}

/// Append the anchors of one finished row to an output vector.
fn emit_row(
    out: &mut Vec<(usize, Vec2i)>,
    slots: &Vec<ESlot>,
    total_main: i64,
    leftover: i64,
    stretch: bool,
    row_h: i64,
    base_cross: i64,
    rev: bool,
    axis_x: bool,
    dim: Vec2i,
)
    requires
        slots_wf(models(slots@)),
        slots@.len() <= ITEM_COUNT_CAP,
        -3 * (COORD_CAP as int) <= total_main <= 3 * (COORD_CAP as int),
        -3 * (COORD_CAP as int) <= leftover <= 3 * (COORD_CAP as int),
        0 <= row_h <= ITEM_CAP as int,
        -3 * (COORD_CAP as int) <= base_cross <= 3 * (COORD_CAP as int),
    ensures
        final(out)@.len() == old(out)@.len() + slots@.len(),
        forall|idx: int|
            0 <= idx < old(out)@.len() ==> #[trigger] final(out)@[idx] == old(out)@[idx],
        anchors_match(
            final(out)@.skip(old(out)@.len() as int),
            row_out(
                models(slots@),
                total_main as int,
                leftover as int,
                stretch,
                row_h as int,
                base_cross as int,
                rev,
                axis_x,
                (dim.x as int, dim.y as int),
            ),
        ),
{
    let ghost full = row_out(
        models(slots@),
        total_main as int,
        leftover as int,
        stretch,
        row_h as int,
        base_cross as int,
        rev,
        axis_x,
        (dim.x as int, dim.y as int),
    );
    let ghost base = out@;
    let k = slots.len();
    let mut j: usize = 0;
    while j < k
        invariant
            slots_wf(models(slots@)),
            k == slots@.len(),
            k <= ITEM_COUNT_CAP,
            j <= k,
            -3 * (COORD_CAP as int) <= total_main <= 3 * (COORD_CAP as int),
            -3 * (COORD_CAP as int) <= leftover <= 3 * (COORD_CAP as int),
            0 <= row_h <= ITEM_CAP as int,
            -3 * (COORD_CAP as int) <= base_cross <= 3 * (COORD_CAP as int),
            full == row_out(
                models(slots@),
                total_main as int,
                leftover as int,
                stretch,
                row_h as int,
                base_cross as int,
                rev,
                axis_x,
                (dim.x as int, dim.y as int),
            ),
            out@.len() == base.len() + j,
            forall|idx: int| 0 <= idx < base.len() ==> #[trigger] out@[idx] == base[idx],
            forall|idx: int|
                0 <= idx < j ==> #[trigger] out@[base.len() + idx] == (
                full[idx].0,
                Vec2i { x: full[idx].1.0 as i64, y: full[idx].1.1 as i64 },
            ),
        decreases k - j,
    {
        let s = slots[j];
        proof {
            assert(eslot_model(slots@[j as int]) == models(slots@)[j as int]);
            assert(slot_wf(models(slots@)[j as int]));
        }
        let shift: i64 = if stretch && k >= 2 && leftover > 0 {
            proof {
                lemma_mul_bound(leftover as int, j as int, 3 * (COORD_CAP as int),
                    ITEM_COUNT_CAP as int);
                lemma_shift_bound(leftover as int, j as int, (k - 1) as int);
            }
            div_trunc(leftover * (j as i64), (k - 1) as i64)
        } else {
            0
        };
        let sstart = s.start + shift;
        let start2 = if rev {
            total_main - sstart - s.w
        } else {
            sstart
        };
        proof {
            lemma_frac_within(s.w as int, (s.ax + HALF) as int, ITEM_CAP as int);
            lemma_frac_within(s.h as int, (s.ay + HALF) as int, ITEM_CAP as int);
        }
        let fr = mul_frac(s.w, s.ax + HALF);
        let pm = start2 + fr;
        let lane: i64 = match crate::layouts::bucket(s.ay) {
            Trinary::Neg => 0,
            Trinary::Mid => div_trunc(row_h - s.h, 2),
            Trinary::Pos => row_h - s.h,
        };
        proof {
            lemma_tdiv_shrinks((row_h - s.h) as int, 2);
        }
        let pc = base_cross + lane + mul_frac(s.h, s.ay + HALF);
        let (px, py) = if axis_x {
            (pm, pc)
        } else {
            (pc, pm)
        };
        let v = Vec2i { x: norm(px, dim.x), y: norm(py, dim.y) };
        out.push((s.entity, v));
        j = j + 1;
        proof {
            let idx = j as int - 1;
            assert(full[idx] == slot_anchor(
                models(slots@)[idx],
                idx,
                k as int,
                total_main as int,
                leftover as int,
                stretch,
                row_h as int,
                base_cross as int,
                rev,
                axis_x,
                (dim.x as int, dim.y as int),
            ));
        }
    }
    proof {
        let tail = out@.skip(base.len() as int);
        assert(tail.len() == full.len());
        assert(forall|idx: int| 0 <= idx < tail.len() ==> #[trigger] tail[idx] == out@[base.len()
            + idx]);
        assert(anchors_match(tail, full));
    }
}

/// An executable anchor list agrees with a ghost one, value for value.
pub open spec fn anchors_match(es: Seq<(usize, Vec2i)>, m: Seq<(usize, (int, int))>) -> bool {
    &&& es.len() == m.len()
    &&& forall|j: int|
        0 <= j < es.len() ==> #[trigger] es[j] == (
        m[j].0,
        Vec2i { x: m[j].1.0 as i64, y: m[j].1.1 as i64 },
    )
}


/// The model of a stack placement: the window selected by the resolved
/// range is scanned into a single row, whose content length and height
/// become the container dimension.
pub open spec fn spec_stack(
    items: Seq<LayoutItem>,
    info: LayoutInfo,
    range0: LayoutRange,
    d: LayoutDir,
) -> (Seq<(usize, (int, int))>, (int, int)) {
    let ax = d.spec_axis_x();
    let total = items.len() as usize;
    let pair = spec_to_range(spec_resolve(range0, total), total);
    let window = items.subrange(pair.0 as int, pair.1 as int);
    let st = row_scan(window, main_of(info.margin, ax), ax);
    let l = row_main_len(st);
    let dims = assemble(l, st.height, ax);
    (row_out(st.slots, l, 0, false, st.height, 0, d.spec_reversed(), ax, dims), dims)
}

/// The model of a span placement: as a stack, but the primary extent is
/// pinned to the parent's dimension, and stretch distributes the leftover
/// space among the gaps.
pub open spec fn spec_span(
    items: Seq<LayoutItem>,
    info: LayoutInfo,
    range0: LayoutRange,
    d: LayoutDir,
    stretch: bool,
) -> (Seq<(usize, (int, int))>, (int, int)) {
    let ax = d.spec_axis_x();
    let total = items.len() as usize;
    let pair = spec_to_range(spec_resolve(range0, total), total);
    let window = items.subrange(pair.0 as int, pair.1 as int);
    let st = row_scan(window, main_of(info.margin, ax), ax);
    let e = main_of(info.dimension, ax);
    let leftover = e - row_main_len(st);
    let dims = assemble(e, st.height, ax);
    (row_out(st.slots, e, leftover, stretch, st.height, 0, d.spec_reversed(), ax, dims), dims)
}

/// Place items in a stack: an ordered run along the direction's axis,
/// each box offset by the running sum of prior extents plus one margin,
/// self-aligned across the axis by its anchor's lane. The resolved
/// dimension is the content's extent.
pub fn stack_place(
    direction: LayoutDir,
    info: &LayoutInfo,
    items: &Vec<LayoutItem>,
    range: &mut LayoutRange,
) -> (out: LayoutOutput)
    requires
        items_wf(items@),
        margin_wf(info.margin),
        *old(range) is Stepped ==> range_wf(*old(range)),
    ensures
        *final(range) == spec_resolve(*old(range), items@.len() as usize),
        ({
            let m = spec_stack(items@, *info, *old(range), direction);
            &&& anchors_match(out.entity_anchors@, m.0)
            &&& out.dimension.x == m.1.0
            &&& out.dimension.y == m.1.1
            &&& out.max_count == items@.len()
        }),
{
    let n = items.len();
    proof {
        lemma_resolved_range_in_bounds(*range, n);
    }
    range.resolve(n);
    let (rs, re) = range.to_range(n);
    let axis_x = direction.axis_x();
    let rev = direction.reversed();
    let margin = if axis_x {
        info.margin.x
    } else {
        info.margin.y
    };
    let (slots, _cursor, _started, height) = scan_row(items, rs, re, margin, axis_x);
    let ghost window = items@.subrange(rs as int, re as int);
    let ghost m = row_scan(window, margin as int, axis_x);
    proof {
        assert(items_wf(window)) by {
            assert(forall|j: int|
                0 <= j < window.len() ==> window[j] == items@[rs + j]);
        }
        lemma_row_scan_wf(window, margin as int, axis_x);
        lemma_cursor_in_cap(window, margin as int, axis_x);
        assert(models(slots@) =~= m.slots);
    }
    let l: i64 = if slots.len() == 0 {
        0
    } else {
        let last = slots[slots.len() - 1];
        proof {
            assert(eslot_model(slots@[slots@.len() - 1]) == m.slots.last());
            assert(slot_wf(m.slots.last()));
        }
        last.start + last.w
    };
    let dim = if axis_x {
        Vec2i { x: l, y: height }
    } else {
        Vec2i { x: height, y: l }
    };
    let mut anchors: Vec<(usize, Vec2i)> = Vec::new();
    emit_row(&mut anchors, &slots, l, 0, false, height, 0, rev, axis_x, dim);
    proof {
        assert(anchors@.skip(0) =~= anchors@);
    }
    LayoutOutput { entity_anchors: anchors, dimension: dim, max_count: n }
}

/// Place items in a span: as a stack, but the primary extent is pinned to
/// the parent's dimension; with stretch, leftover space is redistributed
/// among the gaps between items instead of trailing.
pub fn span_place(
    direction: LayoutDir,
    stretch: bool,
    info: &LayoutInfo,
    items: &Vec<LayoutItem>,
    range: &mut LayoutRange,
) -> (out: LayoutOutput)
    requires
        items_wf(items@),
        margin_wf(info.margin),
        info.dimension.bounded(),
        *old(range) is Stepped ==> range_wf(*old(range)),
    ensures
        *final(range) == spec_resolve(*old(range), items@.len() as usize),
        ({
            let m = spec_span(items@, *info, *old(range), direction, stretch);
            &&& anchors_match(out.entity_anchors@, m.0)
            &&& out.dimension.x == m.1.0
            &&& out.dimension.y == m.1.1
            &&& out.max_count == items@.len()
        }),
{
    let n = items.len();
    proof {
        lemma_resolved_range_in_bounds(*range, n);
    }
    range.resolve(n);
    let (rs, re) = range.to_range(n);
    let axis_x = direction.axis_x();
    let rev = direction.reversed();
    let margin = if axis_x {
        info.margin.x
    } else {
        info.margin.y
    };
    let (slots, _cursor, _started, height) = scan_row(items, rs, re, margin, axis_x);
    let ghost window = items@.subrange(rs as int, re as int);
    let ghost m = row_scan(window, margin as int, axis_x);
    proof {
        assert(items_wf(window)) by {
            assert(forall|j: int|
                0 <= j < window.len() ==> window[j] == items@[rs + j]);
        }
        lemma_row_scan_wf(window, margin as int, axis_x);
        lemma_cursor_in_cap(window, margin as int, axis_x);
        assert(models(slots@) =~= m.slots);
    }
    let l: i64 = if slots.len() == 0 {
        0
    } else {
        let last = slots[slots.len() - 1];
        proof {
            assert(eslot_model(slots@[slots@.len() - 1]) == m.slots.last());
            assert(slot_wf(m.slots.last()));
        }
        last.start + last.w
    };
    let e = if axis_x {
        info.dimension.x
    } else {
        info.dimension.y
    };
    let leftover = e - l;
    let dim = if axis_x {
        Vec2i { x: e, y: height }
    } else {
        Vec2i { x: height, y: e }
    };
    let mut anchors: Vec<(usize, Vec2i)> = Vec::new();
    emit_row(&mut anchors, &slots, e, leftover, stretch, height, 0, rev, axis_x, dim);
    proof {
        assert(anchors@.skip(0) =~= anchors@);
    }
    LayoutOutput { entity_anchors: anchors, dimension: dim, max_count: n }
}


/// A closed line of a paragraph.
pub struct Row {
    pub slots: Seq<Slot>,
    pub main_len: int,
    pub height: int,
}

/// State of a paragraph scan: the closed lines and the line being filled.
pub struct ParState {
    pub rows: Seq<Row>,
    pub cur: RowState,
}

pub open spec fn empty_par() -> ParState {
    ParState { rows: Seq::empty(), cur: empty_row() }
}

/// Close the line being filled; `extra_h` lets a linebreak marker's
/// extent set the line height.
pub open spec fn close_row(st: ParState, extra_h: int) -> ParState {
    ParState {
        rows: st.rows.push(
            Row {
                slots: st.cur.slots,
                main_len: slots_main_len(st.cur.slots),
                height: if extra_h > st.cur.height {
                    extra_h
                } else {
                    st.cur.height
                },
            },
        ),
        cur: empty_row(),
    }
}

/// Whether placing an item of main extent `w` into the line would
/// overflow the fixed extent. Only an occupied line ever wraps: an item
/// that alone exceeds the extent occupies its own line.
pub open spec fn would_wrap(st: RowState, w: int, margin: int, extent: int) -> bool {
    st.started && st.cursor + margin + w > extent
}

/// One step of the paragraph scan.
///
/// * A linebreak marker closes the line without being placed; its extent
///   still sets the line height.
/// * Whitespace follows the row rule (it never opens or wraps a line).
/// * A linebreak item is placed like a normal item, then closes the line.
/// * A normal item wraps to a fresh line first if its inclusion would
///   overflow the fixed extent.
pub open spec fn par_step(
    st: ParState,
    it: LayoutItem,
    margin: int,
    extent: int,
    axis_x: bool,
) -> ParState {
    let w = main_of(it.dimension, axis_x);
    let h = cross_of(it.dimension, axis_x);
    match it.control {
        LayoutControl::LinebreakMarker => close_row(st, h),
        LayoutControl::WhiteSpace => ParState {
            rows: st.rows,
            cur: row_step(st.cur, it, margin, axis_x),
        },
        LayoutControl::Linebreak => {
            let wrapped = if would_wrap(st.cur, w, margin, extent) {
                close_row(st, 0)
            } else {
                st
            };
            close_row(
                ParState { rows: wrapped.rows, cur: row_step(wrapped.cur, it, margin, axis_x) },
                0,
            )
        },
        _ => {
            let wrapped = if would_wrap(st.cur, w, margin, extent) {
                close_row(st, 0)
            } else {
                st
            };
            ParState { rows: wrapped.rows, cur: row_step(wrapped.cur, it, margin, axis_x) }
        },
    }
}

/// The paragraph scan folded over the items.
pub open spec fn par_scan(items: Seq<LayoutItem>, margin: int, extent: int, axis_x: bool)
    -> ParState
    decreases items.len(),
{
    if items.len() == 0 {
        empty_par()
    } else {
        par_step(
            par_scan(items.drop_last(), margin, extent, axis_x),
            items.last(),
            margin,
            extent,
            axis_x,
        )
    }
}

/// All lines of the paragraph: the closed ones, plus the trailing line if
/// anything occupies it.
pub open spec fn par_rows(items: Seq<LayoutItem>, margin: int, extent: int, axis_x: bool)
    -> Seq<Row> {
    let st = par_scan(items, margin, extent, axis_x);
    if st.cur.slots.len() > 0 {
        close_row(st, 0).rows
    } else {
        st.rows
    }
}

/// A well-formed line: well-formed slots, a content length near the
/// coordinate range, a height that is some item's extent.
pub open spec fn row_wf(r: Row) -> bool {
    &&& slots_wf(r.slots)
    &&& r.slots.len() <= ITEM_COUNT_CAP
    &&& r.main_len == slots_main_len(r.slots)
    &&& -(COORD_CAP as int) - (ITEM_CAP as int) <= r.main_len <= COORD_CAP as int
        + ITEM_CAP as int
    &&& 0 <= r.height <= ITEM_CAP as int
}

pub open spec fn rows_wf(rows: Seq<Row>) -> bool {
    forall|j: int| 0 <= j < rows.len() ==> row_wf(#[trigger] rows[j])
}

/// The scan state is well-formed: every closed line is, the open line is
/// within the same budget as a single row scan, and a line is occupied
/// exactly when it has started.
pub open spec fn par_state_wf(st: ParState, processed: int) -> bool {
    &&& rows_wf(st.rows)
    &&& st.rows.len() + st.cur.slots.len() <= processed
    &&& slots_wf(st.cur.slots)
    &&& -1000000 * processed <= st.cur.cursor <= 1000000 * processed
    &&& 0 <= st.cur.height <= ITEM_CAP as int
    &&& (st.cur.started <==> st.cur.slots.len() > 0)
}

/// The paragraph scan keeps its state well-formed.
pub proof fn lemma_par_scan_wf(items: Seq<LayoutItem>, margin: int, extent: int, axis_x: bool)
    requires
        items_wf(items),
        -(ITEM_CAP as int) <= margin <= ITEM_CAP as int,
    ensures
        par_state_wf(par_scan(items, margin, extent, axis_x), items.len() as int),
    decreases items.len(),
{
    if items.len() == 0 {
    } else {
        let prefix = items.drop_last();
        assert(items_wf(prefix)) by {
            assert(forall|j: int| 0 <= j < prefix.len() ==> prefix[j] == items[j]);
        }
        lemma_par_scan_wf(prefix, margin, extent, axis_x);
        let st = par_scan(prefix, margin, extent, axis_x);
        let it = items.last();
        assert(it == items[items.len() - 1]);
        lemma_par_step_wf(st, it, margin, extent, axis_x, prefix.len() as int);
    }
}

/// One paragraph step keeps the state well-formed, with one more item of
/// budget.
proof fn lemma_par_step_wf(st: ParState, it: LayoutItem, margin: int, extent: int, axis_x: bool,
    processed: int)
    requires
        par_state_wf(st, processed),
        processed >= 0,
        processed + 1 <= ITEM_COUNT_CAP as int,
        -(ITEM_CAP as int) <= margin <= ITEM_CAP as int,
        -(ITEM_CAP as int) <= it.dimension.x <= ITEM_CAP as int,
        -(ITEM_CAP as int) <= it.dimension.y <= ITEM_CAP as int,
        -(HALF as int) <= it.anchor.x <= HALF as int,
        -(HALF as int) <= it.anchor.y <= HALF as int,
    ensures
        par_state_wf(par_step(st, it, margin, extent, axis_x), processed + 1),
{
    let w = main_of(it.dimension, axis_x);
    let h = cross_of(it.dimension, axis_x);
    match it.control {
        LayoutControl::LinebreakMarker => {
            lemma_close_wf(st, h, processed);
        },
        LayoutControl::WhiteSpace => {
            lemma_row_step_wf(st.cur, it, margin, axis_x, processed);
        },
        LayoutControl::Linebreak => {
            let wrapped = if would_wrap(st.cur, w, margin, extent) {
                close_row(st, 0)
            } else {
                st
            };
            if would_wrap(st.cur, w, margin, extent) {
                lemma_close_wf(st, 0, processed);
            }
            assert(par_state_wf(wrapped, processed));
            lemma_row_step_wf(wrapped.cur, it, margin, axis_x, processed);
            let placed = ParState {
                rows: wrapped.rows,
                cur: row_step(wrapped.cur, it, margin, axis_x),
            };
            assert(par_state_wf(placed, processed + 1));
            lemma_close_wf(placed, 0, processed + 1);
        },
        _ => {
            let wrapped = if would_wrap(st.cur, w, margin, extent) {
                close_row(st, 0)
            } else {
                st
            };
            if would_wrap(st.cur, w, margin, extent) {
                lemma_close_wf(st, 0, processed);
            }
            assert(par_state_wf(wrapped, processed));
            lemma_row_step_wf(wrapped.cur, it, margin, axis_x, processed);
        },
    }
}

/// Closing the open line keeps the state well-formed: within the same
/// budget when the line was occupied, within one more unit always.
proof fn lemma_close_wf(st: ParState, extra_h: int, processed: int)
    requires
        par_state_wf(st, processed),
        -(ITEM_CAP as int) <= extra_h <= ITEM_CAP as int,
        processed >= 0,
        processed <= ITEM_COUNT_CAP as int,
    ensures
        st.cur.slots.len() > 0 ==> par_state_wf(close_row(st, extra_h), processed),
        par_state_wf(close_row(st, extra_h), processed + 1),
        close_row(st, extra_h).rows.len() == st.rows.len() + 1,
{
    let closed = close_row(st, extra_h);
    let r = closed.rows.last();
    if st.cur.slots.len() > 0 {
        assert(slot_wf(st.cur.slots.last()));
    }
    assert(row_wf(r));
    assert(forall|j: int| 0 <= j < st.rows.len() ==> closed.rows[j] == st.rows[j]);
}

/// One row step within the paragraph keeps the open line well-formed.
proof fn lemma_row_step_wf(cur: RowState, it: LayoutItem, margin: int, axis_x: bool,
    processed: int)
    requires
        slots_wf(cur.slots),
        -1000000 * processed <= cur.cursor <= 1000000 * processed,
        0 <= cur.height <= ITEM_CAP as int,
        (cur.started <==> cur.slots.len() > 0),
        processed >= 0,
        processed + 1 <= ITEM_COUNT_CAP as int,
        -(ITEM_CAP as int) <= margin <= ITEM_CAP as int,
        -(ITEM_CAP as int) <= it.dimension.x <= ITEM_CAP as int,
        -(ITEM_CAP as int) <= it.dimension.y <= ITEM_CAP as int,
        -(HALF as int) <= it.anchor.x <= HALF as int,
        -(HALF as int) <= it.anchor.y <= HALF as int,
    ensures
        ({
            let st2 = row_step(cur, it, margin, axis_x);
            &&& slots_wf(st2.slots)
            &&& cur.slots.len() <= st2.slots.len() <= cur.slots.len() + 1
            &&& -1000000 * (processed + 1) <= st2.cursor <= 1000000 * (processed + 1)
            &&& 0 <= st2.height <= ITEM_CAP as int
            &&& (st2.started <==> st2.slots.len() > 0)
            &&& (it.control is WhiteSpace || it.control is LinebreakMarker ==> st2.slots
                == cur.slots)
        }),
{
    let st2 = row_step(cur, it, margin, axis_x);
    assert(forall|j: int| 0 <= j < cur.slots.len() ==> st2.slots[j] == cur.slots[j]);
    match it.control {
        LayoutControl::LinebreakMarker => {},
        LayoutControl::WhiteSpace => {},
        _ => {
            assert(st2.slots.last() == st2.slots[st2.slots.len() - 1]);
            assert(slot_wf(st2.slots.last()));
        },
    }
}


/// Secondary-axis offset of visible line `j`: the heights of the lines
/// before it plus one cross margin per gap.
pub open spec fn rows_base(rows: Seq<Row>, margin: int, j: int) -> int
    decreases j,
{
    if j <= 0 {
        0
    } else {
        rows_base(rows, margin, j - 1) + rows[j - 1].height + margin
    }
}

/// Total cross extent of the visible lines.
pub open spec fn rows_total(rows: Seq<Row>, margin: int) -> int {
    if rows.len() == 0 {
        0
    } else {
        rows_base(rows, margin, rows.len() - 1) + rows.last().height
    }
}

/// Final cross offset of line `j`: lines advance away from the secondary
/// direction's origin; a reversed secondary runs from the high edge down.
pub open spec fn row_base_final(rows: Seq<Row>, margin: int, total_cross: int, j: int,
    sec_rev: bool) -> int {
    if sec_rev {
        total_cross - rows_base(rows, margin, j) - rows[j].height
    } else {
        rows_base(rows, margin, j)
    }
}

/// Anchors of the first `j` visible lines, concatenated in line order.
/// Every line is placed like a span against the fixed extent `e`.
pub open spec fn par_out_upto(
    rows: Seq<Row>,
    margin_cross: int,
    total_cross: int,
    e: int,
    stretch: bool,
    rev: bool,
    sec_rev: bool,
    axis_x: bool,
    dim: (int, int),
    j: int,
) -> Seq<(usize, (int, int))>
    decreases j,
{
    if j <= 0 {
        Seq::empty()
    } else {
        par_out_upto(
            rows,
            margin_cross,
            total_cross,
            e,
            stretch,
            rev,
            sec_rev,
            axis_x,
            dim,
            j - 1,
        ) + row_out(
            rows[j - 1].slots,
            e,
            e - rows[j - 1].main_len,
            stretch,
            rows[j - 1].height,
            row_base_final(rows, margin_cross, total_cross, j - 1, sec_rev),
            rev,
            axis_x,
            dim,
        )
    }
}

/// The model of a paragraph placement: the items are broken greedily into
/// lines against the parent's primary extent, the resolved range selects
/// the visible lines, and those lines are stacked along the secondary
/// axis with one cross margin per gap.
pub open spec fn spec_paragraph(
    items: Seq<LayoutItem>,
    info: LayoutInfo,
    range0: LayoutRange,
    d: LayoutDir,
    sec: LayoutDir,
    stretch: bool,
) -> (Seq<(usize, (int, int))>, (int, int), int) {
    let ax = d.spec_axis_x();
    let margin = main_of(info.margin, ax);
    let margin_cross = cross_of(info.margin, ax);
    let e = main_of(info.dimension, ax);
    let rows = par_rows(items, margin, e, ax);
    let total = rows.len() as usize;
    let pair = spec_to_range(spec_resolve(range0, total), total);
    let visible = rows.subrange(pair.0 as int, pair.1 as int);
    let tc = rows_total(visible, margin_cross);
    let dims = assemble(e, tc, ax);
    (
        par_out_upto(
            visible,
            margin_cross,
            tc,
            e,
            stretch,
            d.spec_reversed(),
            sec.spec_reversed(),
            ax,
            dims,
            visible.len() as int,
        ),
        dims,
        rows.len() as int,
    )
}

/// Line offsets stay within one cross-budget unit per line.
pub proof fn lemma_rows_base_bound(rows: Seq<Row>, margin: int, j: int)
    requires
        rows_wf(rows),
        -(ITEM_CAP as int) <= margin <= ITEM_CAP as int,
        0 <= j <= rows.len(),
        rows.len() <= ITEM_COUNT_CAP as int,
    ensures
        -1000000 * j <= rows_base(rows, margin, j) <= 1000000 * j,
    decreases j,
{
    if j > 0 {
        lemma_rows_base_bound(rows, margin, j - 1);
        assert(row_wf(rows[j - 1]));
    }
}

/// An executable line; the ghost [`Row`] is its model.
struct ERow {
    slots: Vec<ESlot>,
    main_len: i64,
    height: i64,
}

spec fn erow_model(r: ERow) -> Row {
    Row { slots: models(r.slots@), main_len: r.main_len as int, height: r.height as int }
}

spec fn rows_match(ers: Seq<ERow>, m: Seq<Row>) -> bool {
    &&& ers.len() == m.len()
    &&& forall|j: int| 0 <= j < ers.len() ==> erow_model(#[trigger] ers[j]) == m[j]
}

/// Content length of an executable run of slots.
fn emain_len(slots: &Vec<ESlot>) -> (r: i64)
    requires
        slots_wf(models(slots@)),
    ensures
        r as int == slots_main_len(models(slots@)),
{
    let m = slots.len();
    if m == 0 {
        0
    } else {
        let last = slots[m - 1];
        proof {
            assert(eslot_model(slots@[m - 1]) == models(slots@).last());
            assert(slot_wf(models(slots@).last()));
        }
        last.start + last.w
    }
}

/// Matching lists concatenate to a matching list.
proof fn lemma_match_extend(
    whole: Seq<(usize, Vec2i)>,
    old_part: Seq<(usize, Vec2i)>,
    m1: Seq<(usize, (int, int))>,
    m2: Seq<(usize, (int, int))>,
)
    requires
        anchors_match(old_part, m1),
        whole.len() == old_part.len() + m2.len(),
        forall|idx: int| 0 <= idx < old_part.len() ==> #[trigger] whole[idx] == old_part[idx],
        anchors_match(whole.skip(old_part.len() as int), m2),
    ensures
        anchors_match(whole, m1 + m2),
{
    let tail = whole.skip(old_part.len() as int);
    assert forall|j: int| 0 <= j < whole.len() implies #[trigger] whole[j] == (
        (m1 + m2)[j].0,
        Vec2i { x: (m1 + m2)[j].1.0 as i64, y: (m1 + m2)[j].1.1 as i64 },
    ) by {
        if j < old_part.len() {
            assert(whole[j] == old_part[j]);
            assert((m1 + m2)[j] == m1[j]);
        } else {
            assert(tail[j - old_part.len()] == whole[j]);
            assert((m1 + m2)[j] == m2[j - m1.len()]);
        }
    }
}

/// Break the items into lines against a fixed primary extent: the
/// executable paragraph scan.
///
/// Returns the closed lines and the state of the trailing open line.
fn par_scan_exec(items: &Vec<LayoutItem>, margin: i64, e: i64, axis_x: bool) -> (r: (
    Vec<ERow>,
    Vec<ESlot>,
    i64,
    bool,
    i64,
))
    requires
        items_wf(items@),
        -(ITEM_CAP as int) <= margin <= ITEM_CAP as int,
        -(COORD_CAP as int) <= e <= COORD_CAP as int,
    ensures
        ({
            let st = par_scan(items@, margin as int, e as int, axis_x);
            &&& rows_match(r.0@, st.rows)
            &&& slots_match(r.1@, st.cur.slots)
            &&& r.2 == st.cur.cursor
            &&& r.3 == st.cur.started
            &&& r.4 == st.cur.height
        }),
{
    let n = items.len();
    let mut rows: Vec<ERow> = Vec::new();
    let mut curslots: Vec<ESlot> = Vec::new();
    let mut cursor: i64 = 0;
    let mut started: bool = false;
    let mut height: i64 = 0;
    let mut k: usize = 0;
    proof {
        assert(items@.subrange(0, 0) =~= Seq::<LayoutItem>::empty());
    }
    while k < n
        invariant
            items_wf(items@),
            n == items@.len(),
            k <= n,
            -(ITEM_CAP as int) <= margin <= ITEM_CAP as int,
            ({
                let st = par_scan(items@.subrange(0, k as int), margin as int, e as int, axis_x);
                &&& rows_match(rows@, st.rows)
                &&& slots_match(curslots@, st.cur.slots)
                &&& cursor == st.cur.cursor
                &&& started == st.cur.started
                &&& height == st.cur.height
            }),
        decreases n - k,
    {
        let ghost pre = items@.subrange(0, k as int);
        let ghost st = par_scan(pre, margin as int, e as int, axis_x);
        let ghost cs = curslots@;
        proof {
            assert(items_wf(pre)) by {
                assert(forall|j: int| 0 <= j < pre.len() ==> pre[j] == items@[j]);
            }
            lemma_par_scan_wf(pre, margin as int, e as int, axis_x);
            assert(items@.subrange(0, k as int + 1).drop_last() =~= pre);
            assert(items@.subrange(0, k as int + 1).last() == items@[k as int]);
            assert(models(cs) =~= st.cur.slots);
        }
        let it = items[k];
        let w = if axis_x {
            it.dimension.x
        } else {
            it.dimension.y
        };
        let h = if axis_x {
            it.dimension.y
        } else {
            it.dimension.x
        };
        match it.control {
            LayoutControl::LinebreakMarker => {
                let ml = emain_len(&curslots);
                let hh = if h > height {
                    h
                } else {
                    height
                };
                rows.push(ERow { slots: curslots, main_len: ml, height: hh });
                curslots = Vec::new();
                cursor = 0;
                started = false;
                height = 0;
                proof {
                    let st2 = close_row(st, h as int);
                    assert(rows_match(rows@, st2.rows));
                    assert(slots_match(curslots@, st2.cur.slots));
                }
            },
            LayoutControl::WhiteSpace => {
                if started {
                    cursor = cursor + margin + w;
                }
            },
            LayoutControl::Linebreak => {
                if started && cursor + margin + w > e {
                    let ml = emain_len(&curslots);
                    rows.push(ERow { slots: curslots, main_len: ml, height });
                    curslots = Vec::new();
                    cursor = 0;
                    started = false;
                    height = 0;
                }
                let ghost wrapped = if would_wrap(st.cur, w as int, margin as int, e as int) {
                    close_row(st, 0)
                } else {
                    st
                };
                proof {
                    assert(rows_match(rows@, wrapped.rows));
                    assert(slots_match(curslots@, wrapped.cur.slots));
                }
                let start = if started {
                    cursor + margin
                } else {
                    cursor
                };
                let ax = if axis_x {
                    it.anchor.x
                } else {
                    it.anchor.y
                };
                let ay = if axis_x {
                    it.anchor.y
                } else {
                    it.anchor.x
                };
                curslots.push(ESlot { entity: it.entity, start, w, h, ax, ay });
                cursor = start + w;
                started = true;
                if h > height {
                    height = h;
                }
                let ghost placed = ParState {
                    rows: wrapped.rows,
                    cur: row_step(wrapped.cur, items@[k as int], margin as int, axis_x),
                };
                proof {
                    assert(slots_match(curslots@, placed.cur.slots));
                    assert(models(curslots@) =~= placed.cur.slots);
                }
                let ml = emain_len(&curslots);
                rows.push(ERow { slots: curslots, main_len: ml, height });
                curslots = Vec::new();
                cursor = 0;
                started = false;
                height = 0;
                proof {
                    let st2 = close_row(placed, 0);
                    assert(rows_match(rows@, st2.rows));
                    assert(slots_match(curslots@, st2.cur.slots));
                }
            },
            _ => {
                if started && cursor + margin + w > e {
                    let ml = emain_len(&curslots);
                    rows.push(ERow { slots: curslots, main_len: ml, height });
                    curslots = Vec::new();
                    cursor = 0;
                    started = false;
                    height = 0;
                }
                let ghost wrapped = if would_wrap(st.cur, w as int, margin as int, e as int) {
                    close_row(st, 0)
                } else {
                    st
                };
                proof {
                    assert(rows_match(rows@, wrapped.rows));
                    assert(slots_match(curslots@, wrapped.cur.slots));
                }
                let start = if started {
                    cursor + margin
                } else {
                    cursor
                };
                let ax = if axis_x {
                    it.anchor.x
                } else {
                    it.anchor.y
                };
                let ay = if axis_x {
                    it.anchor.y
                } else {
                    it.anchor.x
                };
                curslots.push(ESlot { entity: it.entity, start, w, h, ax, ay });
                cursor = start + w;
                started = true;
                if h > height {
                    height = h;
                }
            },
        }
        k = k + 1;
        proof {
            let post = items@.subrange(0, k as int);
            let st2 = par_scan(post, margin as int, e as int, axis_x);
            assert(st2 == par_step(st, items@[k as int - 1], margin as int, e as int, axis_x));
            assert(rows_match(rows@, st2.rows));
            assert(slots_match(curslots@, st2.cur.slots));
        }
    }
    proof {
        assert(items@.subrange(0, n as int) =~= items@);
    }
    (rows, curslots, cursor, started, height)
}

/// Place items as a paragraph: fill the primary axis greedily until an
/// item would overflow the fixed extent or an explicit linebreak, then
/// advance along the secondary axis to the next line. The range selects
/// visible lines; the maximum reported is the number of lines.
pub fn paragraph_place(
    direction: LayoutDir,
    secondary: LayoutDir,
    stretch: bool,
    info: &LayoutInfo,
    items: &Vec<LayoutItem>,
    range: &mut LayoutRange,
) -> (out: LayoutOutput)
    requires
        items_wf(items@),
        margin_wf(info.margin),
        info.dimension.bounded(),
        *old(range) is Stepped ==> range_wf(*old(range)),
    ensures
        ({
            let ax = direction.spec_axis_x();
            let rows = par_rows(items@, main_of(info.margin, ax), main_of(info.dimension, ax),
                ax);
            *final(range) == spec_resolve(*old(range), rows.len() as usize)
        }),
        ({
            let m = spec_paragraph(items@, *info, *old(range), direction, secondary, stretch);
            &&& anchors_match(out.entity_anchors@, m.0)
            &&& out.dimension.x == m.1.0
            &&& out.dimension.y == m.1.1
            &&& out.max_count == m.2
        }),
{
    let axis_x = direction.axis_x();
    let rev = direction.reversed();
    let sec_rev = secondary.reversed();
    let margin = if axis_x {
        info.margin.x
    } else {
        info.margin.y
    };
    let margin_cross = if axis_x {
        info.margin.y
    } else {
        info.margin.x
    };
    let e = if axis_x {
        info.dimension.x
    } else {
        info.dimension.y
    };
    let n = items.len();
    let (mut rows, curslots, _cursor, _started, height) = par_scan_exec(items, margin, e,
        axis_x);
    let ghost fin = par_scan(items@, margin as int, e as int, axis_x);
    let ghost model_rows = par_rows(items@, margin as int, e as int, axis_x);
    proof {
        lemma_par_scan_wf(items@, margin as int, e as int, axis_x);
        assert(models(curslots@) =~= fin.cur.slots);
    }
    if curslots.len() > 0 {
        let ml = emain_len(&curslots);
        rows.push(ERow { slots: curslots, main_len: ml, height });
        proof {
            lemma_close_wf(fin, 0, n as int);
            let st2 = close_row(fin, 0);
            assert(model_rows == st2.rows);
            assert(rows_match(rows@, model_rows));
        }
    }
    proof {
        assert(rows_match(rows@, model_rows));
        if fin.cur.slots.len() > 0 {
            assert(rows_wf(close_row(fin, 0).rows)) by {
                lemma_close_wf(fin, 0, n as int);
            }
        }
        assert(rows_wf(model_rows));
        assert(model_rows.len() <= ITEM_COUNT_CAP as int) by {
            if fin.cur.slots.len() > 0 {
                lemma_close_wf(fin, 0, n as int);
            }
        }
    }
    let total_rows = rows.len();
    proof {
        lemma_resolved_range_in_bounds(*range, total_rows);
    }
    range.resolve(total_rows);
    let (rs, re) = range.to_range(total_rows);
    let ghost visible = model_rows.subrange(rs as int, re as int);
    proof {
        assert(rows_wf(visible)) by {
            assert(forall|j: int| 0 <= j < visible.len() ==> visible[j] == model_rows[rs + j]);
        }
        assert(visible.len() <= ITEM_COUNT_CAP as int);
    }
    let mut bases: Vec<i64> = Vec::new();
    let mut acc: i64 = 0;
    let mut j: usize = rs;
    while j < re
        invariant
            rs <= j <= re <= total_rows,
            total_rows == rows@.len(),
            rows_match(rows@, model_rows),
            rows_wf(model_rows),
            visible == model_rows.subrange(rs as int, re as int),
            rows_wf(visible),
            visible.len() == re - rs,
            visible.len() <= ITEM_COUNT_CAP as int,
            -(ITEM_CAP as int) <= margin_cross <= ITEM_CAP as int,
            bases@.len() == j - rs,
            forall|idx: int|
                0 <= idx < j - rs ==> #[trigger] bases@[idx] as int == rows_base(visible,
                    margin_cross as int, idx),
            acc as int == rows_base(visible, margin_cross as int, j - rs),
            -(COORD_CAP as int) <= acc <= COORD_CAP as int,
        decreases re - j,
    {
        proof {
            lemma_rows_base_bound(visible, margin_cross as int, j - rs + 1);
            assert(row_wf(visible[j - rs]));
            assert(erow_model(rows@[j as int]) == model_rows[j as int]);
            assert(model_rows[j as int] == visible[j - rs]);
        }
        bases.push(acc);
        let hj = rows[j].height;
        acc = acc + hj + margin_cross;
        j = j + 1;
    }
    let cnt = re - rs;
    let tc: i64 = if cnt == 0 {
        0
    } else {
        proof {
            assert(rows_base(visible, margin_cross as int, cnt as int) == rows_base(visible,
                margin_cross as int, cnt - 1) + visible[cnt - 1].height + margin_cross);
            assert(row_wf(visible[cnt - 1]));
        }
        acc - margin_cross
    };
    let dim = if axis_x {
        Vec2i { x: e, y: tc }
    } else {
        Vec2i { x: tc, y: e }
    };
    let ghost dims = assemble(e as int, tc as int, axis_x);
    let mut anchors: Vec<(usize, Vec2i)> = Vec::new();
    let mut j2: usize = rs;
    while j2 < re
        invariant
            rs <= j2 <= re <= total_rows,
            total_rows == rows@.len(),
            rows_match(rows@, model_rows),
            rows_wf(visible),
            visible == model_rows.subrange(rs as int, re as int),
            visible.len() == re - rs,
            visible.len() <= ITEM_COUNT_CAP as int,
            -(ITEM_CAP as int) <= margin_cross <= ITEM_CAP as int,
            -(COORD_CAP as int) <= e <= COORD_CAP as int,
            -(COORD_CAP as int) - (ITEM_CAP as int) <= tc <= COORD_CAP as int
                + ITEM_CAP as int,
            bases@.len() == re - rs,
            forall|idx: int|
                0 <= idx < re - rs ==> #[trigger] bases@[idx] as int == rows_base(visible,
                    margin_cross as int, idx),
            tc as int == rows_total(visible, margin_cross as int),
            dims == assemble(e as int, tc as int, axis_x),
            dim.x as int == dims.0,
            dim.y as int == dims.1,
            anchors_match(
                anchors@,
                par_out_upto(visible, margin_cross as int, tc as int, e as int, stretch, rev,
                    sec_rev, axis_x, dims, j2 - rs),
            ),
        decreases re - j2,
    {
        let jr = j2 - rs;
        proof {
            assert(row_wf(visible[jr as int]));
            assert(erow_model(rows@[j2 as int]) == model_rows[j2 as int]);
            assert(model_rows[j2 as int] == visible[jr as int]);
            lemma_rows_base_bound(visible, margin_cross as int, jr as int);
        }
        let row = &rows[j2];
        let base_final: i64 = if sec_rev {
            tc - bases[jr] - row.height
        } else {
            bases[jr]
        };
        let ghost m1 = par_out_upto(visible, margin_cross as int, tc as int, e as int, stretch,
            rev, sec_rev, axis_x, dims, jr as int);
        let ghost old_anchors = anchors@;
        let leftover = e - row.main_len;
        emit_row(&mut anchors, &row.slots, e, leftover, stretch, row.height, base_final, rev,
            axis_x, dim);
        proof {
            let m2 = row_out(visible[jr as int].slots, e as int, e - visible[jr as int].main_len,
                stretch, visible[jr as int].height, row_base_final(visible, margin_cross as int,
                    tc as int, jr as int, sec_rev), rev, axis_x, dims);
            assert(models(row.slots@) == visible[jr as int].slots);
            assert(anchors@.skip(old_anchors.len() as int) =~= anchors@.skip(
                old_anchors.len() as int));
            lemma_match_extend(anchors@, old_anchors, m1, m2);
            assert(par_out_upto(visible, margin_cross as int, tc as int, e as int, stretch, rev,
                sec_rev, axis_x, dims, jr + 1) == m1 + m2);
        }
        j2 = j2 + 1;
    }
    proof {
        assert(visible.len() as int == re - rs);
    }
    LayoutOutput { entity_anchors: anchors, dimension: dim, max_count: total_rows }
}


/// Componentwise maximum dimension over a window of items, from zero.
pub open spec fn bounds_max_dim(window: Seq<LayoutItem>) -> (int, int)
    decreases window.len(),
{
    if window.len() == 0 {
        (0int, 0int)
    } else {
        let p = bounds_max_dim(window.drop_last());
        let d = window.last().dimension;
        (
            if d.x > p.0 {
                d.x as int
            } else {
                p.0
            },
            if d.y > p.1 {
                d.y as int
            } else {
                p.1
            },
        )
    }
}

/// Clamp a value from below by `lo`, then from above by `hi`.
pub open spec fn spec_clamp_axis(v: int, lo: int, hi: int) -> int {
    let a = if v > lo {
        v
    } else {
        lo
    };
    if a < hi {
        a
    } else {
        hi
    }
}

/// The model of a bounds placement: anchors pass through untouched; the
/// dimension is the windowed items' maximum, clamped per axis, or pinned
/// to the parent on fixed axes.
pub open spec fn spec_bounds(
    items: Seq<LayoutItem>,
    info: LayoutInfo,
    range0: LayoutRange,
    b: BoundsLayout,
) -> (Seq<(usize, (int, int))>, (int, int)) {
    let total = items.len() as usize;
    let pair = spec_to_range(spec_resolve(range0, total), total);
    let window = items.subrange(pair.0 as int, pair.1 as int);
    let md = bounds_max_dim(window);
    let dx = if b.fixed_x {
        info.dimension.x as int
    } else {
        spec_clamp_axis(md.0, b.min.x as int, b.max.x as int)
    };
    let dy = if b.fixed_y {
        info.dimension.y as int
    } else {
        spec_clamp_axis(md.1, b.min.y as int, b.max.y as int)
    };
    (
        Seq::new(
            window.len(),
            |j: int| (window[j].entity, (window[j].anchor.x as int, window[j].anchor.y as int)),
        ),
        (dx, dy),
    )
}

/// Place items with the bounds layout: no repositioning, the resolved
/// dimension is the children's maximum clamped to the configured bounds,
/// or the parent's dimension on fixed axes.
pub fn bounds_place(
    b: &BoundsLayout,
    info: &LayoutInfo,
    items: &Vec<LayoutItem>,
    range: &mut LayoutRange,
) -> (out: LayoutOutput)
    requires
        items_wf(items@),
        *old(range) is Stepped ==> range_wf(*old(range)),
    ensures
        *final(range) == spec_resolve(*old(range), items@.len() as usize),
        ({
            let m = spec_bounds(items@, *info, *old(range), *b);
            &&& anchors_match(out.entity_anchors@, m.0)
            &&& out.dimension.x == m.1.0
            &&& out.dimension.y == m.1.1
            &&& out.max_count == items@.len()
        }),
{
    let n = items.len();
    proof {
        lemma_resolved_range_in_bounds(*range, n);
    }
    range.resolve(n);
    let (rs, re) = range.to_range(n);
    let ghost window = items@.subrange(rs as int, re as int);
    let mut anchors: Vec<(usize, Vec2i)> = Vec::new();
    let mut mx: i64 = 0;
    let mut my: i64 = 0;
    let mut k: usize = rs;
    proof {
        assert(items@.subrange(rs as int, rs as int) =~= Seq::<LayoutItem>::empty());
    }
    while k < re
        invariant
            items_wf(items@),
            rs <= k <= re <= n,
            n == items@.len(),
            window == items@.subrange(rs as int, re as int),
            ({
                let sofar = items@.subrange(rs as int, k as int);
                let md = bounds_max_dim(sofar);
                &&& mx as int == md.0
                &&& my as int == md.1
                &&& anchors@.len() == sofar.len()
                &&& forall|j: int|
                    0 <= j < sofar.len() ==> #[trigger] anchors@[j] == (
                    sofar[j].entity,
                    sofar[j].anchor,
                )
            }),
        decreases re - k,
    {
        proof {
            assert(items@.subrange(rs as int, k as int + 1).drop_last() =~= items@.subrange(
                rs as int, k as int));
            assert(items@.subrange(rs as int, k as int + 1).last() == items@[k as int]);
        }
        let it = items[k];
        if it.dimension.x > mx {
            mx = it.dimension.x;
        }
        if it.dimension.y > my {
            my = it.dimension.y;
        }
        anchors.push((it.entity, it.anchor));
        k = k + 1;
    }
    let dx = if b.fixed_x {
        info.dimension.x
    } else {
        let a = if mx > b.min.x {
            mx
        } else {
            b.min.x
        };
        if a < b.max.x {
            a
        } else {
            b.max.x
        }
    };
    let dy = if b.fixed_y {
        info.dimension.y
    } else {
        let a = if my > b.min.y {
            my
        } else {
            b.min.y
        };
        if a < b.max.y {
            a
        } else {
            b.max.y
        }
    };
    proof {
        let m = spec_bounds(items@, *info, *old(range), *b);
        assert(anchors_match(anchors@, m.0));
    }
    LayoutOutput { entity_anchors: anchors, dimension: Vec2i { x: dx, y: dy }, max_count: n }
}

/// The range a placement leaves behind: resolved against the layout's
/// logical total, which is the item count for every layout but the
/// paragraph, where it is the line count.
pub open spec fn spec_place_range(
    lay: LayoutObject,
    items: Seq<LayoutItem>,
    info: LayoutInfo,
    range0: LayoutRange,
) -> LayoutRange {
    match lay {
        LayoutObject::Paragraph(p) => {
            let ax = p.direction.spec_axis_x();
            let rows = par_rows(items, main_of(info.margin, ax), main_of(info.dimension, ax),
                ax);
            spec_resolve(range0, rows.len() as usize)
        },
        _ => spec_resolve(range0, items.len() as usize),
    }
}

/// The model of a placement: anchors, dimension and maximum, by layout.
pub open spec fn spec_place_out(
    lay: LayoutObject,
    items: Seq<LayoutItem>,
    info: LayoutInfo,
    range0: LayoutRange,
) -> (Seq<(usize, (int, int))>, (int, int), int) {
    match lay {
        LayoutObject::Bounds(b) => {
            let m = spec_bounds(items, info, range0, b);
            (m.0, m.1, items.len() as int)
        },
        LayoutObject::Stack(st) => {
            let m = spec_stack(items, info, range0, st.direction);
            (m.0, m.1, items.len() as int)
        },
        LayoutObject::Span(sp) => {
            let m = spec_span(items, info, range0, sp.direction, sp.stretch);
            (m.0, m.1, items.len() as int)
        },
        LayoutObject::Paragraph(p) => spec_paragraph(items, info, range0, p.direction,
            p.secondary, p.stretch),
    }
}

impl LayoutObject {
    /// Place items in the layout: a pure, deterministic function of the
    /// ordered input. Anchors come back normalized to fractions of the
    /// resolved dimension, so the caller treats every layout uniformly.
    pub fn place(&self, parent: &LayoutInfo, entities: &Vec<LayoutItem>,
        range: &mut LayoutRange) -> (out: LayoutOutput)
        requires
            items_wf(entities@),
            margin_wf(parent.margin),
            parent.dimension.bounded(),
            *old(range) is Stepped ==> range_wf(*old(range)),
        ensures
            *final(range) == spec_place_range(*self, entities@, *parent, *old(range)),
            ({
                let m = spec_place_out(*self, entities@, *parent, *old(range));
                &&& anchors_match(out.entity_anchors@, m.0)
                &&& out.dimension.x == m.1.0
                &&& out.dimension.y == m.1.1
                &&& out.max_count == m.2
            }),
    {
        match self {
            LayoutObject::Bounds(b) => bounds_place(b, parent, entities, range),
            LayoutObject::Stack(st) => stack_place(st.direction, parent, entities, range),
            LayoutObject::Span(sp) => span_place(sp.direction, sp.stretch, parent, entities,
                range),
            LayoutObject::Paragraph(p) => paragraph_place(p.direction, p.secondary, p.stretch,
                parent, entities, range),
        }
    }
}


/// An item that always occupies a box: neither whitespace nor a marker.
pub open spec fn plain_item(it: LayoutItem) -> bool {
    !(it.control is WhiteSpace) && !(it.control is LinebreakMarker)
}

/// With plain items only, the row scan places every item, each box
/// starting exactly at the previous box's end plus one margin: the
/// positions are the running sum of prior extents and margins.
pub proof fn lemma_row_scan_chain(items: Seq<LayoutItem>, margin: int, axis_x: bool)
    requires
        items_wf(items),
        -(ITEM_CAP as int) <= margin <= ITEM_CAP as int,
        forall|k: int| 0 <= k < items.len() ==> plain_item(#[trigger] items[k]),
    ensures
        ({
            let st = row_scan(items, margin, axis_x);
            &&& st.slots.len() == items.len()
            &&& items.len() > 0 ==> st.slots[0].start == 0
            &&& forall|j: int|
                0 <= j < items.len() ==> (#[trigger] st.slots[j]).w == main_of(
                    items[j].dimension, axis_x)
            &&& forall|j: int|
                0 <= j < items.len() - 1 ==> #[trigger] st.slots[j + 1].start == st.slots[j].start
                    + st.slots[j].w + margin
            &&& items.len() > 0 ==> st.cursor == st.slots.last().start + st.slots.last().w
        }),
    decreases items.len(),
{
    if items.len() > 0 {
        let prefix = items.drop_last();
        assert(items_wf(prefix) && forall|k: int|
            0 <= k < prefix.len() ==> plain_item(#[trigger] prefix[k])) by {
            assert(forall|j: int| 0 <= j < prefix.len() ==> prefix[j] == items[j]);
        }
        lemma_row_scan_chain(prefix, margin, axis_x);
        let st = row_scan(prefix, margin, axis_x);
        let st2 = row_scan(items, margin, axis_x);
        assert(items.last() == items[items.len() - 1]);
        assert(st2 == row_step(st, items.last(), margin, axis_x));
        assert(forall|j: int| 0 <= j < st.slots.len() ==> st2.slots[j] == st.slots[j]);
        assert(st2.slots.last() == st2.slots[st2.slots.len() - 1]);
    }
}

/// Stack positions follow the cumulative extent plus margin, and with a
/// nonnegative margin and positive extents they strictly increase along
/// the direction; mirrored for a reversed direction, they strictly
/// decrease.
pub proof fn lemma_stack_monotone(items: Seq<LayoutItem>, margin: int, axis_x: bool,
    total: int, j: int)
    requires
        items_wf(items),
        0 <= margin <= ITEM_CAP as int,
        forall|k: int| 0 <= k < items.len() ==> plain_item(#[trigger] items[k]),
        forall|k: int| 0 <= k < items.len() ==> main_of(#[trigger] items[k].dimension, axis_x)
            > 0,
        0 <= j < items.len() - 1,
    ensures
        ({
            let st = row_scan(items, margin, axis_x);
            &&& st.slots[j + 1].start == st.slots[j].start + st.slots[j].w + margin
            &&& st.slots[j].start < st.slots[j + 1].start
            &&& total - st.slots[j + 1].start - st.slots[j + 1].w < total - st.slots[j].start
                - st.slots[j].w
        }),
{
    lemma_row_scan_chain(items, margin, axis_x);
    let st = row_scan(items, margin, axis_x);
    assert(st.slots[j].w == main_of(items[j].dimension, axis_x));
    assert(st.slots[j + 1].w == main_of(items[j + 1].dimension, axis_x));
}

/// A paragraph starts a new line exactly at the first plain item whose
/// inclusion would overflow the fixed extent: processing item `k` closes
/// the open line if and only if the line is occupied and one margin plus
/// the item's extent pushes the cursor past the extent; the item then
/// opens the next line at zero. An item that alone exceeds the extent
/// thus occupies its own line.
pub proof fn lemma_paragraph_wrap(items: Seq<LayoutItem>, margin: int, extent: int,
    axis_x: bool, k: int)
    requires
        items_wf(items),
        -(ITEM_CAP as int) <= margin <= ITEM_CAP as int,
        0 <= k < items.len(),
        items[k].control is Normal,
    ensures
        ({
            let st = par_scan(items.take(k), margin, extent, axis_x);
            let st2 = par_scan(items.take(k + 1), margin, extent, axis_x);
            let w = main_of(items[k].dimension, axis_x);
            &&& (would_wrap(st.cur, w, margin, extent) ==> {
                &&& st2.rows.len() == st.rows.len() + 1
                &&& st2.cur.slots.len() == 1
                &&& st2.cur.slots[0].start == 0
            })
            &&& (!would_wrap(st.cur, w, margin, extent) ==> {
                &&& st2.rows.len() == st.rows.len()
                &&& st2.cur.slots.len() == st.cur.slots.len() + 1
            })
        }),
{
    let pre = items.take(k);
    let post = items.take(k + 1);
    assert(post.drop_last() =~= pre);
    assert(post.last() == items[k]);
    let st = par_scan(pre, margin, extent, axis_x);
    let st2 = par_scan(post, margin, extent, axis_x);
    assert(st2 == par_step(st, items[k], margin, extent, axis_x));
}

} // verus!
