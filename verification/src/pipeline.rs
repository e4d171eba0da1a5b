//! The hierarchy walker: one tick of layout over a snapshot of the node
//! graph.
//!
//! The caller hands the graph as plain data: frames with their direct
//! children, and nodes with ordered child handles. Nodes are processed in
//! handle order; a child's context is written by its parent before the
//! walk reaches it, so handles are expected to grow from parent to child,
//! as a level-order numbering of the graph gives. A node the walk never
//! reaches — an orphan, or a child whose handle does not grow — is left
//! without output, exactly as a node missing its descriptors would be.

use vstd::prelude::*;

use crate::container::{Container, LayoutControl, LayoutRange};
use crate::geom::{Rot2, Vec2i};
use crate::hierarchy::RectrayFrame;
use crate::layouts::{items_wf, LayoutInfo, LayoutItem};
use crate::num::{cap, cap_frac, div_trunc, spec_cap, spec_cap_frac, tdiv, COORD_CAP, FRAC_CAP,
    HALF, ITEM_CAP, ITEM_COUNT_CAP, UNIT};
use crate::rect::{spec_construct, spec_construct2, spec_is_inside, spec_nudge_ext,
    spec_rect_anchor, spec_transform_mul, spec_under_transform, Anchor, LocalTransform,
    ParentInfo, RotatedRect, Transform2};
use crate::span::{anchors_match, spec_place_out, spec_place_range};
use crate::tooltip::{spec_anchor_of, spec_parent_anchor_of, spec_anchor_swaps, AnchorDirection,
    OutOfFrameBehavior};
use crate::transform::Transform2D;

verus! {

/// One managed node of the snapshot.
#[derive(Debug, Clone, PartialEq)]
pub struct SceneNode {
    /// Suggested dimension of the node.
    pub dimension: Vec2i,
    /// The node's transform descriptor.
    pub transform: Transform2D,
    /// The container configuration, if the node arranges its children.
    pub container: Option<Container>,
    /// The out-of-frame policy of the node.
    pub behavior: OutOfFrameBehavior,
    /// The node's own control flag inside a parent container.
    pub control: LayoutControl,
    /// Handles of the node's direct children, in visual order.
    pub children: Vec<usize>,
}

/// One root frame of the snapshot.
#[derive(Debug, Clone, PartialEq)]
pub struct SceneFrame {
    pub frame: RectrayFrame,
    /// An external handle for the frame, carried into the outputs.
    pub id: u64,
    /// Handles of the frame's direct children.
    pub children: Vec<usize>,
}

/// The per-node result of one tick.
#[derive(Debug, Clone, Copy, PartialEq)]
pub struct NodeOutput {
    /// The node's rectangle in frame space.
    pub rect: RotatedRect,
    /// The local transform target for the node's geometry write.
    pub local: LocalTransform,
    /// For a container: the resolved range and the computed maximum, to
    /// be written back into the container.
    pub container_update: Option<(LayoutRange, usize)>,
}

/// A node the walker can consume: bounded extents, a meaningful
/// descriptor, a meaningful container, children handles within the
/// snapshot.
pub open spec fn node_wf(n: SceneNode, len: int) -> bool {
    &&& -(ITEM_CAP as int) <= n.dimension.x <= ITEM_CAP as int
    &&& -(ITEM_CAP as int) <= n.dimension.y <= ITEM_CAP as int
    &&& n.transform.wf()
    &&& (n.container matches Option::Some(c) ==> {
        &&& c.wf()
        &&& -(ITEM_CAP as int) <= c.margin.x <= ITEM_CAP as int
        &&& -(ITEM_CAP as int) <= c.margin.y <= ITEM_CAP as int
        &&& -(ITEM_CAP as int) <= c.padding.x <= ITEM_CAP as int
        &&& -(ITEM_CAP as int) <= c.padding.y <= ITEM_CAP as int
        &&& layout_wf(c.layout)
    })
    &&& n.children@.len() <= ITEM_COUNT_CAP
    &&& forall|k: int| 0 <= k < n.children@.len() ==> 0 <= #[trigger] n.children@[k] < len
}

/// Bounds configured on a layout stay within the coordinate range.
pub open spec fn layout_wf(l: crate::layouts::LayoutObject) -> bool {
    match l {
        crate::layouts::LayoutObject::Bounds(b) => {
            &&& b.min.bounded()
            &&& b.max.bounded()
        },
        _ => true,
    }
}

pub open spec fn frame_wf(f: SceneFrame, len: int) -> bool {
    &&& f.frame.wf()
    &&& forall|k: int| 0 <= k < f.children@.len() ==> 0 <= #[trigger] f.children@[k] < len
}

/// A snapshot the walker can consume.
pub open spec fn scene_wf(frames: Seq<SceneFrame>, nodes: Seq<SceneNode>) -> bool {
    &&& nodes.len() <= ITEM_COUNT_CAP
    &&& forall|i: int| 0 <= i < nodes.len() ==> node_wf(#[trigger] nodes[i], nodes.len() as int)
    &&& forall|i: int|
        0 <= i < frames.len() ==> frame_wf(#[trigger] frames[i], nodes.len() as int)
}

/// The context a frame hands each of its direct children.
pub open spec fn frame_pinfo(fr: SceneFrame) -> ParentInfo {
    ParentInfo {
        dimension: fr.frame.dimension,
        center: fr.frame.at,
        anchor: Option::None,
        affine: Transform2 {
            translation: Vec2i { x: 0, y: 0 },
            rotation: Rot2 { c: UNIT as i64, s: 0 },
            scale: Vec2i { x: UNIT as i64, y: UNIT as i64 },
        },
        frame: fr.id,
        frame_rect: fr.frame.spec_rect(),
    }
}

/// Seed the pending contexts with one frame's children.
pub open spec fn seed_children(p: Seq<Option<ParentInfo>>, fr: SceneFrame, k: int) -> Seq<
    Option<ParentInfo>,
>
    decreases k,
{
    if k <= 0 {
        p
    } else {
        let p2 = seed_children(p, fr, k - 1);
        let c = fr.children@[k - 1];
        if c < p2.len() {
            p2.update(c as int, Option::Some(frame_pinfo(fr)))
        } else {
            p2
        }
    }
}

/// Seed the pending contexts with every frame's children, in frame
/// order.
pub open spec fn seed_frames(frames: Seq<SceneFrame>, n: int) -> Seq<Option<ParentInfo>>
    decreases frames.len(),
{
    if frames.len() == 0 {
        Seq::new(n as nat, |i: int| Option::None)
    } else {
        seed_children(
            seed_frames(frames.drop_last(), n),
            frames.last(),
            frames.last().children@.len() as int,
        )
    }
}

/// The placement request a child contributes to its parent container.
pub open spec fn item_of(nodes: Seq<SceneNode>, c: int) -> LayoutItem {
    LayoutItem {
        entity: c as usize,
        anchor: nodes[c].transform.spec_get_parent_anchor(),
        dimension: nodes[c].dimension,
        control: nodes[c].control,
    }
}

/// The ordered placement requests of a container's managed children: all
/// but those that opted out of the layout.
pub open spec fn collect_items(nodes: Seq<SceneNode>, children: Seq<usize>, k: int) -> Seq<
    LayoutItem,
>
    decreases k,
{
    if k <= 0 {
        Seq::empty()
    } else {
        let pre = collect_items(nodes, children, k - 1);
        let c = children[k - 1] as int;
        if nodes[c].control is IgnoreLayout {
            pre
        } else {
            pre.push(item_of(nodes, c))
        }
    }
}

/// The children that opted out of the layout and are positioned by their
/// own anchor.
pub open spec fn collect_ignored(nodes: Seq<SceneNode>, children: Seq<usize>, k: int) -> Seq<
    usize,
>
    decreases k,
{
    if k <= 0 {
        Seq::empty()
    } else {
        let pre = collect_ignored(nodes, children, k - 1);
        let c = children[k - 1] as int;
        if nodes[c].control is IgnoreLayout {
            pre.push(children[k - 1])
        } else {
            pre
        }
    }
}

/// Rescale a normalized child anchor so it stays correct after padding
/// grows the container: multiply by `dim / size`, truncating. A
/// degenerate size leaves the fraction unscaled; the result saturates
/// into the fraction range either way.
pub open spec fn spec_rescale(a: int, d: int, s: int) -> int {
    spec_cap_frac(
        if s > 0 {
            tdiv(spec_cap_frac(a) * d, s)
        } else {
            spec_cap_frac(a)
        },
    )
}

/// The first candidate placement whose frame-space rectangle stays inside
/// the frame, starting at candidate `j`; the descriptor's own placement
/// when every candidate fails.
pub open spec fn spec_swap_from(
    pinfo: ParentInfo,
    t: Transform2D,
    dimension: Vec2i,
    cands: Seq<AnchorDirection>,
    j: int,
) -> RotatedRect
    decreases cands.len() - j,
{
    if j < 0 || j >= cands.len() {
        spec_construct(pinfo, t, dimension, pinfo.frame)
    } else {
        let r = spec_construct2(
            pinfo,
            t,
            spec_parent_anchor_of(cands[j]),
            spec_anchor_of(cands[j]),
            dimension,
            pinfo.frame,
        );
        if spec_is_inside(spec_under_transform(r, pinfo.affine), pinfo.frame_rect) {
            r
        } else {
            spec_swap_from(pinfo, t, dimension, cands, j + 1)
        }
    }
}

/// The rectangle a leaf resolves to under its out-of-frame policy.
///
/// The descriptor's own placement is implicitly tried first by the
/// anchor-swap policy.
pub open spec fn spec_resolve_leaf(
    pinfo: ParentInfo,
    t: Transform2D,
    dimension: Vec2i,
    behavior: OutOfFrameBehavior,
) -> RotatedRect {
    let base = spec_construct(pinfo, t, dimension, pinfo.frame);
    match behavior {
        OutOfFrameBehavior::Unchanged => base,
        OutOfFrameBehavior::Nudge => {
            let frame_space = spec_under_transform(base, pinfo.affine);
            RotatedRect {
                center: spec_nudge_ext(frame_space, pinfo.frame_rect, base.center),
                ..base
            }
        },
        OutOfFrameBehavior::AnchorSwap { .. } => {
            if spec_is_inside(spec_under_transform(base, pinfo.affine), pinfo.frame_rect) {
                base
            } else {
                spec_swap_from(pinfo, t, dimension, spec_anchor_swaps(behavior), 0)
            }
        },
    }
}


/// The walker's step for one node: its output, and the contexts it hands
/// its children.
///
/// A container places its managed children with its own suggested
/// dimension as the layout parent, expands the resolved dimension by
/// twice its padding, and rescales the children's normalized anchors by
/// `dimension / (dimension + padding)`; the children's context carries
/// the padded size, so the rescaled fractions keep pointing at the same
/// spots.
pub open spec fn spec_process_node(nodes: Seq<SceneNode>, i: int, pinfo: ParentInfo) -> (
    NodeOutput,
    Seq<(usize, ParentInfo)>,
) {
    let node = nodes[i];
    let center = node.transform.spec_get_center();
    let neg_center = Vec2i { x: (-center.x) as i64, y: (-center.y) as i64 };
    match node.container {
        Option::Some(c) => {
            let children = node.children@;
            let items = collect_items(nodes, children, children.len() as int);
            let ignored = collect_ignored(nodes, children, children.len() as int);
            let linfo = LayoutInfo { dimension: node.dimension, margin: c.margin };
            let new_range = spec_place_range(c.layout, items, linfo, c.range);
            let m = spec_place_out(c.layout, items, linfo, c.range);
            let dim0 = Vec2i { x: spec_cap(m.1.0) as i64, y: spec_cap(m.1.1) as i64 };
            let pad2 = Vec2i {
                x: spec_cap(2 * c.padding.x) as i64,
                y: spec_cap(2 * c.padding.y) as i64,
            };
            let size = crate::geom::spec_add(dim0, pad2);
            let rect = spec_construct(pinfo, node.transform, size, pinfo.frame);
            let translation = spec_rect_anchor(rect, neg_center);
            let info2 = ParentInfo {
                dimension: size,
                center,
                anchor: Option::None,
                affine: spec_transform_mul(
                    pinfo.affine,
                    Transform2 { translation, rotation: rect.rotation, scale: rect.scale },
                ),
                frame: pinfo.frame,
                frame_rect: pinfo.frame_rect,
            };
            let enq = Seq::new(
                m.0.len() + ignored.len(),
                |j: int|
                    if j < m.0.len() {
                        (
                            m.0[j].0,
                            ParentInfo {
                                anchor: Option::Some(
                                    Vec2i {
                                        x: spec_rescale((m.0[j].1.0 as i64) as int,
                                            dim0.x as int, size.x as int) as i64,
                                        y: spec_rescale((m.0[j].1.1 as i64) as int,
                                            dim0.y as int, size.y as int) as i64,
                                    },
                                ),
                                ..info2
                            },
                        )
                    } else {
                        (ignored[j - m.0.len()], info2)
                    },
            );
            let out = NodeOutput {
                rect: spec_under_transform(rect, pinfo.affine),
                local: LocalTransform {
                    translation,
                    z: rect.z,
                    rotation: rect.rotation,
                    scale: rect.scale,
                },
                container_update: Option::Some((new_range, m.2 as usize)),
            };
            (out, enq)
        },
        Option::None => {
            let rect = spec_resolve_leaf(pinfo, node.transform, node.dimension, node.behavior);
            let translation = spec_rect_anchor(rect, neg_center);
            let info2 = ParentInfo {
                dimension: node.dimension,
                center,
                anchor: Option::None,
                affine: spec_transform_mul(
                    pinfo.affine,
                    Transform2 { translation, rotation: rect.rotation, scale: rect.scale },
                ),
                frame: pinfo.frame,
                frame_rect: pinfo.frame_rect,
            };
            let enq = Seq::new(
                node.children@.len(),
                |k: int| (node.children@[k], info2),
            );
            let out = NodeOutput {
                rect: spec_under_transform(rect, pinfo.affine),
                local: LocalTransform {
                    translation,
                    z: rect.z,
                    rotation: rect.rotation,
                    scale: rect.scale,
                },
                container_update: Option::None,
            };
            (out, enq)
        },
    }
}

/// Hand the enqueued contexts to their children; a handle outside the
/// snapshot is dropped.
pub open spec fn apply_enq(
    p: Seq<Option<ParentInfo>>,
    enq: Seq<(usize, ParentInfo)>,
    k: int,
) -> Seq<Option<ParentInfo>>
    decreases k,
{
    if k <= 0 {
        p
    } else {
        let p2 = apply_enq(p, enq, k - 1);
        let c = enq[k - 1].0;
        if c < p2.len() {
            p2.update(c as int, Option::Some(enq[k - 1].1))
        } else {
            p2
        }
    }
}

/// The walk after the first `k` nodes: the pending contexts and the
/// outputs produced so far. A node without a context is skipped, and its
/// never-seeded subtree with it.
pub open spec fn walk_upto(frames: Seq<SceneFrame>, nodes: Seq<SceneNode>, k: int) -> (
    Seq<Option<ParentInfo>>,
    Seq<Option<NodeOutput>>,
)
    decreases k,
{
    if k <= 0 {
        (seed_frames(frames, nodes.len() as int), Seq::empty())
    } else {
        let st = walk_upto(frames, nodes, k - 1);
        match st.0[k - 1] {
            Option::None => (st.0, st.1.push(Option::None)),
            Option::Some(pinfo) => {
                let step = spec_process_node(nodes, k - 1, pinfo);
                (
                    apply_enq(st.0, step.1, step.1.len() as int),
                    st.1.push(Option::Some(step.0)),
                )
            },
        }
    }
}

/// The outputs of one tick over the whole snapshot.
pub open spec fn spec_compute(frames: Seq<SceneFrame>, nodes: Seq<SceneNode>) -> Seq<
    Option<NodeOutput>,
> {
    walk_upto(frames, nodes, nodes.len() as int).1
}

pub open spec fn nodes_wf(nodes: Seq<SceneNode>) -> bool {
    &&& nodes.len() <= ITEM_COUNT_CAP
    &&& forall|i: int| 0 <= i < nodes.len() ==> node_wf(#[trigger] nodes[i], nodes.len() as int)
}

/// The context a frame hands its children, executably.
fn frame_pinfo_exec(fr: &SceneFrame) -> (r: ParentInfo)
    requires
        fr.frame.wf(),
    ensures
        r == frame_pinfo(*fr),
        r.wf(),
{
    ParentInfo {
        dimension: fr.frame.dimension,
        center: fr.frame.at,
        anchor: Option::None,
        affine: Transform2::identity(),
        frame: fr.id,
        frame_rect: fr.frame.rect(),
    }
}

/// Partition a container's children into placement requests and
/// children that opted out of the layout.
fn collect_items_exec(nodes: &Vec<SceneNode>, children: &Vec<usize>) -> (r: (
    Vec<LayoutItem>,
    Vec<usize>,
))
    requires
        nodes_wf(nodes@),
        forall|k: int| 0 <= k < children@.len() ==> #[trigger] children@[k] < nodes@.len(),
        children@.len() <= ITEM_COUNT_CAP,
    ensures
        r.0@ == collect_items(nodes@, children@, children@.len() as int),
        r.1@ == collect_ignored(nodes@, children@, children@.len() as int),
        items_wf(r.0@),
{
    let m = children.len();
    let mut items: Vec<LayoutItem> = Vec::new();
    let mut ignored: Vec<usize> = Vec::new();
    let mut k: usize = 0;
    while k < m
        invariant
            nodes_wf(nodes@),
            forall|j: int| 0 <= j < children@.len() ==> #[trigger] children@[j] < nodes@.len(),
            children@.len() <= ITEM_COUNT_CAP,
            m == children@.len(),
            k <= m,
            items@ == collect_items(nodes@, children@, k as int),
            ignored@ == collect_ignored(nodes@, children@, k as int),
            items@.len() <= k,
        decreases m - k,
    {
        let c = children[k];
        let node = &nodes[c];
        proof {
            assert(node_wf(nodes@[c as int], nodes@.len() as int));
        }
        match node.control {
            LayoutControl::IgnoreLayout => {
                ignored.push(c);
            },
            _ => {
                items.push(
                    LayoutItem {
                        entity: c,
                        anchor: node.transform.get_parent_anchor(),
                        dimension: node.dimension,
                        control: node.control,
                    },
                );
            },
        }
        k = k + 1;
    }
    proof {
        assert forall|j: int| 0 <= j < items@.len() implies {
            let it = #[trigger] items@[j];
            &&& -(ITEM_CAP as int) <= it.dimension.x <= ITEM_CAP as int
            &&& -(ITEM_CAP as int) <= it.dimension.y <= ITEM_CAP as int
            &&& -(HALF as int) <= it.anchor.x <= HALF as int
            &&& -(HALF as int) <= it.anchor.y <= HALF as int
        } by {
            lemma_collect_items_wf(nodes@, children@, children@.len() as int, j);
        }
    }
    (items, ignored)
}

/// Every collected placement request carries a bounded dimension and a
/// well-formed anchor from a well-formed snapshot.
proof fn lemma_collect_items_wf(nodes: Seq<SceneNode>, children: Seq<usize>, k: int, j: int)
    requires
        nodes_wf(nodes),
        forall|t: int| 0 <= t < children.len() ==> #[trigger] children[t] < nodes.len(),
        0 <= k <= children.len(),
        0 <= j < collect_items(nodes, children, k).len(),
    ensures
        ({
            let it = collect_items(nodes, children, k)[j];
            &&& -(ITEM_CAP as int) <= it.dimension.x <= ITEM_CAP as int
            &&& -(ITEM_CAP as int) <= it.dimension.y <= ITEM_CAP as int
            &&& -(HALF as int) <= it.anchor.x <= HALF as int
            &&& -(HALF as int) <= it.anchor.y <= HALF as int
        }),
    decreases k,
{
    if k > 0 {
        let pre = collect_items(nodes, children, k - 1);
        if j < pre.len() {
            lemma_collect_items_wf(nodes, children, k - 1, j);
        } else {
            let c = children[k - 1] as int;
            assert(node_wf(nodes[c], nodes.len() as int));
        }
    }
}

/// Rescale a normalized child anchor against the padded size.
fn rescale(a: i64, d: i64, s: i64) -> (r: i64)
    requires
        -(COORD_CAP as int) <= d <= COORD_CAP as int,
    ensures
        r as int == spec_rescale(a as int, d as int, s as int),
        -FRAC_CAP <= r <= FRAC_CAP,
{
    let a0 = cap_frac(a);
    let raw = if s > 0 {
        proof {
            assert(-2_000_000_000_000_000_000 <= (a0 as int) * (d as int)
                <= 2_000_000_000_000_000_000) by (nonlinear_arith)
                requires
                    -FRAC_CAP <= a0 <= FRAC_CAP,
                    -(COORD_CAP as int) <= d <= COORD_CAP as int,
            ;
        }
        div_trunc(a0 * d, s)
    } else {
        a0
    };
    cap_frac(raw)
}

/// Resolve a leaf's rectangle under its out-of-frame policy.
fn resolve_leaf(pinfo: &ParentInfo, t: &Transform2D, dimension: Vec2i,
    behavior: &OutOfFrameBehavior) -> (r: RotatedRect)
    requires
        pinfo.wf(),
        t.wf(),
        dimension.bounded(),
    ensures
        r == spec_resolve_leaf(*pinfo, *t, dimension, *behavior),
        r.wf(),
{
    let base = RotatedRect::construct(pinfo, t, dimension, pinfo.frame);
    match behavior {
        OutOfFrameBehavior::Unchanged => base,
        OutOfFrameBehavior::Nudge => {
            let frame_space = base.under_transform2(pinfo.affine);
            let mut center = base.center;
            frame_space.nudge_inside_ext(pinfo.frame_rect, &mut center);
            RotatedRect { center, ..base }
        },
        OutOfFrameBehavior::AnchorSwap { .. } => {
            if base.under_transform2(pinfo.affine).is_inside(pinfo.frame_rect) {
                base
            } else {
                let cands = behavior.iter_anchor_swaps();
                let n = cands.len();
                let mut j: usize = 0;
                let mut result = base;
                let mut found = false;
                while j < n && !found
                    invariant
                        pinfo.wf(),
                        t.wf(),
                        dimension.bounded(),
                        n == cands@.len(),
                        cands@ == spec_anchor_swaps(*behavior),
                        j <= n,
                        !found ==> spec_swap_from(*pinfo, *t, dimension, cands@, 0)
                            == spec_swap_from(*pinfo, *t, dimension, cands@, j as int),
                        found ==> result == spec_swap_from(*pinfo, *t, dimension, cands@, 0),
                        found ==> result.wf(),
                        !found ==> result == base,
                    decreases n - j,
                {
                    let cand = cands[j];
                    let rj = RotatedRect::construct2(pinfo, t, cand.to_parent_anchor().as_vec(),
                        cand.to_anchor().as_vec(), dimension, pinfo.frame);
                    if rj.under_transform2(pinfo.affine).is_inside(pinfo.frame_rect) {
                        result = rj;
                        found = true;
                    }
                    j = j + 1;
                }
                if found {
                    result
                } else {
                    proof {
                        assert(spec_swap_from(*pinfo, *t, dimension, cands@, n as int)
                            == spec_construct(*pinfo, *t, dimension, pinfo.frame));
                    }
                    base
                }
            }
        },
    }
}


/// Process one node: compute its output and the contexts for its
/// children.
#[verifier::rlimit(100)]
fn process_node(nodes: &Vec<SceneNode>, i: usize, pinfo: &ParentInfo) -> (r: (
    NodeOutput,
    Vec<(usize, ParentInfo)>,
))
    requires
        nodes_wf(nodes@),
        i < nodes@.len(),
        pinfo.wf(),
    ensures
        ({
            let m = spec_process_node(nodes@, i as int, *pinfo);
            &&& r.0 == m.0
            &&& r.1@ == m.1
        }),
        forall|j: int| 0 <= j < r.1@.len() ==> (#[trigger] r.1@[j].1).wf(),
{
    let node = &nodes[i];
    proof {
        assert(node_wf(nodes@[i as int], nodes@.len() as int));
    }
    let center = node.transform.get_center();
    let neg_center = Vec2i { x: -center.x, y: -center.y };
    match &node.container {
        Option::Some(c) => {
            let (items, ignored) = collect_items_exec(nodes, &node.children);
            let linfo = LayoutInfo { dimension: node.dimension, margin: c.margin };
            let mut range = c.range;
            let out = c.layout.place(&linfo, &items, &mut range);
            let dim0 = Vec2i { x: cap(out.dimension.x), y: cap(out.dimension.y) };
            let pad2 = Vec2i {
                x: cap(c.padding.x + c.padding.x),
                y: cap(c.padding.y + c.padding.y),
            };
            let size = dim0.add(pad2);
            let rect = RotatedRect::construct(pinfo, &node.transform, size, pinfo.frame);
            let translation = rect.anchor(Anchor::At(neg_center));
            let info2 = ParentInfo {
                dimension: size,
                center,
                anchor: Option::None,
                affine: pinfo.affine.mul(
                    Transform2 { translation, rotation: rect.rotation, scale: rect.scale },
                ),
                frame: pinfo.frame,
                frame_rect: pinfo.frame_rect,
            };
            let ghost m = spec_process_node(nodes@, i as int, *pinfo);
            let mut enq: Vec<(usize, ParentInfo)> = Vec::new();
            let na = out.entity_anchors.len();
            let mut j: usize = 0;
            while j < na
                invariant
                    na == out.entity_anchors@.len(),
                    j <= na,
                    enq@.len() == j,
                    dim0.bounded(),
                    size.bounded(),
                    info2.wf(),
                    forall|t: int|
                        0 <= t < j ==> #[trigger] enq@[t] == (
                        out.entity_anchors@[t].0,
                        ParentInfo {
                            anchor: Option::Some(
                                Vec2i {
                                    x: spec_rescale(out.entity_anchors@[t].1.x as int,
                                        dim0.x as int, size.x as int) as i64,
                                    y: spec_rescale(out.entity_anchors@[t].1.y as int,
                                        dim0.y as int, size.y as int) as i64,
                                },
                            ),
                            ..info2
                        },
                    ),
                    forall|t: int| 0 <= t < j ==> (#[trigger] enq@[t].1).wf(),
                decreases na - j,
            {
                let (e, a) = out.entity_anchors[j];
                let anc = Vec2i { x: rescale(a.x, dim0.x, size.x), y: rescale(a.y, dim0.y,
                    size.y) };
                enq.push((e, ParentInfo { anchor: Option::Some(anc), ..info2 }));
                j = j + 1;
            }
            let ni = ignored.len();
            let mut j2: usize = 0;
            while j2 < ni
                invariant
                    ni == ignored@.len(),
                    j2 <= ni,
                    enq@.len() == na + j2,
                    na == out.entity_anchors@.len(),
                    info2.wf(),
                    forall|t: int| 0 <= t < na + j2 ==> (#[trigger] enq@[t].1).wf(),
                    forall|t: int|
                        0 <= t < na ==> #[trigger] enq@[t] == (
                        out.entity_anchors@[t].0,
                        ParentInfo {
                            anchor: Option::Some(
                                Vec2i {
                                    x: spec_rescale(out.entity_anchors@[t].1.x as int,
                                        dim0.x as int, size.x as int) as i64,
                                    y: spec_rescale(out.entity_anchors@[t].1.y as int,
                                        dim0.y as int, size.y as int) as i64,
                                },
                            ),
                            ..info2
                        },
                    ),
                    forall|t: int|
                        0 <= t < j2 ==> #[trigger] enq@[na + t] == (ignored@[t], info2),
                decreases ni - j2,
            {
                let c2 = ignored[j2];
                enq.push((c2, info2));
                j2 = j2 + 1;
            }
            let result = NodeOutput {
                rect: rect.under_transform2(pinfo.affine),
                local: LocalTransform {
                    translation,
                    z: rect.z,
                    rotation: rect.rotation,
                    scale: rect.scale,
                },
                container_update: Option::Some((range, out.max_count)),
            };
            proof {
                let node_s = nodes@[i as int];
                let children = node_s.children@;
                let sm = spec_place_out(c.layout, collect_items(nodes@, children,
                    children.len() as int), linfo, c.range);
                assert(anchors_match(out.entity_anchors@, sm.0));
                let center_s = node_s.transform.spec_get_center();
                let neg_center_s = Vec2i { x: (-center_s.x) as i64, y: (-center_s.y) as i64 };
                assert(center == center_s);
                assert(neg_center == neg_center_s);
                let dim0_s = Vec2i { x: spec_cap(sm.1.0) as i64, y: spec_cap(sm.1.1) as i64 };
                assert(dim0 == dim0_s);
                let pad2_s = Vec2i {
                    x: spec_cap(2 * c.padding.x) as i64,
                    y: spec_cap(2 * c.padding.y) as i64,
                };
                assert(pad2 == pad2_s);
                let size_s = crate::geom::spec_add(dim0_s, pad2_s);
                assert(size == size_s);
                let rect_s = spec_construct(*pinfo, node_s.transform, size_s, pinfo.frame);
                assert(rect == rect_s);
                let translation_s = spec_rect_anchor(rect_s, neg_center_s);
                assert(translation == translation_s);
                let info2_s = ParentInfo {
                    dimension: size_s,
                    center: center_s,
                    anchor: Option::None,
                    affine: spec_transform_mul(
                        pinfo.affine,
                        Transform2 {
                            translation: translation_s,
                            rotation: rect_s.rotation,
                            scale: rect_s.scale,
                        },
                    ),
                    frame: pinfo.frame,
                    frame_rect: pinfo.frame_rect,
                };
                assert(info2 == info2_s);
                assert(m.1.len() == sm.0.len() + ignored@.len());
                assert forall|t: int| 0 <= t < m.1.len() implies enq@[t] == m.1[t] by {
                    let me = enq@[t];
                    let mm = m.1[t];
                    if t < sm.0.len() {
                        assert(out.entity_anchors@[t] == (
                            sm.0[t].0,
                            Vec2i { x: sm.0[t].1.0 as i64, y: sm.0[t].1.1 as i64 },
                        ));
                        assert(me.0 == mm.0);
                        assert(me.1.dimension == mm.1.dimension);
                        assert(me.1.center == mm.1.center);
                        assert(me.1.affine == mm.1.affine);
                        assert(me.1.frame == mm.1.frame);
                        assert(me.1.frame_rect == mm.1.frame_rect);
                        assert(me.1.anchor == mm.1.anchor);
                    } else {
                        let t2 = t - na as int;
                        assert(enq@[na as int + t2] == (ignored@[t2], info2));
                        assert(me == (ignored@[t2], info2));
                        assert(mm == (ignored@[t2], info2_s));
                    }
                }
                assert(enq@ =~= m.1);
                assert(result == m.0);
            }
            (result, enq)
        },
        Option::None => {
            let rect = resolve_leaf(pinfo, &node.transform, node.dimension, &node.behavior);
            let translation = rect.anchor(Anchor::At(neg_center));
            let info2 = ParentInfo {
                dimension: node.dimension,
                center,
                anchor: Option::None,
                affine: pinfo.affine.mul(
                    Transform2 { translation, rotation: rect.rotation, scale: rect.scale },
                ),
                frame: pinfo.frame,
                frame_rect: pinfo.frame_rect,
            };
            let ghost m = spec_process_node(nodes@, i as int, *pinfo);
            let mut enq: Vec<(usize, ParentInfo)> = Vec::new();
            let nc = node.children.len();
            let mut k: usize = 0;
            while k < nc
                invariant
                    nc == node.children@.len(),
                    k <= nc,
                    enq@.len() == k,
                    info2.wf(),
                    forall|t: int|
                        0 <= t < k ==> #[trigger] enq@[t] == (node.children@[t], info2),
                decreases nc - k,
            {
                let c2 = node.children[k];
                enq.push((c2, info2));
                k = k + 1;
            }
            let result = NodeOutput {
                rect: rect.under_transform2(pinfo.affine),
                local: LocalTransform {
                    translation,
                    z: rect.z,
                    rotation: rect.rotation,
                    scale: rect.scale,
                },
                container_update: Option::None,
            };
            proof {
                assert(enq@ =~= m.1);
                assert(result == m.0);
            }
            (result, enq)
        },
    }
}

/// Seed the pending contexts from every frame's direct children.
fn seed_exec(frames: &Vec<SceneFrame>, n: usize) -> (pending: Vec<Option<ParentInfo>>)
    requires
        forall|i: int|
            0 <= i < frames@.len() ==> frame_wf(#[trigger] frames@[i], n as int),
    ensures
        pending@ == seed_frames(frames@, n as int),
        pending@.len() == n,
        forall|t: int|
            0 <= t < n ==> (#[trigger] pending@[t] matches Option::Some(p) ==> p.wf()),
{
    let mut pending: Vec<Option<ParentInfo>> = Vec::new();
    let mut z: usize = 0;
    while z < n
        invariant
            z <= n,
            pending@.len() == z,
            forall|t: int| 0 <= t < z ==> #[trigger] pending@[t] is None,
        decreases n - z,
    {
        pending.push(Option::None);
        z = z + 1;
    }
    proof {
        assert(pending@ =~= seed_frames(frames@.subrange(0, 0), n as int));
    }
    let nf = frames.len();
    let mut fi: usize = 0;
    while fi < nf
        invariant
            forall|i: int|
                0 <= i < frames@.len() ==> frame_wf(#[trigger] frames@[i], n as int),
            nf == frames@.len(),
            fi <= nf,
            pending@.len() == n,
            pending@ == seed_frames(frames@.subrange(0, fi as int), n as int),
            forall|t: int|
                0 <= t < n ==> (#[trigger] pending@[t] matches Option::Some(p) ==> p.wf()),
        decreases nf - fi,
    {
        let fr = &frames[fi];
        proof {
            assert(frame_wf(frames@[fi as int], n as int));
        }
        let info = frame_pinfo_exec(fr);
        let ghost base = pending@;
        let nc = fr.children.len();
        let mut k: usize = 0;
        while k < nc
            invariant
                nc == fr.children@.len(),
                k <= nc,
                pending@.len() == n,
                info == frame_pinfo(frames@[fi as int]),
                info.wf(),
                fr == &frames@[fi as int],
                fi < frames@.len(),
                pending@ == seed_children(base, frames@[fi as int], k as int),
                forall|t: int|
                    0 <= t < n ==> (#[trigger] pending@[t] matches Option::Some(p) ==> {
                        base[t] == Option::Some(p) || p == frame_pinfo(frames@[fi as int])
                    }),
                forall|t: int|
                    0 <= t < n ==> (#[trigger] base[t] matches Option::Some(p) ==> p.wf()),
            decreases nc - k,
        {
            let c = fr.children[k];
            if c < n {
                pending.set(c, Option::Some(info));
            }
            k = k + 1;
        }
        fi = fi + 1;
        proof {
            assert(frames@.subrange(0, fi as int).drop_last() =~= frames@.subrange(0,
                fi as int - 1));
            assert(frames@.subrange(0, fi as int).last() == frames@[fi as int - 1]);
        }
    }
    proof {
        assert(frames@.subrange(0, nf as int) =~= frames@);
    }
    pending
}

/// One tick of layout: resolve the geometry of every reachable node,
/// top-down, composing coordinate frames from each root frame.
#[verifier::rlimit(100)]
pub fn compute_transform_2d(frames: &Vec<SceneFrame>, nodes: &Vec<SceneNode>) -> (out: Vec<
    Option<NodeOutput>,
>)
    requires
        scene_wf(frames@, nodes@),
    ensures
        out@ == spec_compute(frames@, nodes@),
        out@.len() == nodes@.len(),
{
    let n = nodes.len();
    let mut pending: Vec<Option<ParentInfo>> = seed_exec(frames, n);
    let mut out: Vec<Option<NodeOutput>> = Vec::new();
    let mut i: usize = 0;
    while i < n
        invariant
            scene_wf(frames@, nodes@),
            n == nodes@.len(),
            i <= n,
            pending@.len() == n,
            out@.len() == i,
            (pending@, out@) == walk_upto(frames@, nodes@, i as int),
            forall|t: int|
                0 <= t < n ==> (#[trigger] pending@[t] matches Option::Some(p) ==> p.wf()),
        decreases n - i,
    {
        let ghost stpre = (pending@, out@);
        let cur = pending[i];
        match cur {
            Option::None => {
                out.push(Option::None);
            },
            Option::Some(p) => {
                let (res, enq) = process_node(nodes, i, &p);
                out.push(Option::Some(res));
                let ghost pbase = pending@;
                let ne = enq.len();
                let mut k: usize = 0;
                while k < ne
                    invariant
                        ne == enq@.len(),
                        k <= ne,
                        pending@.len() == n,
                        pending@ == apply_enq(pbase, enq@, k as int),
                        forall|t: int| 0 <= t < ne ==> (#[trigger] enq@[t].1).wf(),
                        forall|t: int|
                            0 <= t < n ==> (#[trigger] pbase[t] matches Option::Some(q)
                                ==> q.wf()),
                        forall|t: int|
                            0 <= t < n ==> (#[trigger] pending@[t] matches Option::Some(q)
                                ==> q.wf()),
                    decreases ne - k,
                {
                    let (c, info) = enq[k];
                    if c < n {
                        pending.set(c, Option::Some(info));
                    }
                    k = k + 1;
                }
            },
        }
        i = i + 1;
        proof {
            let nxt = walk_upto(frames@, nodes@, i as int);
            assert(walk_upto(frames@, nodes@, i as int - 1) == stpre);
            assert(nxt.0 == pending@);
            assert(nxt.1 == out@);
        }
    }
    out
}


/// The placement an anchor-swap candidate stands for.
pub open spec fn swap_candidate_rect(
    pinfo: ParentInfo,
    t: Transform2D,
    dimension: Vec2i,
    d: AnchorDirection,
) -> RotatedRect {
    spec_construct2(pinfo, t, spec_parent_anchor_of(d), spec_anchor_of(d), dimension,
        pinfo.frame)
}

/// Whether a candidate's frame-space placement stays inside the frame.
pub open spec fn swap_candidate_fits(
    pinfo: ParentInfo,
    t: Transform2D,
    dimension: Vec2i,
    d: AnchorDirection,
) -> bool {
    spec_is_inside(
        spec_under_transform(swap_candidate_rect(pinfo, t, dimension, d), pinfo.affine),
        pinfo.frame_rect,
    )
}

/// The first-fit trial skips candidates that do not fit.
proof fn lemma_swap_from_skips(pinfo: ParentInfo, t: Transform2D, dimension: Vec2i,
    cands: Seq<AnchorDirection>, j: int, w: int)
    requires
        0 <= j <= w < cands.len(),
        forall|x: int| j <= x < w ==> !swap_candidate_fits(pinfo, t, dimension,
            #[trigger] cands[x]),
        swap_candidate_fits(pinfo, t, dimension, cands[w]),
    ensures
        spec_swap_from(pinfo, t, dimension, cands, j) == swap_candidate_rect(pinfo, t,
            dimension, cands[w]),
    decreases w - j,
{
    if j < w {
        lemma_swap_from_skips(pinfo, t, dimension, cands, j + 1, w);
    }
}

/// When the descriptor's own placement falls outside the frame and
/// exactly one candidate of the anchor-swap policy keeps the rectangle
/// inside it, that candidate's placement is selected, whatever its
/// position in the candidate list.
pub proof fn lemma_anchor_swap_selects(pinfo: ParentInfo, t: Transform2D, dimension: Vec2i,
    behavior: OutOfFrameBehavior, w: int)
    requires
        behavior is AnchorSwap,
        !spec_is_inside(
            spec_under_transform(
                spec_construct(pinfo, t, dimension, pinfo.frame),
                pinfo.affine,
            ),
            pinfo.frame_rect,
        ),
        0 <= w < spec_anchor_swaps(behavior).len(),
        swap_candidate_fits(pinfo, t, dimension, spec_anchor_swaps(behavior)[w]),
        forall|x: int|
            0 <= x < spec_anchor_swaps(behavior).len() && x != w
                ==> !swap_candidate_fits(pinfo, t, dimension,
                #[trigger] spec_anchor_swaps(behavior)[x]),
    ensures
        spec_resolve_leaf(pinfo, t, dimension, behavior) == swap_candidate_rect(pinfo, t,
            dimension, spec_anchor_swaps(behavior)[w]),
{
    lemma_swap_from_skips(pinfo, t, dimension, spec_anchor_swaps(behavior), 0, w);
}

} // verus!
