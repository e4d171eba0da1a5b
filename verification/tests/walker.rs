use rectray::container::{Container, LayoutControl, LayoutRange};
use rectray::geom::Vec2i;
use rectray::hierarchy::RectrayFrame;
use rectray::layouts::{LayoutDir, LayoutObject, StackLayout};
use rectray::pipeline::{compute_transform_2d, SceneFrame, SceneNode};
use rectray::rect::Anchor;
use rectray::tooltip::{AnchorDirection, OutOfFrameBehavior};
use rectray::transform::Transform2D;

fn leaf(w: i64, h: i64) -> SceneNode {
    SceneNode {
        dimension: Vec2i::new(w, h),
        transform: Transform2D::identity(),
        container: None,
        behavior: OutOfFrameBehavior::Unchanged,
        control: LayoutControl::Normal,
        children: Vec::new(),
    }
}

fn frame10(children: Vec<usize>) -> SceneFrame {
    SceneFrame {
        frame: RectrayFrame::from_dimension(Vec2i::new(10, 10)),
        id: 1,
        children,
    }
}

#[test]
fn end_to_end_stack_in_frame() {
    // Frame 10 by 10; one container child using a horizontal stack with
    // margin (1, 1); three children of dimension (2, 2) each. The
    // container resolves to (2 * 3 + 1 * 2, 2) = (8, 2) and the children
    // sit 3 units apart, centered on the cross axis.
    let container = SceneNode {
        dimension: Vec2i::new(0, 0),
        transform: Transform2D::identity(),
        container: Some(Container {
            layout: LayoutObject::Stack(StackLayout::new(LayoutDir::PosX)),
            margin: Vec2i::new(1, 1),
            padding: Vec2i::new(0, 0),
            range: LayoutRange::All,
            maximum: 0,
        }),
        behavior: OutOfFrameBehavior::Unchanged,
        control: LayoutControl::Normal,
        children: vec![1, 2, 3],
    };
    let nodes = vec![container, leaf(2, 2), leaf(2, 2), leaf(2, 2)];
    let frames = vec![frame10(vec![0])];
    let out = compute_transform_2d(&frames, &nodes);
    assert_eq!(out.len(), 4);

    let c = out[0].expect("container resolved");
    assert_eq!(c.rect.dimension, Vec2i::new(8, 2));
    assert_eq!(c.rect.center, Vec2i::new(0, 0));
    assert_eq!(c.rect.frame_entity, Some(1));
    let (range, maximum) = c.container_update.expect("container update");
    assert_eq!(range, LayoutRange::All);
    assert_eq!(maximum, 3);

    let centers: Vec<Vec2i> = (1..4).map(|i| out[i].unwrap().rect.center).collect();
    assert_eq!(
        centers,
        vec![Vec2i::new(-3, 0), Vec2i::new(0, 0), Vec2i::new(3, 0)]
    );
    for i in 1..4 {
        assert_eq!(out[i].unwrap().rect.dimension, Vec2i::new(2, 2));
        assert!(out[i].unwrap().container_update.is_none());
    }
}

#[test]
fn padding_grows_container_and_keeps_children_in_place() {
    let container = SceneNode {
        dimension: Vec2i::new(0, 0),
        transform: Transform2D::identity(),
        container: Some(Container {
            layout: LayoutObject::Stack(StackLayout::new(LayoutDir::PosX)),
            margin: Vec2i::new(1, 1),
            padding: Vec2i::new(1, 1),
            range: LayoutRange::All,
            maximum: 0,
        }),
        behavior: OutOfFrameBehavior::Unchanged,
        control: LayoutControl::Normal,
        children: vec![1, 2, 3],
    };
    let nodes = vec![container, leaf(2, 2), leaf(2, 2), leaf(2, 2)];
    let frames = vec![frame10(vec![0])];
    let out = compute_transform_2d(&frames, &nodes);
    let c = out[0].unwrap();
    // Content (8, 2) plus twice the padding on each axis.
    assert_eq!(c.rect.dimension, Vec2i::new(10, 4));
    // The rescaled anchors keep the children at the same spots.
    let centers: Vec<Vec2i> = (1..4).map(|i| out[i].unwrap().rect.center).collect();
    assert_eq!(
        centers,
        vec![Vec2i::new(-3, 0), Vec2i::new(0, 0), Vec2i::new(3, 0)]
    );
}

#[test]
fn nudge_pulls_leaf_back_into_frame() {
    let mut node = leaf(4, 4);
    node.transform = Transform2D::identity().with_offset(Vec2i::new(10, 0));
    node.behavior = OutOfFrameBehavior::Nudge;
    let nodes = vec![node];
    let frames = vec![frame10(vec![0])];
    let out = compute_transform_2d(&frames, &nodes);
    let r = out[0].unwrap().rect;
    // Without the policy the rect would sit at (10, 0), outside the
    // frame's bounds [-5, 5]; the nudge pulls it to the edge.
    assert_eq!(r.center, Vec2i::new(3, 0));
}

#[test]
fn unchanged_leaf_stays_out_of_frame() {
    let mut node = leaf(4, 4);
    node.transform = Transform2D::identity().with_offset(Vec2i::new(10, 0));
    let nodes = vec![node];
    let frames = vec![frame10(vec![0])];
    let out = compute_transform_2d(&frames, &nodes);
    assert_eq!(out[0].unwrap().rect.center, Vec2i::new(10, 0));
}

#[test]
fn anchor_swap_selects_the_only_fitting_candidate() {
    // The offset pushes the default placement out of the frame; of the
    // four candidates only `L` (anchor on the parent's left edge) fits,
    // and it is picked even while sitting last in the list.
    let mut node = leaf(4, 4);
    node.transform = Transform2D::identity().with_offset(Vec2i::new(10, 0));
    node.behavior = OutOfFrameBehavior::anchor_swap(&[
        AnchorDirection::B,
        AnchorDirection::T,
        AnchorDirection::R,
        AnchorDirection::L,
    ]);
    let nodes = vec![node];
    let frames = vec![frame10(vec![0])];
    let out = compute_transform_2d(&frames, &nodes);
    let r = out[0].unwrap().rect;
    assert_eq!(r.center, Vec2i::new(3, 0));
    // The chosen placement lies inside the frame.
    let b = r.aabb();
    assert!(b.min.x >= -5 && b.max.x <= 5 && b.min.y >= -5 && b.max.y <= 5);
}

#[test]
fn anchor_swap_keeps_default_when_nothing_fits() {
    let mut node = leaf(4, 4);
    node.transform = Transform2D::identity().with_offset(Vec2i::new(100, 0));
    node.behavior =
        OutOfFrameBehavior::anchor_swap(&[AnchorDirection::B, AnchorDirection::T]);
    let nodes = vec![node];
    let frames = vec![frame10(vec![0])];
    let out = compute_transform_2d(&frames, &nodes);
    assert_eq!(out[0].unwrap().rect.center, Vec2i::new(100, 0));
}

#[test]
fn nested_leaf_composes_parent_affine() {
    // A leaf under a leaf: the child's frame-space rect is carried
    // through the parent's transform chain.
    let mut parent = leaf(6, 6);
    parent.transform = Transform2D::identity().with_offset(Vec2i::new(1, 1));
    parent.children = vec![1];
    let mut child = leaf(2, 2);
    child.transform = Transform2D::identity()
        .with_anchor(Anchor::bottom_left())
        .with_parent_anchor(Anchor::bottom_left());
    let nodes = vec![parent, child];
    let frames = vec![frame10(vec![0])];
    let out = compute_transform_2d(&frames, &nodes);
    assert_eq!(out[0].unwrap().rect.center, Vec2i::new(1, 1));
    // The child's bottom-left corner aligns with the parent's bottom-left
    // corner at (1, 1) - (3, 3) = (-2, -2): its center is at (-1, -1).
    assert_eq!(out[1].unwrap().rect.center, Vec2i::new(-1, -1));
}

#[test]
fn orphans_and_unreached_nodes_have_no_output() {
    let nodes = vec![leaf(2, 2), leaf(2, 2)];
    let frames = vec![frame10(vec![0])];
    let out = compute_transform_2d(&frames, &nodes);
    assert!(out[0].is_some());
    assert!(out[1].is_none());
}

#[test]
fn ignore_layout_children_use_their_own_anchor() {
    let container = SceneNode {
        dimension: Vec2i::new(0, 0),
        transform: Transform2D::identity(),
        container: Some(Container {
            layout: LayoutObject::Stack(StackLayout::new(LayoutDir::PosX)),
            margin: Vec2i::new(0, 0),
            padding: Vec2i::new(0, 0),
            range: LayoutRange::All,
            maximum: 0,
        }),
        behavior: OutOfFrameBehavior::Unchanged,
        control: LayoutControl::Normal,
        children: vec![1, 2],
    };
    let placed = leaf(4, 4);
    let mut floating = leaf(2, 2);
    floating.control = LayoutControl::IgnoreLayout;
    floating.transform = Transform2D::identity()
        .with_anchor(Anchor::top_right())
        .with_parent_anchor(Anchor::top_right());
    let nodes = vec![container, placed, floating];
    let frames = vec![frame10(vec![0])];
    let out = compute_transform_2d(&frames, &nodes);
    let c = out[0].unwrap().rect;
    assert_eq!(c.dimension, Vec2i::new(4, 4));
    // The floating child anchors its own top-right to the container's
    // top-right corner at (2, 2).
    let f = out[2].unwrap().rect;
    assert_eq!(f.center, Vec2i::new(1, 1));
}
