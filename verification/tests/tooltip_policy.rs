use rectray::geom::Vec2i;
use rectray::num::HALF;
use rectray::rect::Anchor;
use rectray::tooltip::{AnchorDirection, OutOfFrameBehavior};
use rectray::transform::SyncDimension;

#[test]
fn anchor_swap_keeps_at_most_four_candidates() {
    let policy = OutOfFrameBehavior::anchor_swap(&[
        AnchorDirection::T,
        AnchorDirection::B,
        AnchorDirection::L,
        AnchorDirection::R,
        AnchorDirection::TL,
    ]);
    let swaps = policy.iter_anchor_swaps();
    assert_eq!(
        swaps,
        vec![
            AnchorDirection::T,
            AnchorDirection::B,
            AnchorDirection::L,
            AnchorDirection::R,
        ]
    );

    let short = OutOfFrameBehavior::anchor_swap(&[AnchorDirection::LT]);
    assert_eq!(short.iter_anchor_swaps(), vec![AnchorDirection::LT]);
}

#[test]
fn non_swap_policies_have_no_candidates() {
    assert!(OutOfFrameBehavior::Unchanged.iter_anchor_swaps().is_empty());
    assert!(OutOfFrameBehavior::Nudge.iter_anchor_swaps().is_empty());
}

#[test]
fn tooltip_directions_pair_opposing_anchors() {
    // `T` hangs the tooltip above: parent's top center against the
    // tooltip's bottom center.
    assert_eq!(
        AnchorDirection::T.to_parent_anchor(),
        Anchor::At(Vec2i::new(0, HALF))
    );
    assert_eq!(
        AnchorDirection::T.to_anchor(),
        Anchor::At(Vec2i::new(0, -HALF))
    );
    // `BL` goes toward the bottom left from the parent's bottom right
    // corner on the tooltip's top right.
    assert_eq!(
        AnchorDirection::BL.to_parent_anchor(),
        Anchor::At(Vec2i::new(HALF, -HALF))
    );
    assert_eq!(
        AnchorDirection::BL.to_anchor(),
        Anchor::At(Vec2i::new(HALF, HALF))
    );
}

#[test]
fn sync_dimension_defaults_to_keep() {
    assert_eq!(SyncDimension::default(), SyncDimension::Keep);
    assert_ne!(SyncDimension::FromDimension, SyncDimension::ToDimension);
}
