use rectray::container::{Container, LayoutControl, LayoutRange};
use rectray::geom::Vec2i;
use rectray::layouts::{
    BoundsLayout, LayoutDir, LayoutInfo, LayoutItem, LayoutObject, LayoutOutput, ParagraphLayout,
    SpanLayout, StackLayout,
};

fn item(entity: usize, w: i64, h: i64) -> LayoutItem {
    LayoutItem {
        entity,
        anchor: Vec2i::new(0, 0),
        dimension: Vec2i::new(w, h),
        control: LayoutControl::Normal,
    }
}

fn flagged(entity: usize, w: i64, h: i64, control: LayoutControl) -> LayoutItem {
    LayoutItem {
        entity,
        anchor: Vec2i::new(0, 0),
        dimension: Vec2i::new(w, h),
        control,
    }
}

fn info(w: i64, h: i64, mx: i64, my: i64) -> LayoutInfo {
    LayoutInfo {
        dimension: Vec2i::new(w, h),
        margin: Vec2i::new(mx, my),
    }
}

#[test]
fn stack_positions_follow_cumulative_extent() {
    let lay = LayoutObject::Stack(StackLayout::new(LayoutDir::PosX));
    let items = vec![item(10, 2, 2), item(11, 3, 2), item(12, 4, 2)];
    let mut range = LayoutRange::All;
    let out = lay.place(&info(100, 100, 1, 1), &items, &mut range);
    // Content: boxes [0,2], [3,6], [7,11]; height 2.
    assert_eq!(out.dimension, Vec2i::new(11, 2));
    assert_eq!(out.max_count, 3);
    let xs: Vec<i64> = out.entity_anchors.iter().map(|(_, a)| a.x).collect();
    assert_eq!(
        out.entity_anchors.iter().map(|(e, _)| *e).collect::<Vec<_>>(),
        vec![10, 11, 12]
    );
    // Anchor points 1, 4, 9 normalized against width 11.
    assert_eq!(xs, vec![-4091, -1364, 3181]);
    assert!(xs[0] < xs[1] && xs[1] < xs[2]);
    // Cross axis: all centered.
    assert!(out.entity_anchors.iter().all(|(_, a)| a.y == 0));
}

#[test]
fn reversed_stack_decreases() {
    let lay = LayoutObject::Stack(StackLayout::new(LayoutDir::NegX));
    let items = vec![item(0, 2, 2), item(1, 3, 2), item(2, 4, 2)];
    let mut range = LayoutRange::All;
    let out = lay.place(&info(100, 100, 1, 1), &items, &mut range);
    let xs: Vec<i64> = out.entity_anchors.iter().map(|(_, a)| a.x).collect();
    assert!(xs[0] > xs[1] && xs[1] > xs[2]);
}

#[test]
fn vertical_stack_uses_y_axis() {
    let lay = LayoutObject::Stack(StackLayout::vstack());
    let items = vec![item(0, 2, 2), item(1, 2, 2)];
    let mut range = LayoutRange::All;
    let out = lay.place(&info(100, 100, 1, 1), &items, &mut range);
    assert_eq!(out.dimension, Vec2i::new(2, 5));
    let ys: Vec<i64> = out.entity_anchors.iter().map(|(_, a)| a.y).collect();
    // Top-to-bottom: the first item sits above the second.
    assert!(ys[0] > ys[1]);
}

#[test]
fn stack_cross_axis_lanes() {
    let lay = LayoutObject::Stack(StackLayout::hstack());
    let mut low = item(0, 2, 2);
    low.anchor = Vec2i::new(0, -5000);
    let mut high = item(1, 2, 2);
    high.anchor = Vec2i::new(0, 5000);
    let tall = item(2, 2, 6);
    let items = vec![low, high, tall];
    let mut range = LayoutRange::All;
    let out = lay.place(&info(100, 100, 0, 0), &items, &mut range);
    assert_eq!(out.dimension, Vec2i::new(6, 6));
    // Low lane hugs the bottom edge, high lane the top; y anchors are the
    // items' own anchor points inside the row.
    let ys: Vec<i64> = out.entity_anchors.iter().map(|(_, a)| a.y).collect();
    // low: box bottom at 0, anchor at 0 of 6 -> -HALF.
    assert_eq!(ys[0], -5000);
    // high: box top at 6, anchor at 6 of 6 -> +HALF.
    assert_eq!(ys[1], 5000);
    // tall: centered, its center anchor at 3 of 6 -> 0.
    assert_eq!(ys[2], 0);
}

#[test]
fn whitespace_takes_room_but_is_not_placed() {
    let lay = LayoutObject::Stack(StackLayout::hstack());
    let items = vec![
        flagged(7, 3, 2, LayoutControl::WhiteSpace),
        item(0, 2, 2),
        flagged(8, 3, 2, LayoutControl::WhiteSpace),
        item(1, 2, 2),
        flagged(9, 3, 2, LayoutControl::WhiteSpace),
    ];
    let mut range = LayoutRange::All;
    let out = lay.place(&info(100, 100, 1, 1), &items, &mut range);
    // Leading whitespace is trimmed; the interior one keeps its room plus
    // a margin on each side; the trailing one is trimmed from the extent.
    // Boxes: first item [0,2], second item [7,9].
    assert_eq!(out.dimension, Vec2i::new(9, 2));
    assert_eq!(
        out.entity_anchors.iter().map(|(e, _)| *e).collect::<Vec<_>>(),
        vec![0, 1]
    );
}

#[test]
fn stack_windows_items_with_a_range() {
    let lay = LayoutObject::Stack(StackLayout::hstack());
    let items = vec![item(0, 2, 2), item(1, 2, 2), item(2, 2, 2), item(3, 2, 2)];
    let mut range = LayoutRange::Bounded { min: 1, len: 2 };
    let out = lay.place(&info(100, 100, 0, 0), &items, &mut range);
    assert_eq!(out.max_count, 4);
    assert_eq!(
        out.entity_anchors.iter().map(|(e, _)| *e).collect::<Vec<_>>(),
        vec![1, 2]
    );
    assert_eq!(out.dimension, Vec2i::new(4, 2));
    assert_eq!(range, LayoutRange::Bounded { min: 1, len: 2 });
}

#[test]
fn span_pins_extent_and_stretch_justifies() {
    let items = vec![item(0, 2, 2), item(1, 3, 2), item(2, 4, 2)];
    let mut range = LayoutRange::All;
    let plain = LayoutObject::Span(SpanLayout::new(LayoutDir::PosX));
    let out = plain.place(&info(20, 5, 1, 1), &items, &mut range);
    assert_eq!(out.dimension, Vec2i::new(20, 2));
    let xs: Vec<i64> = out.entity_anchors.iter().map(|(_, a)| a.x).collect();
    assert_eq!(xs, vec![-4500, -3000, -500]);

    let mut range2 = LayoutRange::All;
    let stretched = LayoutObject::Span(SpanLayout::new(LayoutDir::PosX).with_stretch());
    let out2 = stretched.place(&info(20, 5, 1, 1), &items, &mut range2);
    let xs2: Vec<i64> = out2.entity_anchors.iter().map(|(_, a)| a.x).collect();
    // Leftover 9 split across the two gaps; the run ends at the far edge.
    assert_eq!(xs2, vec![-4500, -1000, 4000]);
}

#[test]
fn paragraph_wraps_at_first_overflowing_item() {
    let lay = LayoutObject::Paragraph(ParagraphLayout::new(LayoutDir::PosX, LayoutDir::NegY));
    let items = vec![item(0, 4, 2), item(1, 4, 2), item(2, 4, 2), item(3, 4, 2)];
    let mut range = LayoutRange::All;
    let out = lay.place(&info(10, 100, 1, 1), &items, &mut range);
    // Two items fit a line of extent 10 ([0,4], [5,9]); the third would
    // need cursor 9 + 1 + 4 = 14 > 10 and starts the next line.
    assert_eq!(out.max_count, 2);
    assert_eq!(out.dimension, Vec2i::new(10, 5));
    let anchors: Vec<(usize, i64, i64)> =
        out.entity_anchors.iter().map(|(e, a)| (*e, a.x, a.y)).collect();
    assert_eq!(
        anchors,
        vec![
            (0, -3000, 3000),
            (1, 2000, 3000),
            (2, -3000, -3000),
            (3, 2000, -3000),
        ]
    );
}

#[test]
fn paragraph_oversized_item_occupies_its_own_line() {
    let lay = LayoutObject::Paragraph(ParagraphLayout::paragraph());
    let items = vec![item(0, 12, 2), item(1, 4, 2)];
    let mut range = LayoutRange::All;
    let out = lay.place(&info(10, 100, 1, 1), &items, &mut range);
    assert_eq!(out.max_count, 2);
    // Two lines of height 2 with one cross margin between them.
    assert_eq!(out.dimension, Vec2i::new(10, 5));
}

#[test]
fn paragraph_linebreak_and_marker() {
    let lay = LayoutObject::Paragraph(ParagraphLayout::paragraph());
    let items = vec![
        item(0, 2, 2),
        flagged(9, 0, 6, LayoutControl::LinebreakMarker),
        item(1, 2, 2),
    ];
    let mut range = LayoutRange::All;
    let out = lay.place(&info(10, 100, 1, 1), &items, &mut range);
    // The marker closes the first line without being placed, and its
    // extent raises that line's height to 6.
    assert_eq!(out.max_count, 2);
    assert_eq!(out.dimension, Vec2i::new(10, 9));
    assert_eq!(out.entity_anchors.len(), 2);

    let items2 = vec![
        flagged(0, 2, 2, LayoutControl::Linebreak),
        item(1, 2, 2),
    ];
    let mut range2 = LayoutRange::All;
    let out2 = lay.place(&info(10, 100, 1, 1), &items2, &mut range2);
    // A linebreak item is placed, then closes its line.
    assert_eq!(out2.max_count, 2);
    assert_eq!(out2.entity_anchors.len(), 2);
}

#[test]
fn paragraph_range_windows_lines() {
    let lay = LayoutObject::Paragraph(ParagraphLayout::paragraph());
    let items = vec![item(0, 4, 2), item(1, 4, 2), item(2, 4, 2), item(3, 4, 2)];
    let mut range = LayoutRange::Bounded { min: 0, len: 1 };
    let out = lay.place(&info(10, 100, 1, 1), &items, &mut range);
    // Only the first of the two lines is visible.
    assert_eq!(out.max_count, 2);
    assert_eq!(out.entity_anchors.len(), 2);
    assert_eq!(out.dimension, Vec2i::new(10, 2));
}

#[test]
fn bounds_layout_clamps_to_configured_bounds() {
    let b = BoundsLayout {
        fixed_x: false,
        fixed_y: true,
        min: Vec2i::new(4, 4),
        max: Vec2i::new(6, 6),
    };
    let lay = LayoutObject::Bounds(b);
    let mut one = item(0, 3, 7);
    one.anchor = Vec2i::new(1000, 2000);
    let two = item(1, 5, 2);
    let items = vec![one, two];
    let mut range = LayoutRange::All;
    let out = lay.place(&info(100, 50, 0, 0), &items, &mut range);
    // Max dimension (5, 7): x clamps into [4, 6], y is pinned to the
    // parent.
    assert_eq!(out.dimension, Vec2i::new(5, 50));
    assert_eq!(out.max_count, 2);
    // Anchors pass through untouched.
    assert_eq!(out.entity_anchors[0].1, Vec2i::new(1000, 2000));
    assert_eq!(out.entity_anchors[1].1, Vec2i::new(0, 0));
}

#[test]
fn normalized_divides_by_dimension_and_recenters() {
    let raw = LayoutOutput {
        entity_anchors: vec![(0, Vec2i::new(2, 5))],
        dimension: Vec2i::new(4, 0),
        max_count: 1,
    };
    let n = raw.normalized();
    // x: 2 of 4 is the middle; y: a degenerate extent leaves the value.
    assert_eq!(n.entity_anchors[0].1, Vec2i::new(0, 5));
    let capped = n.with_max(9);
    assert_eq!(capped.max_count, 9);
}

#[test]
fn container_place_resolves_range_and_dispatches() {
    let mut c = Container {
        layout: LayoutObject::Stack(StackLayout::hstack()),
        margin: Vec2i::new(1, 1),
        padding: Vec2i::new(0, 0),
        range: LayoutRange::Bounded { min: 9, len: 2 },
        maximum: 0,
    };
    let items = vec![item(0, 2, 2), item(1, 2, 2), item(2, 2, 2)];
    let parent = info(100, 100, 1, 1);
    let out = c.place(&parent, &items);
    assert_eq!(c.range, LayoutRange::Bounded { min: 1, len: 2 });
    assert_eq!(out.max_count, 3);
    assert_eq!(out.entity_anchors.len(), 2);
}

#[test]
fn layout_object_defaults_and_agnosticism() {
    let d = LayoutObject::default();
    assert!(matches!(d, LayoutObject::Bounds(_)));
    assert!(!d.is_size_agnostic());
    assert!(LayoutObject::Stack(StackLayout::default()).is_size_agnostic());
}
