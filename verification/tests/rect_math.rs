use rectray::geom::{rotate, Rect2i, Rot2, Vec2i};
use rectray::hierarchy::RectrayFrame;
use rectray::num::{HALF, UNIT};
use rectray::rect::{Anchor, ParentInfo, RotatedRect, Transform2};
use rectray::transform::Transform2D;

fn plain_rect(center: Vec2i, dimension: Vec2i) -> RotatedRect {
    RotatedRect {
        center,
        dimension,
        rotation: Rot2::identity(),
        z: 0,
        scale: Vec2i::new(UNIT, UNIT),
        frame_entity: None,
    }
}

fn parent(dimension: Vec2i) -> ParentInfo {
    ParentInfo {
        dimension,
        center: Vec2i::zero(),
        anchor: None,
        affine: Transform2::identity(),
        frame: 0,
        frame_rect: Rect2i {
            min: Vec2i::new(-500, -500),
            max: Vec2i::new(500, 500),
        },
    }
}

#[test]
fn rotate_by_quarter_turn_permutes_coordinates() {
    let v = Vec2i::new(30, 40);
    assert_eq!(rotate(v, Rot2::identity()), v);
    let quarter = Rot2::new(0, UNIT);
    assert_eq!(rotate(v, quarter), Vec2i::new(-40, 30));
    let half_turn = Rot2::new(-UNIT, 0);
    assert_eq!(rotate(v, half_turn), Vec2i::new(-30, -40));
}

#[test]
fn anchor_positions_of_a_plain_rect() {
    let r = plain_rect(Vec2i::new(10, 20), Vec2i::new(4, 6));
    assert_eq!(r.anchor(Anchor::center()), Vec2i::new(10, 20));
    assert_eq!(r.anchor(Anchor::bottom_left()), Vec2i::new(8, 17));
    assert_eq!(r.anchor(Anchor::top_right()), Vec2i::new(12, 23));
}

#[test]
fn local_space_inverts_anchor() {
    // For any rect with a cardinal rotation and anchor a:
    //   local_space(anchor(a)) == dimension * a.
    let r = RotatedRect {
        rotation: Rot2::new(0, UNIT),
        ..plain_rect(Vec2i::new(7, -3), Vec2i::new(10, 6))
    };
    let a = Anchor::custom(HALF, -HALF);
    let p = r.anchor(a);
    assert_eq!(r.local_space(p), Vec2i::new(5, -3));
}

#[test]
fn local_space_anchor_round_trip_is_close_for_unit_rotations() {
    // A rotation from a scaled Pythagorean pair lies exactly on the unit
    // circle; the round trip then lands within two fixed-point units of
    // dimension * anchor on each axis.
    let r = RotatedRect {
        rotation: Rot2::new(6000, 8000),
        ..plain_rect(Vec2i::new(0, 0), Vec2i::new(7, 7))
    };
    let want = Vec2i::new(3, 0);
    let got = r.local_space(r.anchor(Anchor::custom(HALF, 0)));
    assert_eq!(got, Vec2i::new(2, 0));
    assert!((got.x - want.x).abs() <= 2 && (got.y - want.y).abs() <= 2);
}

#[test]
fn local_space_anchor_wrong_value_rejected() {
    let r = plain_rect(Vec2i::new(0, 0), Vec2i::new(10, 6));
    let p = r.anchor(Anchor::top_center());
    assert_ne!(r.local_space(p), Vec2i::new(1, 3));
    assert_eq!(r.local_space(p), Vec2i::new(0, 3));
}

#[test]
fn construct_is_deterministic() {
    let p = parent(Vec2i::new(100, 50));
    let t = Transform2D::identity()
        .with_anchor(Anchor::bottom_left())
        .with_offset(Vec2i::new(3, 4));
    let a = RotatedRect::construct(&p, &t, Vec2i::new(10, 10), 9);
    let b = RotatedRect::construct(&p, &t, Vec2i::new(10, 10), 9);
    assert_eq!(a, b);
}

#[test]
fn construct_aligns_child_anchor_with_parent_anchor() {
    let p = parent(Vec2i::new(100, 50));
    // Anchor the child's bottom-left corner to the parent's bottom-left.
    let t = Transform2D::identity().with_anchor(Anchor::bottom_left());
    let r = RotatedRect::construct(&p, &t, Vec2i::new(10, 10), 0);
    // Parent bottom-left sits at (-50, -25); the child's own bottom-left
    // lands there, so its center sits half a dimension further in.
    assert_eq!(r.center, Vec2i::new(-45, -20));
    assert_eq!(r.anchor(Anchor::bottom_left()), Vec2i::new(-50, -25));
}

#[test]
fn construct_applies_offset_and_recenters() {
    let p = parent(Vec2i::new(100, 50));
    let t = Transform2D::identity()
        .with_anchor(Anchor::center())
        .with_parent_anchor(Anchor::top_right())
        .with_offset(Vec2i::new(-1, -2));
    let r = RotatedRect::construct(&p, &t, Vec2i::new(8, 8), 0);
    assert_eq!(r.center, Vec2i::new(49, 23));
}

#[test]
fn aabb_mirrors_bottom_left_through_center() {
    let r = plain_rect(Vec2i::new(5, 5), Vec2i::new(4, 2));
    let b = r.aabb();
    assert_eq!(b.min, Vec2i::new(3, 4));
    assert_eq!(b.max, Vec2i::new(7, 6));
    assert!(r.is_inside(Rect2i {
        min: Vec2i::new(0, 0),
        max: Vec2i::new(10, 10)
    }));
    assert!(!r.is_inside(Rect2i {
        min: Vec2i::new(0, 0),
        max: Vec2i::new(6, 10)
    }));
}

#[test]
fn nudge_moves_rect_inside_bounds() {
    // The aabb fits in the bounds, so after the nudge it lies inside.
    let mut r = plain_rect(Vec2i::new(9, 0), Vec2i::new(4, 4));
    let bounds = Rect2i {
        min: Vec2i::new(-5, -5),
        max: Vec2i::new(5, 5),
    };
    r.nudge_inside(bounds);
    assert_eq!(r.center, Vec2i::new(3, 0));
    let b = r.aabb();
    assert!(bounds.contains(b.min) && bounds.contains(b.max));
}

#[test]
fn nudge_gives_up_when_too_large() {
    let mut r = plain_rect(Vec2i::new(9, 0), Vec2i::new(40, 4));
    let bounds = Rect2i {
        min: Vec2i::new(-5, -5),
        max: Vec2i::new(5, 5),
    };
    r.nudge_inside(bounds);
    assert_eq!(r.center, Vec2i::new(9, 0));
}

#[test]
fn anchor_or_falls_back_only_for_inherit() {
    let a = Anchor::top_left();
    assert_eq!(Anchor::inherit().or(a), a);
    assert_eq!(Anchor::bottom_right().or(a), Anchor::bottom_right());
    assert!(Anchor::inherit().is_inherit());
    assert!(!a.is_inherit());
}

#[test]
fn anchor_names_follow_regions() {
    assert_eq!(Anchor::inherit().str_name(), "Inherit");
    assert_eq!(Anchor::bottom_left().str_name(), "BottomLeft");
    assert_eq!(Anchor::top_right().str_name(), "TopRight");
    assert_eq!(Anchor::center().str_name(), "Center");
    // Inside the dead zone the component counts as centered.
    assert_eq!(Anchor::custom(1500, 1700).str_name(), "TopCenter");
    assert_eq!(Anchor::custom(-1700, 0).str_name(), "CenterLeft");
}

#[test]
fn transform_composition_carries_points() {
    let a = Transform2 {
        translation: Vec2i::new(10, 0),
        rotation: Rot2::identity(),
        scale: Vec2i::new(UNIT, UNIT),
    };
    let b = Transform2 {
        translation: Vec2i::new(0, 5),
        rotation: Rot2::new(0, UNIT),
        scale: Vec2i::new(UNIT, UNIT),
    };
    let ab = a.mul(b);
    assert_eq!(ab.translation, Vec2i::new(10, 5));
    // Composing with the identity changes nothing.
    let id = Transform2::identity();
    assert_eq!(id.mul(a), a);
    assert_eq!(ab.transform_point2(Vec2i::new(1, 0)), Vec2i::new(10, 6));
}

#[test]
fn contains_point_respects_rotation_and_scale() {
    let r = plain_rect(Vec2i::new(0, 0), Vec2i::new(10, 2));
    assert!(r.contains_point(Vec2i::new(5, 1)));
    assert!(!r.contains_point(Vec2i::new(0, 2)));
    let turned = RotatedRect {
        rotation: Rot2::new(0, UNIT),
        ..r
    };
    // The long side now runs along y.
    assert!(turned.contains_point(Vec2i::new(0, 5)));
    assert!(!turned.contains_point(Vec2i::new(5, 0)));
    let shrunk = RotatedRect {
        scale: Vec2i::new(UNIT / 2, UNIT / 2),
        ..r
    };
    assert!(!shrunk.contains_point(Vec2i::new(5, 1)));
    assert!(shrunk.contains_point(Vec2i::new(2, 0)));
}

#[test]
fn frame_rect_centers_on_origin_anchor() {
    let f = RectrayFrame::from_dimension(Vec2i::new(10, 10));
    let r = f.rect();
    assert_eq!(r.min, Vec2i::new(-5, -5));
    assert_eq!(r.max, Vec2i::new(5, 5));
    let shifted = RectrayFrame::from_anchor_dimension(Anchor::bottom_left(), Vec2i::new(10, 10));
    let r2 = shifted.rect();
    assert_eq!(r2.min, Vec2i::new(0, 0));
    assert_eq!(r2.max, Vec2i::new(10, 10));
}
