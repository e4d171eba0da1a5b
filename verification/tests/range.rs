use rectray::container::{Container, LayoutControl, LayoutRange};
use rectray::geom::Vec2i;
use rectray::layouts::LayoutObject;
use rectray::num::UNIT;

fn container_with(range: LayoutRange, maximum: usize) -> Container {
    Container {
        layout: LayoutObject::default(),
        margin: Vec2i::new(0, 0),
        padding: Vec2i::new(0, 0),
        range,
        maximum,
    }
}

#[test]
fn all_range_selects_everything() {
    let mut r = LayoutRange::All;
    assert!(r.is_unbounded());
    r.resolve(7);
    assert_eq!(r.to_range(7), (0, 7));
}

#[test]
fn bounded_range_clamps_min() {
    let mut r = LayoutRange::Bounded { min: 10, len: 3 };
    r.resolve(5);
    assert_eq!(r, LayoutRange::Bounded { min: 2, len: 3 });
    assert_eq!(r.to_range(5), (2, 5));
}

#[test]
fn bounded_range_within_bounds_for_all_variants() {
    // The resolved window always lies inside [0, total].
    let totals = [0usize, 1, 2, 5, 100];
    for &total in &totals {
        for range in [
            LayoutRange::All,
            LayoutRange::Bounded { min: 50, len: 30 },
            LayoutRange::Capped { min: 99, len: 10 },
            LayoutRange::Stepped { step: 42, len: 7 },
        ] {
            let mut r = range;
            r.resolve(total);
            let (start, end) = r.to_range(total);
            assert!(start <= end, "start {start} end {end} total {total}");
            assert!(end <= total, "end {end} total {total}");
        }
    }
}

#[test]
fn capped_range_shrinks_near_the_end() {
    let mut r = LayoutRange::Capped { min: 9, len: 4 };
    r.resolve(6);
    assert_eq!(r, LayoutRange::Capped { min: 5, len: 4 });
    // The trailing window shrinks: only one element remains visible.
    assert_eq!(r.to_range(6), (5, 6));
}

#[test]
fn stepped_range_selects_pages() {
    let mut r = LayoutRange::Stepped { step: 1, len: 4 };
    r.resolve(10);
    assert_eq!(r, LayoutRange::Stepped { step: 1, len: 4 });
    assert_eq!(r.to_range(10), (4, 8));
    let mut beyond = LayoutRange::Stepped { step: 9, len: 4 };
    beyond.resolve(10);
    assert_eq!(beyond, LayoutRange::Stepped { step: 2, len: 4 });
    assert_eq!(beyond.to_range(10), (8, 10));
}

#[test]
fn resolve_on_empty_total_zeroes_the_window() {
    let mut r = LayoutRange::Bounded { min: 3, len: 2 };
    r.resolve(0);
    assert_eq!(r, LayoutRange::Bounded { min: 0, len: 2 });
    assert_eq!(r.to_range(0), (0, 0));
}

#[test]
fn increment_and_decrement_step_the_window() {
    let mut c = container_with(LayoutRange::Bounded { min: 1, len: 2 }, 10);
    c.increment();
    assert_eq!(c.range, LayoutRange::Bounded { min: 2, len: 2 });
    c.decrement();
    c.decrement();
    c.decrement();
    // Decrement saturates at zero.
    assert_eq!(c.range, LayoutRange::Bounded { min: 0, len: 2 });

    let mut s = container_with(LayoutRange::Stepped { step: 0, len: 4 }, 10);
    s.increment();
    assert_eq!(s.range, LayoutRange::Stepped { step: 1, len: 4 });
}

#[test]
fn get_fac_reports_window_position() {
    // Bounded: denominator is the remaining positions (maximum - len).
    let c = container_with(LayoutRange::Bounded { min: 4, len: 2 }, 10);
    assert_eq!(c.get_fac(), 4 * UNIT / 8);
    // Capped: denominator is the total.
    let c = container_with(LayoutRange::Capped { min: 5, len: 2 }, 10);
    assert_eq!(c.get_fac(), UNIT / 2);
    // Stepped: denominator is the page count.
    let c = container_with(LayoutRange::Stepped { step: 1, len: 5 }, 10);
    assert_eq!(c.get_fac(), UNIT / 2);
    // A window larger than the content sits at zero.
    let c = container_with(LayoutRange::Bounded { min: 0, len: 20 }, 10);
    assert_eq!(c.get_fac(), 0);
}

#[test]
fn set_fac_places_the_window() {
    let mut c = container_with(LayoutRange::Bounded { min: 0, len: 2 }, 10);
    c.set_fac(UNIT / 2);
    assert_eq!(c.range, LayoutRange::Bounded { min: 4, len: 2 });
    // The factor is clamped into [0, UNIT].
    c.set_fac(3 * UNIT);
    assert_eq!(c.range, LayoutRange::Bounded { min: 8, len: 2 });
    c.set_fac(-5);
    assert_eq!(c.range, LayoutRange::Bounded { min: 0, len: 2 });
}

#[test]
fn is_linebreak_covers_both_breaking_flags() {
    assert!(LayoutControl::Linebreak.is_linebreak());
    assert!(LayoutControl::LinebreakMarker.is_linebreak());
    assert!(!LayoutControl::Normal.is_linebreak());
    assert!(!LayoutControl::WhiteSpace.is_linebreak());
    assert!(!LayoutControl::IgnoreLayout.is_linebreak());
}
