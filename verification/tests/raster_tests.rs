use planet_sim::raster::{disk_in_range, draw_filled_circle, Segment};
use std::collections::BTreeSet;

fn seg(x1: i32, y1: i32, x2: i32, y2: i32) -> Segment {
    Segment { x1, y1, x2, y2 }
}

fn pixels(spans: &[Segment]) -> BTreeSet<(i32, i32)> {
    let mut set = BTreeSet::new();
    for s in spans {
        assert_eq!(s.y1, s.y2);
        let (lo, hi) = if s.x1 <= s.x2 { (s.x1, s.x2) } else { (s.x2, s.x1) };
        for x in lo..=hi {
            set.insert((x, s.y1));
        }
    }
    set
}

#[test]
fn negative_radius_draws_nothing() {
    assert!(draw_filled_circle(10, 10, -1).is_empty());
    assert!(draw_filled_circle(0, 0, i32::MIN).is_empty());
}

#[test]
fn radius_zero_is_the_centre_pixel() {
    let spans = draw_filled_circle(7, -3, 0);
    assert_eq!(spans, vec![seg(7, -3, 7, -3); 4]);
}

#[test]
fn radius_one_spans_in_drawing_order() {
    let spans = draw_filled_circle(0, 0, 1);
    assert_eq!(
        spans,
        vec![seg(1, 0, -1, 0), seg(0, 1, 0, 1), seg(-1, 0, 1, 0), seg(0, -1, 0, -1)]
    );
}

#[test]
fn radius_two_spans_in_drawing_order() {
    let spans = draw_filled_circle(10, 20, 2);
    assert_eq!(
        spans,
        vec![
            seg(12, 20, 8, 20),
            seg(10, 22, 10, 22),
            seg(8, 20, 12, 20),
            seg(10, 18, 10, 18),
            seg(11, 21, 9, 21),
            seg(11, 21, 9, 21),
            seg(9, 19, 11, 19),
            seg(9, 19, 11, 19),
        ]
    );
}

#[test]
fn radius_four_spans_in_drawing_order() {
    let spans = draw_filled_circle(0, 0, 4);
    assert_eq!(
        spans,
        vec![
            seg(4, 0, -4, 0),
            seg(0, 4, 0, 4),
            seg(-4, 0, 4, 0),
            seg(0, -4, 0, -4),
            seg(4, 1, -4, 1),
            seg(1, 4, -1, 4),
            seg(-4, -1, 4, -1),
            seg(-1, -4, 1, -4),
            seg(3, 2, -3, 2),
            seg(2, 3, -2, 3),
            seg(-3, -2, 3, -2),
            seg(-2, -3, 2, -3),
        ]
    );
}

#[test]
fn radius_five_row_widths() {
    let set = pixels(&draw_filled_circle(100, 100, 5));
    let widths = [5, 5, 4, 3, 2, 1];
    for dy in -7i32..=7 {
        for dx in -7i32..=7 {
            let inside = dy.abs() <= 5 && dx.abs() <= widths[dy.unsigned_abs() as usize];
            assert_eq!(set.contains(&(100 + dx, 100 + dy)), inside, "dx={dx} dy={dy}");
        }
    }
}

#[test]
fn four_spans_for_each_step() {
    assert_eq!(draw_filled_circle(0, 0, 3).len(), 8);
    assert_eq!(draw_filled_circle(0, 0, 5).len(), 16);
    for r in 0..60 {
        assert_eq!(draw_filled_circle(0, 0, r).len() % 4, 0);
    }
}

#[test]
fn every_span_is_horizontal_and_centred() {
    for r in 0..40 {
        for s in draw_filled_circle(13, -8, r) {
            assert_eq!(s.y1, s.y2);
            assert_eq!(s.x1 + s.x2, 26);
        }
    }
}

#[test]
fn disk_is_mirror_symmetric() {
    for r in 0..30 {
        let (cx, cy) = (17, -5);
        let set = pixels(&draw_filled_circle(cx, cy, r));
        for &(x, y) in &set {
            assert!(set.contains(&(2 * cx - x, y)));
            assert!(set.contains(&(x, 2 * cy - y)));
        }
    }
}

#[test]
fn disk_stays_within_its_radius() {
    for r in 0..30 {
        let set = pixels(&draw_filled_circle(3, 4, r));
        for &(x, y) in &set {
            assert!((x - 3).abs() <= r && (y - 4).abs() <= r);
        }
        assert!(set.contains(&(3 + r, 4)));
        assert!(set.contains(&(3 - r, 4)));
        assert!(set.contains(&(3, 4 + r)));
        assert!(set.contains(&(3, 4 - r)));
    }
}

#[test]
fn disk_has_no_empty_row() {
    for r in 0..30 {
        let set = pixels(&draw_filled_circle(0, 0, r));
        for dy in -r..=r {
            assert!(set.contains(&(0, dy)));
        }
    }
}

#[test]
fn disk_at_the_edge_of_the_grid() {
    let spans = draw_filled_circle(i32::MAX - 3, i32::MIN + 3, 3);
    assert_eq!(spans.len(), 8);
    assert_eq!(spans[0], seg(i32::MAX, i32::MIN + 3, i32::MAX - 6, i32::MIN + 3));
    assert_eq!(spans[3], seg(i32::MAX - 3, i32::MIN, i32::MAX - 3, i32::MIN));
}

#[test]
fn large_disk_is_drawn() {
    let r = 20_000;
    let spans = draw_filled_circle(0, 0, r);
    assert_eq!(spans[0], seg(r, 0, -r, 0));
    assert_eq!(spans.len() % 4, 0);
    assert!(spans.len() >= 4 * (r as usize / 2));
}

#[test]
fn range_check_accepts_what_fits() {
    assert!(disk_in_range(0, 0, 0));
    assert!(disk_in_range(400, 400, 30));
    assert!(disk_in_range(i32::MAX, i32::MIN, 0));
    assert!(disk_in_range(0, 0, i32::MAX));
    assert!(disk_in_range(-1, -1, i32::MAX));
    assert!(disk_in_range(i32::MAX - 5, 0, 5));
    assert!(disk_in_range(0, i32::MIN + 5, 5));
}

#[test]
fn range_check_refuses_what_overflows() {
    assert!(!disk_in_range(i32::MAX, 0, 1));
    assert!(!disk_in_range(0, i32::MAX, 1));
    assert!(!disk_in_range(i32::MIN, 0, 1));
    assert!(!disk_in_range(0, i32::MIN, 1));
    assert!(!disk_in_range(1, 0, i32::MAX));
    assert!(!disk_in_range(-2, 0, i32::MAX));
    assert!(!disk_in_range(i32::MAX - 5, 0, 6));
}

#[test]
fn range_check_ignores_position_for_negative_radius() {
    assert!(disk_in_range(i32::MAX, i32::MAX, -1));
    assert!(disk_in_range(i32::MIN, i32::MIN, i32::MIN));
}
