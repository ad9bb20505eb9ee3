use roads::simplify::{simplify, simplify_eps, Point};
use roads::svg::svg_content;

fn pt(x: i64, y: i64) -> Point {
    Point { x, y }
}

#[test]
fn shallow_zigzag_collapses_to_endpoints() {
    // The classic shallow zigzag, scaled by ten so the tolerance of
    // 3.0 units becomes 30 integer units.
    let p = vec![pt(0, 0), pt(10, 1), pt(20, 0), pt(30, 1), pt(40, 0)];
    let r = simplify_eps(&p, 30);
    assert_eq!(r, vec![pt(0, 0), pt(40, 0)]);
}

#[test]
fn sharp_corner_is_kept() {
    let p = vec![pt(0, 0), pt(0, 100), pt(100, 100)];
    let r = simplify_eps(&p, 30);
    assert_eq!(r, vec![pt(0, 0), pt(0, 100), pt(100, 100)]);
}

#[test]
fn short_polylines_stay_as_they_are() {
    assert_eq!(simplify(&vec![]), vec![]);
    assert_eq!(simplify(&vec![pt(7, 9)]), vec![pt(7, 9)]);
    assert_eq!(simplify(&vec![pt(0, 0), pt(0, 0)]), vec![pt(0, 0), pt(0, 0)]);
    assert_eq!(simplify(&vec![pt(1, 2), pt(3, 4)]), vec![pt(1, 2), pt(3, 4)]);
}

#[test]
fn zero_tolerance_keeps_deviating_points() {
    let p = vec![pt(0, 0), pt(10, 5), pt(20, 0)];
    let r = simplify_eps(&p, 0);
    assert_eq!(r, vec![pt(0, 0), pt(10, 5), pt(20, 0)]);
}

#[test]
fn collinear_interior_points_are_dropped() {
    let p = vec![pt(0, 0), pt(10, 0), pt(20, 0), pt(30, 0), pt(40, 0)];
    let r = simplify_eps(&p, 1);
    assert_eq!(r, vec![pt(0, 0), pt(40, 0)]);
}

#[test]
fn default_tolerance_drops_small_bumps() {
    // A two-unit bump lies within the default tolerance of three.
    let p = vec![pt(0, 0), pt(50, 2), pt(100, 0)];
    assert_eq!(simplify(&p), vec![pt(0, 0), pt(100, 0)]);
}

#[test]
fn duplicate_endpoint_segment_uses_point_distance() {
    // Zero-length base segment: the interior point is compared by its
    // plain distance from that point.
    let p = vec![pt(0, 0), pt(0, 50), pt(0, 0)];
    let r = simplify_eps(&p, 30);
    assert_eq!(r, vec![pt(0, 0), pt(0, 50), pt(0, 0)]);
    let q = vec![pt(0, 0), pt(0, 10), pt(0, 0)];
    let rq = simplify_eps(&q, 30);
    assert_eq!(rq, vec![pt(0, 0), pt(0, 0)]);
}

#[test]
fn svg_empty_input_produces_nothing() {
    let none: Vec<Vec<Point>> = vec![];
    assert!(svg_content(&none, 1_920_000, 1_080_000, 300, "none").is_none());
    let empties: Vec<Vec<Point>> = vec![vec![], vec![]];
    assert!(svg_content(&empties, 1_920_000, 1_080_000, 300, "none").is_none());
}

#[test]
fn svg_degenerate_canvas_produces_nothing() {
    let paths = vec![vec![pt(0, 0), pt(100, 0)]];
    assert!(svg_content(&paths, 0, 1_080_000, 300, "none").is_none());
    assert!(svg_content(&paths, 1_920_000, -5, 300, "none").is_none());
}

#[test]
fn svg_one_polyline_per_nonempty_path() {
    let paths = vec![
        vec![pt(0, 0), pt(100, 0), pt(100, 100)],
        vec![],
        vec![pt(0, 100), pt(100, 100)],
    ];
    let doc = svg_content(&paths, 1_920_000, 1_080_000, 300, "none").unwrap();
    assert_eq!(doc.matches("<polyline").count(), 2);
    assert!(doc.starts_with("<?xml version=\"1.0\" encoding=\"UTF-8\"?>\n<svg"));
    assert!(doc.ends_with("</g>\n</svg>\n"));
}

#[test]
fn svg_layout_scales_to_the_smaller_ratio() {
    // A 100 by 100 box in a 1920 x 1080 canvas scales by 10.8: the
    // height wins, and every coordinate comes out in hundredths.
    let paths = vec![vec![pt(0, 0), pt(100, 0), pt(100, 100)]];
    let doc = svg_content(&paths, 1_920_000, 1_080_000, 300, "none").unwrap();
    assert!(doc.contains("viewBox=\"0 0 1080.00 1080.00\""));
    assert!(doc.contains("stroke-width=\"0.3\""));
    assert!(doc.contains("fill=\"none\""));
    // y points up in the input and down in the drawing.
    assert!(doc.contains("<polyline points=\"0.00,1080.00 1080.00,1080.00 1080.00,0.00 \" />"));
}

#[test]
fn svg_background_is_written_verbatim() {
    let paths = vec![vec![pt(0, 0), pt(10, 10)]];
    let doc = svg_content(&paths, 1_000_000, 1_000_000, 500, "#a0a0a0").unwrap();
    assert!(doc.contains("fill=\"#a0a0a0\""));
    assert!(doc.contains("stroke-width=\"0.5\""));
}

#[test]
fn svg_single_point_draws_at_zero_scale() {
    let paths = vec![vec![pt(42, 42)]];
    let doc = svg_content(&paths, 1_920_000, 1_080_000, 300, "none").unwrap();
    assert!(doc.contains("viewBox=\"0 0 0.00 0.00\""));
    assert!(doc.contains("<polyline points=\"0.00,0.00 \" />"));
}
