use stroker::geom::{bisect, compute_normal, dot};
use stroker::path::{is_valid_style, path_in_bounds};
use stroker::stroke::arc;
use stroker::{
    stroke_to_path, LineCap, LineJoin, Path, PathBuilder, PathOp, Point, StrokeStyle, Vector,
};

const ONE: i64 = 65536;

fn to_f(v: i64) -> f64 {
    v as f64 / ONE as f64
}

fn unit_vec(angle: f64) -> Vector {
    Vector {
        x: (angle.cos() * ONE as f64).round() as i64,
        y: (angle.sin() * ONE as f64).round() as i64,
    }
}

fn cubic_at(p0: (f64, f64), c: &[f64; 6], t: f64) -> (f64, f64) {
    let u = 1.0 - t;
    let x = u * u * u * p0.0 + 3.0 * u * u * t * c[0] + 3.0 * u * t * t * c[2] + t * t * t * c[4];
    let y = u * u * u * p0.1 + 3.0 * u * u * t * c[1] + 3.0 * u * t * t * c[3] + t * t * t * c[5];
    (x, y)
}

#[test]
fn normal_is_unit_and_perpendicular() {
    // A sweep of segment directions: the normal has length one and is
    // perpendicular to the segment, up to fixed-point truncation.
    for i in 0..72 {
        let angle = i as f64 * std::f64::consts::PI / 36.0;
        let p0 = Point { x: 3 * ONE, y: -2 * ONE };
        let p1 = Point {
            x: p0.x + (angle.cos() * 7.5 * ONE as f64) as i64,
            y: p0.y + (angle.sin() * 7.5 * ONE as f64) as i64,
        };
        let n = compute_normal(p0, p1).unwrap();
        let nx = to_f(n.x);
        let ny = to_f(n.y);
        let len = (nx * nx + ny * ny).sqrt();
        assert!((len - 1.0).abs() < 1e-3, "normal length {} at angle {}", len, angle);
        let dx = to_f(p1.x - p0.x);
        let dy = to_f(p1.y - p0.y);
        let seg_len = (dx * dx + dy * dy).sqrt();
        let cosine = (nx * dx + ny * dy) / (len * seg_len);
        assert!(cosine.abs() < 1e-3, "normal not perpendicular at angle {}", angle);
    }
}

#[test]
fn normal_points_left_of_travel() {
    // For travel along +x the left normal points along +y, exactly.
    let n = compute_normal(Point { x: 0, y: 0 }, Point { x: 10 * ONE, y: 0 }).unwrap();
    assert_eq!((n.x, n.y), (0, ONE));
}

#[test]
fn bisector_equidistant_across_sweep() {
    // From just above 0 degrees to just below 180 degrees, the bisector of
    // two unit vectors makes (nearly) equal angles with both.
    let a = unit_vec(0.3);
    for i in 1..90 {
        let theta = i as f64 * std::f64::consts::PI / 90.0;
        let b = unit_vec(0.3 + theta);
        let m = bisect(a, b).unwrap();
        let (ax, ay) = (to_f(a.x), to_f(a.y));
        let (bx, by) = (to_f(b.x), to_f(b.y));
        let (mx, my) = (to_f(m.x), to_f(m.y));
        let na = (ax * ax + ay * ay).sqrt();
        let nb = (bx * bx + by * by).sqrt();
        let nm = (mx * mx + my * my).sqrt();
        let ca = (ax * mx + ay * my) / (na * nm);
        let cb = (mx * bx + my * by) / (nm * nb);
        assert!((ca - cb).abs() < 2e-3, "bisector skewed at step {}: {} vs {}", i, ca, cb);
    }
}

#[test]
fn bisector_exact_values() {
    // Acute: bisector of +x and +y is the diagonal, each component
    // floor(ONE*ONE / isqrt(2*ONE*ONE)) = floor(4294967296 / 92681).
    let m = bisect(Vector { x: ONE, y: 0 }, Vector { x: 0, y: ONE }).unwrap();
    assert_eq!((m.x, m.y), (46341, 46341));
    // Opposite vectors take the stable reformulation: the bisector is the
    // exact perpendicular.
    let m = bisect(Vector { x: ONE, y: 0 }, Vector { x: -ONE, y: 0 }).unwrap();
    assert_eq!((m.x, m.y), (0, -ONE));
}

#[test]
fn dot_matches_definition() {
    let a = Vector { x: 3 * ONE, y: -2 * ONE };
    let b = Vector { x: 5, y: 7 };
    assert_eq!(dot(a, b), 3 * ONE * 5 + (-2 * ONE) * 7);
}

fn max_arc_radius_error(center: (f64, f64), radius: f64, start: (f64, f64), ops: &[PathOp]) -> f64 {
    let mut cur = start;
    let mut worst: f64 = 0.0;
    for op in ops {
        match op {
            PathOp::CubicTo(x1, y1, x2, y2, x3, y3) => {
                let c = [to_f(*x1), to_f(*y1), to_f(*x2), to_f(*y2), to_f(*x3), to_f(*y3)];
                for k in 0..=16 {
                    let t = k as f64 / 16.0;
                    let (px, py) = cubic_at(cur, &c, t);
                    let d = ((px - center.0).powi(2) + (py - center.1).powi(2)).sqrt();
                    worst = worst.max((d - radius).abs());
                }
                cur = (c[4], c[5]);
            },
            other => panic!("arc emitted {:?}", other),
        }
    }
    worst
}

#[test]
fn arc_stays_close_to_the_circle() {
    // Arcs of a quarter turn and a half turn: the sampled deviation from
    // the true circle stays below 0.1% of the radius.
    let c = Point { x: 0, y: 0 };
    let r = 10 * ONE;
    let a = Vector { x: ONE, y: 0 };

    let mut pb = PathBuilder::new();
    arc(&mut pb, c, r, a, Vector { x: 0, y: ONE }).unwrap();
    let quarter = pb.finish();
    let err = max_arc_radius_error((0.0, 0.0), 10.0, (10.0, 0.0), &quarter.ops);
    assert!(err < 0.01, "quarter-turn arc error {}", err);

    let mut pb = PathBuilder::new();
    arc(&mut pb, c, r, a, Vector { x: -ONE, y: 0 }).unwrap();
    let half = pb.finish();
    assert_eq!(half.ops.len(), 2);
    let err = max_arc_radius_error((0.0, 0.0), 10.0, (10.0, 0.0), &half.ops);
    assert!(err < 0.01, "half-turn arc error {}", err);
}

#[test]
fn round_capped_segment_encloses_stadium() {
    // One segment of width 2 with round caps: the quad plus one half-disc
    // of radius 1 at each end, bulging outward along the segment axis.
    let path = Path { ops: vec![PathOp::MoveTo(0, 0), PathOp::LineTo(10 * ONE, 0)] };
    let st = StrokeStyle {
        width: 2 * ONE,
        cap: LineCap::Round,
        join: LineJoin::Bevel,
        mitre_limit: 4 * ONE,
        dash_array: vec![],
        dash_offset: 0,
    };
    let out = stroke_to_path(&path, &st).unwrap();
    // Quad, then two cap contours of (move + 2 cubics + close) each.
    assert_eq!(out.ops.len(), 5 + 4 + 4);
    assert_eq!(
        &out.ops[0..5],
        &[
            PathOp::MoveTo(0, ONE),
            PathOp::LineTo(10 * ONE, ONE),
            PathOp::LineTo(10 * ONE, -ONE),
            PathOp::LineTo(0, -ONE),
            PathOp::Close,
        ]
    );
    // End cap: half-disc around (10, 0), reaching only forward (x >= 10).
    assert_eq!(out.ops[5], PathOp::MoveTo(10 * ONE, ONE));
    let end_err = max_arc_radius_error((10.0, 0.0), 1.0, (10.0, 1.0), &out.ops[6..8]);
    assert!(end_err < 0.002, "end cap error {}", end_err);
    for op in &out.ops[6..8] {
        if let PathOp::CubicTo(_, _, _, _, x3, _) = op {
            assert!(*x3 >= 10 * ONE - 2);
        }
    }
    assert_eq!(out.ops[8], PathOp::Close);
    // Start cap: half-disc around (0, 0), reaching only backward (x <= 0).
    assert_eq!(out.ops[9], PathOp::MoveTo(0, -ONE));
    let start_err = max_arc_radius_error((0.0, 0.0), 1.0, (0.0, -1.0), &out.ops[10..12]);
    assert!(start_err < 0.002, "start cap error {}", start_err);
    for op in &out.ops[10..12] {
        if let PathOp::CubicTo(_, _, _, _, x3, _) = op {
            assert!(*x3 <= 2);
        }
    }
    assert_eq!(out.ops[12], PathOp::Close);
}

#[test]
fn style_validation() {
    let good = StrokeStyle {
        width: ONE,
        cap: LineCap::Butt,
        join: LineJoin::Bevel,
        mitre_limit: 4 * ONE,
        dash_array: vec![ONE, ONE / 2],
        dash_offset: 0,
    };
    assert!(is_valid_style(&good));
    let zero_width = StrokeStyle { width: 0, ..good };
    assert!(!is_valid_style(&zero_width));
    let negative_dash = StrokeStyle {
        width: ONE,
        cap: LineCap::Butt,
        join: LineJoin::Bevel,
        mitre_limit: 4 * ONE,
        dash_array: vec![ONE, -1],
        dash_offset: 0,
    };
    assert!(!is_valid_style(&negative_dash));
}

#[test]
fn path_bounds_validation() {
    let inside = Path { ops: vec![PathOp::MoveTo(0, 0), PathOp::LineTo(134217728, 0)] };
    assert!(path_in_bounds(&inside));
    let outside = Path { ops: vec![PathOp::MoveTo(0, 0), PathOp::LineTo(134217729, 0)] };
    assert!(!path_in_bounds(&outside));
}

#[test]
fn builder_collects_operations_in_order() {
    let mut pb = PathBuilder::new();
    pb.move_to(1, 2);
    pb.line_to(3, 4);
    pb.cubic_to(5, 6, 7, 8, 9, 10);
    pb.close();
    let p = pb.finish();
    assert_eq!(
        p.ops,
        vec![
            PathOp::MoveTo(1, 2),
            PathOp::LineTo(3, 4),
            PathOp::CubicTo(5, 6, 7, 8, 9, 10),
            PathOp::Close,
        ]
    );
}
