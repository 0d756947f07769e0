use stroker::{stroke_to_path, LineCap, LineJoin, Path, PathOp, StrokeError, StrokeStyle};

const ONE: i64 = 65536;

fn style(width: i64, cap: LineCap, join: LineJoin, mitre_limit: i64) -> StrokeStyle {
    StrokeStyle {
        width,
        cap,
        join,
        mitre_limit,
        dash_array: vec![],
        dash_offset: 0,
    }
}

fn count_ops(ops: &[PathOp]) -> (usize, usize, usize, usize) {
    let mut moves = 0;
    let mut lines = 0;
    let mut cubics = 0;
    let mut closes = 0;
    for op in ops {
        match op {
            PathOp::MoveTo(..) => moves += 1,
            PathOp::LineTo(..) => lines += 1,
            PathOp::CubicTo(..) => cubics += 1,
            PathOp::Close => closes += 1,
            PathOp::QuadTo(..) => panic!("stroke output never holds a quadratic"),
        }
    }
    (moves, lines, cubics, closes)
}

#[test]
fn horizontal_segment_butt_quad() {
    // Unit-width stroke of (0,0) -> (10,0) with butt caps: exactly one quad
    // with corners (0, 0.5), (10, 0.5), (10, -0.5), (0, -0.5).
    let path = Path { ops: vec![PathOp::MoveTo(0, 0), PathOp::LineTo(10 * ONE, 0)] };
    let st = style(ONE, LineCap::Butt, LineJoin::Bevel, 4 * ONE);
    let out = stroke_to_path(&path, &st).unwrap();
    assert_eq!(
        out.ops,
        vec![
            PathOp::MoveTo(0, ONE / 2),
            PathOp::LineTo(10 * ONE, ONE / 2),
            PathOp::LineTo(10 * ONE, -ONE / 2),
            PathOp::LineTo(0, -ONE / 2),
            PathOp::Close,
        ]
    );
}

#[test]
fn quad_to_input_is_refused() {
    let path = Path {
        ops: vec![
            PathOp::MoveTo(0, 0),
            PathOp::LineTo(10 * ONE, 0),
            PathOp::QuadTo(ONE, ONE, 2 * ONE, 0),
        ],
    };
    let st = style(ONE, LineCap::Butt, LineJoin::Bevel, 4 * ONE);
    assert_eq!(stroke_to_path(&path, &st), Err(StrokeError::UnsupportedOperation));
}

#[test]
fn cubic_to_input_is_refused() {
    let path = Path { ops: vec![PathOp::CubicTo(0, 0, ONE, ONE, 2 * ONE, 0)] };
    let st = style(ONE, LineCap::Butt, LineJoin::Bevel, 4 * ONE);
    assert_eq!(stroke_to_path(&path, &st), Err(StrokeError::UnsupportedOperation));
}

#[test]
fn zero_length_segment_is_refused() {
    let path = Path { ops: vec![PathOp::MoveTo(ONE, ONE), PathOp::LineTo(ONE, ONE)] };
    let st = style(ONE, LineCap::Butt, LineJoin::Bevel, 4 * ONE);
    assert_eq!(stroke_to_path(&path, &st), Err(StrokeError::ZeroLengthSegment));
}

#[test]
fn close_at_start_joins_without_closing_quad() {
    // The subpath already ends at its start: Close emits no closing quad,
    // only the join between the last and the first segment.
    let path = Path {
        ops: vec![
            PathOp::MoveTo(0, 0),
            PathOp::LineTo(10 * ONE, 0),
            PathOp::LineTo(0, 0),
            PathOp::Close,
        ],
    };
    let st = style(ONE, LineCap::Round, LineJoin::Bevel, 4 * ONE);
    let out = stroke_to_path(&path, &st).unwrap();
    let (moves, _, _, closes) = count_ops(&out.ops);
    // Two quads and two joins (one per 180-degree turn), no caps.
    assert_eq!((moves, closes), (4, 4));
}

#[test]
fn closed_square_bevel_has_eight_contours() {
    // Four quads plus four bevel join triangles, no caps even though the
    // cap style is Round.
    let l = 10 * ONE;
    let path = Path {
        ops: vec![
            PathOp::MoveTo(0, 0),
            PathOp::LineTo(l, 0),
            PathOp::LineTo(l, l),
            PathOp::LineTo(0, l),
            PathOp::LineTo(0, 0),
            PathOp::Close,
        ],
    };
    let st = style(ONE, LineCap::Round, LineJoin::Bevel, 4 * ONE);
    let out = stroke_to_path(&path, &st).unwrap();
    let (moves, lines, cubics, closes) = count_ops(&out.ops);
    assert_eq!(moves, 8);
    assert_eq!(closes, 8);
    assert_eq!(cubics, 0);
    // 4 quads of (move + 3 lines + close) and 4 triangles of (move + 2
    // lines + close).
    assert_eq!(lines, 4 * 3 + 4 * 2);
    assert_eq!(out.ops.len(), 36);
}

#[test]
fn open_subpath_capped_on_move_to() {
    // A MoveTo finalises the dangling subpath with caps on both ends.
    let path = Path {
        ops: vec![
            PathOp::MoveTo(0, 0),
            PathOp::LineTo(10 * ONE, 0),
            PathOp::MoveTo(0, 5 * ONE),
            PathOp::LineTo(10 * ONE, 5 * ONE),
        ],
    };
    let butt = style(ONE, LineCap::Butt, LineJoin::Bevel, 4 * ONE);
    let out = stroke_to_path(&path, &butt).unwrap();
    let (moves, _, _, closes) = count_ops(&out.ops);
    assert_eq!((moves, closes), (2, 2));

    let round = style(ONE, LineCap::Round, LineJoin::Bevel, 4 * ONE);
    let out = stroke_to_path(&path, &round).unwrap();
    let (moves, _, cubics, closes) = count_ops(&out.ops);
    assert_eq!((moves, closes), (6, 6));
    assert_eq!(cubics, 8);
}

#[test]
fn square_caps_extend_by_half_width() {
    let path = Path { ops: vec![PathOp::MoveTo(0, 0), PathOp::LineTo(10 * ONE, 0)] };
    let st = style(ONE, LineCap::Square, LineJoin::Bevel, 4 * ONE);
    let out = stroke_to_path(&path, &st).unwrap();
    let h = ONE / 2;
    let l = 10 * ONE;
    assert_eq!(
        out.ops,
        vec![
            // the segment quad
            PathOp::MoveTo(0, h),
            PathOp::LineTo(l, h),
            PathOp::LineTo(l, -h),
            PathOp::LineTo(0, -h),
            PathOp::Close,
            // end cap, extending forward past (10, 0)
            PathOp::MoveTo(l, h),
            PathOp::LineTo(l + h, h),
            PathOp::LineTo(l + h, -h),
            PathOp::LineTo(l, -h),
            PathOp::Close,
            // start cap, extending backward past (0, 0)
            PathOp::MoveTo(0, -h),
            PathOp::LineTo(-h, -h),
            PathOp::LineTo(-h, h),
            PathOp::LineTo(0, h),
            PathOp::Close,
        ]
    );
}

#[test]
fn right_angle_mitre_fan() {
    // A right-angle turn with limit 2.0 keeps the mitre; the tip is the
    // exact intersection of the two offset lines.
    let l = 10 * ONE;
    let h = ONE / 2;
    let path = Path {
        ops: vec![PathOp::MoveTo(0, 0), PathOp::LineTo(l, 0), PathOp::LineTo(l, l)],
    };
    let st = style(ONE, LineCap::Butt, LineJoin::Mitre, 2 * ONE);
    let out = stroke_to_path(&path, &st).unwrap();
    assert_eq!(out.ops.len(), 15);
    assert_eq!(
        &out.ops[5..10],
        &[
            PathOp::MoveTo(l + h, 0),
            PathOp::LineTo(l + h, -h),
            PathOp::LineTo(l, -h),
            PathOp::LineTo(l, 0),
            PathOp::Close,
        ]
    );
}

#[test]
fn right_angle_mitre_limit_one_falls_back_to_bevel() {
    // With limit 1.0 the right angle exceeds the mitre limit: the join is
    // the bevel triangle.
    let l = 10 * ONE;
    let h = ONE / 2;
    let path = Path {
        ops: vec![PathOp::MoveTo(0, 0), PathOp::LineTo(l, 0), PathOp::LineTo(l, l)],
    };
    let st = style(ONE, LineCap::Butt, LineJoin::Mitre, ONE);
    let out = stroke_to_path(&path, &st).unwrap();
    assert_eq!(out.ops.len(), 14);
    assert_eq!(
        &out.ops[5..9],
        &[
            PathOp::MoveTo(l + h, 0),
            PathOp::LineTo(l, -h),
            PathOp::LineTo(l, 0),
            PathOp::Close,
        ]
    );
}

#[test]
fn collinear_mitre_boundary_case() {
    // For two collinear segments the mitre test reads
    // 2*ONE^4 <= limit^2 * 2*ONE^2.  At limit == ONE the two sides are
    // exactly equal: the boundary stays on the mitre branch, whose offset
    // lines are parallel, so the stroke fails as degenerate.  One unit
    // below the limit, the join falls back to the bevel and succeeds.
    let path = Path {
        ops: vec![
            PathOp::MoveTo(0, 0),
            PathOp::LineTo(5 * ONE, 0),
            PathOp::LineTo(10 * ONE, 0),
        ],
    };
    let at_boundary = style(ONE, LineCap::Butt, LineJoin::Mitre, ONE);
    assert_eq!(
        stroke_to_path(&path, &at_boundary),
        Err(StrokeError::DegenerateGeometry)
    );
    let below_boundary = style(ONE, LineCap::Butt, LineJoin::Mitre, ONE - 1);
    assert!(stroke_to_path(&path, &below_boundary).is_ok());
}

#[test]
fn collinear_bevel_join_degenerates() {
    // Equal normals: the bevel sliver's two offset corners coincide, so a
    // straight path stays visually straight.
    let path = Path {
        ops: vec![
            PathOp::MoveTo(0, 0),
            PathOp::LineTo(5 * ONE, 0),
            PathOp::LineTo(10 * ONE, 0),
        ],
    };
    let st = style(ONE, LineCap::Butt, LineJoin::Bevel, 4 * ONE);
    let out = stroke_to_path(&path, &st).unwrap();
    // quad1 (5 ops), then the join: move and line to the same corner.
    let h = ONE / 2;
    assert_eq!(out.ops[5], PathOp::MoveTo(5 * ONE, -h));
    assert_eq!(out.ops[6], PathOp::LineTo(5 * ONE, -h));
    assert_eq!(out.ops[7], PathOp::LineTo(5 * ONE, 0));
    assert_eq!(out.ops[8], PathOp::Close);
}

#[test]
fn collinear_round_join_degenerates() {
    // Equal normals with a round join: the arc cubics collapse onto the
    // single offset point, so no bump is drawn.
    let path = Path {
        ops: vec![
            PathOp::MoveTo(0, 0),
            PathOp::LineTo(5 * ONE, 0),
            PathOp::LineTo(10 * ONE, 0),
        ],
    };
    let st = style(ONE, LineCap::Butt, LineJoin::Round, 4 * ONE);
    let out = stroke_to_path(&path, &st).unwrap();
    let h = ONE / 2;
    assert_eq!(out.ops[5], PathOp::MoveTo(5 * ONE, -h));
    for op in &out.ops[6..8] {
        match op {
            PathOp::CubicTo(x1, y1, x2, y2, x3, y3) => {
                assert_eq!((*x1, *y1), (5 * ONE, -h));
                assert_eq!((*x2, *y2), (5 * ONE, -h));
                assert_eq!((*x3, *y3), (5 * ONE, -h));
            },
            other => panic!("expected a cubic, found {:?}", other),
        }
    }
    assert_eq!(out.ops[8], PathOp::LineTo(5 * ONE, 0));
    assert_eq!(out.ops[9], PathOp::Close);
}

#[test]
fn close_without_segments_is_inert() {
    let path = Path { ops: vec![PathOp::MoveTo(0, 0), PathOp::Close] };
    let st = style(ONE, LineCap::Round, LineJoin::Round, 4 * ONE);
    let out = stroke_to_path(&path, &st).unwrap();
    assert!(out.ops.is_empty());
}

#[test]
fn empty_path_strokes_to_empty_path() {
    let path = Path { ops: vec![] };
    let st = style(ONE, LineCap::Round, LineJoin::Round, 4 * ONE);
    let out = stroke_to_path(&path, &st).unwrap();
    assert!(out.ops.is_empty());
}
