//! The stroker: walks a flattened path and emits, per segment, an offset
//! quad, per interior vertex a join contour, and per open subpath end a cap
//! contour.  Round geometry is approximated by cubic Bezier arcs.
//!
//! Every emitting function is specified against a spec-level mirror that
//! states exactly which operations it appends, so [`stroke_to_path`] is
//! pinned down to the operation sequence [`stroke_spec`] describes.

use crate::fixed::{div0, div_any, div_pos, lemma_abs_mul_le, lemma_div0_le, MAX_COORD, ONE};
use crate::geom::{
    bisect, bisect_spec, compute_normal, compute_normal_spec, dot, dot_spec, flip, flip_spec,
    is_interior_angle, is_interior_spec, line_intersection, line_intersection_spec, perp,
    perp_spec, pt_add, pt_bounded, pt_sub, scale_spec, scale_vec, swap, swap_spec, vadd_spec,
    vec_bounded, Point, Vector,
};
use crate::path::{
    op_bounded, path_bounded, style_wf, LineCap, LineJoin, Path, PathBuilder, PathOp, StrokeError,
    StrokeStyle,
};
use vstd::prelude::*;

verus! {

/// Sequential composition of two emissions: the first error wins, otherwise
/// the emitted operations are concatenated.
pub open spec fn rjoin(
    a: Result<Seq<PathOp>, StrokeError>,
    b: Result<Seq<PathOp>, StrokeError>,
) -> Result<Seq<PathOp>, StrokeError> {
    match a {
        Result::Err(e) => Result::Err(e),
        Result::Ok(s1) => match b {
            Result::Err(e) => Result::Err(e),
            Result::Ok(s2) => Result::Ok(s1 + s2),
        },
    }
}

/// An already-emitted prefix followed by the rest of an emission.
pub open spec fn rcons(prefix: Seq<PathOp>, r: Result<Seq<PathOp>, StrokeError>) -> Result<
    Seq<PathOp>,
    StrokeError,
> {
    match r {
        Result::Err(e) => Result::Err(e),
        Result::Ok(s) => Result::Ok(prefix + s),
    }
}

proof fn lemma_rcons_nil(r: Result<Seq<PathOp>, StrokeError>)
    ensures
        rcons(Seq::<PathOp>::empty(), r) == r,
{
    if r is Ok {
        assert(Seq::<PathOp>::empty() + r->Ok_0 =~= r->Ok_0);
    }
}

proof fn lemma_rcons_end(prefix: Seq<PathOp>)
    ensures
        rcons(prefix, Result::<Seq<PathOp>, StrokeError>::Ok(Seq::<PathOp>::empty())) == Result::<
            Seq<PathOp>,
            StrokeError,
        >::Ok(prefix),
{
    assert(prefix + Seq::<PathOp>::empty() =~= prefix);
}

proof fn lemma_rcons_shift(prefix: Seq<PathOp>, s: Seq<PathOp>, x: Result<Seq<PathOp>, StrokeError>)
    ensures
        rcons(prefix, rjoin(Result::Ok(s), x)) == rcons(prefix + s, x),
{
    if x is Ok {
        assert(prefix + (s + x->Ok_0) =~= (prefix + s) + x->Ok_0);
    }
}

/// The half-width used to offset all stroke geometry.
pub open spec fn half_width(style: StrokeStyle) -> int {
    style.width / 2
}

/// The four-corner offset quad emitted for the segment from `p0` to `p1`
/// with unit normal `n`: each corner is the corresponding endpoint offset
/// by the half-width along the normal (or its negation).
pub open spec fn quad_spec(p0: Point, p1: Point, n: Vector, hw: int) -> Seq<PathOp> {
    let o = scale_spec(n, hw);
    seq![
        PathOp::MoveTo(pt_add(p0, o).x, pt_add(p0, o).y),
        PathOp::LineTo(pt_add(p1, o).x, pt_add(p1, o).y),
        PathOp::LineTo(pt_sub(p1, o).x, pt_sub(p1, o).y),
        PathOp::LineTo(pt_sub(p0, o).x, pt_sub(p0, o).y),
        PathOp::Close,
    ]
}

/// One cubic Bezier approximating the circular arc of radius `radius`
/// around `c` from angle vector `a` to `b` (at most a quarter turn), with
/// the control-point offset `h = (4/3) tan((B - A)/4)` computed without
/// trigonometry.  Fails when the bisector or the `h` denominator
/// degenerates to zero.
pub open spec fn arc_segment_spec(c: Point, radius: int, a: Vector, b: Vector) -> Result<
    Seq<PathOp>,
    StrokeError,
> {
    match crate::geom::normalize_spec(vadd_spec(a, b)) {
        Option::None => Result::Err(StrokeError::DegenerateGeometry),
        Option::Some(mid) => {
            let mid2 = vadd_spec(a, mid);
            let q = dot_spec(a, mid2);
            if q == 0 {
                Result::Err(StrokeError::DegenerateGeometry)
            } else {
                let h = div0(4 * dot_spec(perp_spec(a), mid2) * ONE, 3 * q);
                let ra = scale_spec(a, radius);
                let rb = scale_spec(b, radius);
                Result::Ok(
                    seq![
                        PathOp::CubicTo(
                            (c.x + ra.x - div0(h * ra.y, ONE as int)) as i64,
                            (c.y + ra.y + div0(h * ra.x, ONE as int)) as i64,
                            (c.x + rb.x + div0(h * rb.y, ONE as int)) as i64,
                            (c.y + rb.y - div0(h * rb.x, ONE as int)) as i64,
                            (c.x + rb.x) as i64,
                            (c.y + rb.y) as i64,
                        ),
                    ],
                )
            }
        },
    }
}

/// The arc from `a` to `b` (at most a half turn): the angle is bisected and
/// each half is drawn as one cubic.
pub open spec fn arc_spec(c: Point, radius: int, a: Vector, b: Vector) -> Result<
    Seq<PathOp>,
    StrokeError,
> {
    match bisect_spec(a, b) {
        Result::Err(e) => Result::Err(e),
        Result::Ok(mid) => rjoin(
            arc_segment_spec(c, radius, a, mid),
            arc_segment_spec(c, radius, mid, b),
        ),
    }
}

/// Computes [`half_width`] at runtime.
fn half_width_of(style: &StrokeStyle) -> (hw: i64)
    requires
        style_wf(*style),
    ensures
        hw == half_width(*style),
        0 <= hw <= MAX_COORD,
{
    proof {
        crate::fixed::lemma_div0_char(style.width as int, 2);
    }
    ((style.width as u64) / 2) as i64
}

/// Computes the single cubic of [`arc_segment_spec`].
fn arc_seg_calc(c: Point, radius: i64, a: Vector, b: Vector) -> (r: Result<PathOp, StrokeError>)
    requires
        pt_bounded(c, 268435456),
        0 <= radius <= MAX_COORD,
        vec_bounded(a, ONE as int),
        vec_bounded(b, ONE as int),
    ensures
        match r {
            Ok(op) => arc_segment_spec(c, radius as int, a, b) == Result::<
                Seq<PathOp>,
                StrokeError,
            >::Ok(seq![op]),
            Err(e) => arc_segment_spec(c, radius as int, a, b) == Result::<
                Seq<PathOp>,
                StrokeError,
            >::Err(e),
        },
{
    let sum = Vector { x: a.x + b.x, y: a.y + b.y };
    proof {
        assert(sum == vadd_spec(a, b));
    }
    let mid = match crate::geom::normalize(sum) {
        None => {
            return Err(StrokeError::DegenerateGeometry);
        },
        Some(m) => m,
    };
    let mid2 = Vector { x: a.x + mid.x, y: a.y + mid.y };
    proof {
        assert(mid2 == vadd_spec(a, mid));
    }
    let pa = perp(a);
    let p_val = dot(pa, mid2);
    let q_val = dot(a, mid2);
    if q_val == 0 {
        return Err(StrokeError::DegenerateGeometry);
    }
    proof {
        lemma_abs_mul_le(pa.x as int, mid2.x as int, ONE as int, 2 * ONE as int);
        lemma_abs_mul_le(pa.y as int, mid2.y as int, ONE as int, 2 * ONE as int);
        lemma_abs_mul_le(a.x as int, mid2.x as int, ONE as int, 2 * ONE as int);
        lemma_abs_mul_le(a.y as int, mid2.y as int, ONE as int, 2 * ONE as int);
    }
    let num: i128 = 4 * (p_val as i128) * (ONE as i128);
    let den: i128 = 3 * (q_val as i128);
    proof {
        lemma_abs_mul_le(4 * p_val as int, ONE as int, 68719476736, ONE as int);
        crate::fixed::lemma_div0_div_le(num as int, den as int, 1501199875790166, 3);
    }
    let h: i128 = div_any(num, den);
    let ra = scale_vec(a, radius);
    let rb = scale_vec(b, radius);
    proof {
        lemma_abs_mul_le(h as int, ra.x as int, 1501199875790166, MAX_COORD as int);
        lemma_abs_mul_le(h as int, ra.y as int, 1501199875790166, MAX_COORD as int);
        lemma_abs_mul_le(h as int, rb.x as int, 1501199875790166, MAX_COORD as int);
        lemma_abs_mul_le(h as int, rb.y as int, 1501199875790166, MAX_COORD as int);
        lemma_div0_le(h * ra.x, ONE as int, 3074457345618259968);
        lemma_div0_le(h * ra.y, ONE as int, 3074457345618259968);
        lemma_div0_le(h * rb.x, ONE as int, 3074457345618259968);
        lemma_div0_le(h * rb.y, ONE as int, 3074457345618259968);
    }
    let t1: i128 = div_pos(h * (ra.y as i128), ONE as i128);
    let t2: i128 = div_pos(h * (ra.x as i128), ONE as i128);
    let t3: i128 = div_pos(h * (rb.y as i128), ONE as i128);
    let t4: i128 = div_pos(h * (rb.x as i128), ONE as i128);
    let c1x: i128 = c.x as i128 + ra.x as i128 - t1;
    let c1y: i128 = c.y as i128 + ra.y as i128 + t2;
    let c2x: i128 = c.x as i128 + rb.x as i128 + t3;
    let c2y: i128 = c.y as i128 + rb.y as i128 - t4;
    let c3x: i64 = c.x + rb.x;
    let c3y: i64 = c.y + rb.y;
    let op = PathOp::CubicTo(c1x as i64, c1y as i64, c2x as i64, c2y as i64, c3x, c3y);
    Ok(op)
}

/// Appends one quarter-turn arc cubic; relied on by [`arc`], kept public as
/// the single-segment entry point.
pub fn arc_segment(path: &mut PathBuilder, c: Point, radius: i64, a: Vector, b: Vector) -> (r:
    Result<(), StrokeError>)
    requires
        pt_bounded(c, 268435456),
        0 <= radius <= MAX_COORD,
        vec_bounded(a, ONE as int),
        vec_bounded(b, ONE as int),
    ensures
        match arc_segment_spec(c, radius as int, a, b) {
            Ok(s) => r is Ok && final(path)@ == old(path)@ + s,
            Err(e) => r == Result::<(), StrokeError>::Err(e) && final(path)@ == old(path)@,
        },
{
    match arc_seg_calc(c, radius, a, b) {
        Err(e) => Err(e),
        Ok(op) => {
            path.append_op(op);
            proof {
                assert(old(path)@.push(op) =~= old(path)@ + seq![op]);
            }
            Ok(())
        },
    }
}

/// Computes the two cubics of [`arc_spec`].
fn arc_calc(c: Point, radius: i64, a: Vector, b: Vector) -> (r: Result<
    (PathOp, PathOp),
    StrokeError,
>)
    requires
        pt_bounded(c, 268435456),
        0 <= radius <= MAX_COORD,
        vec_bounded(a, ONE as int),
        vec_bounded(b, ONE as int),
    ensures
        match r {
            Ok(t) => arc_spec(c, radius as int, a, b) == Result::<Seq<PathOp>, StrokeError>::Ok(
                seq![t.0, t.1],
            ),
            Err(e) => arc_spec(c, radius as int, a, b) == Result::<Seq<PathOp>, StrokeError>::Err(
                e,
            ),
        },
{
    let mid = match bisect(a, b) {
        Err(e) => {
            return Err(e);
        },
        Ok(m) => m,
    };
    let o1 = match arc_seg_calc(c, radius, a, mid) {
        Err(e) => {
            return Err(e);
        },
        Ok(x) => x,
    };
    let o2 = match arc_seg_calc(c, radius, mid, b) {
        Err(e) => {
            return Err(e);
        },
        Ok(x) => x,
    };
    proof {
        assert(seq![o1] + seq![o2] =~= seq![o1, o2]);
    }
    Ok((o1, o2))
}

/// Appends an arc of at most a half turn, drawn as two cubics.
pub fn arc(path: &mut PathBuilder, c: Point, radius: i64, a: Vector, b: Vector) -> (r: Result<
    (),
    StrokeError,
>)
    requires
        pt_bounded(c, 268435456),
        0 <= radius <= MAX_COORD,
        vec_bounded(a, ONE as int),
        vec_bounded(b, ONE as int),
    ensures
        match arc_spec(c, radius as int, a, b) {
            Ok(s) => r is Ok && final(path)@ == old(path)@ + s,
            Err(e) => r == Result::<(), StrokeError>::Err(e) && final(path)@ == old(path)@,
        },
{
    match arc_calc(c, radius, a, b) {
        Err(e) => Err(e),
        Ok(t) => {
            let (o1, o2) = t;
            path.append_op(o1);
            path.append_op(o2);
            proof {
                assert(old(path)@.push(o1).push(o2) =~= old(path)@ + seq![o1, o2]);
            }
            Ok(())
        },
    }
}

/// The round join is a plain arc between the two normals: the caller has
/// already arranged for the turn to lie on the convex side.
pub fn join_round(path: &mut PathBuilder, center: Point, a: Vector, b: Vector, radius: i64) -> (r:
    Result<(), StrokeError>)
    requires
        pt_bounded(center, 268435456),
        0 <= radius <= MAX_COORD,
        vec_bounded(a, ONE as int),
        vec_bounded(b, ONE as int),
    ensures
        match arc_spec(center, radius as int, a, b) {
            Ok(s) => r is Ok && final(path)@ == old(path)@ + s,
            Err(e) => r == Result::<(), StrokeError>::Err(e) && final(path)@ == old(path)@,
        },
{
    arc(path, center, radius, a, b)
}

/// Appends the offset quad of one segment.
fn emit_quad(dest: &mut PathBuilder, p0: Point, p1: Point, n: Vector, hw: i64)
    requires
        pt_bounded(p0, MAX_COORD as int),
        pt_bounded(p1, MAX_COORD as int),
        vec_bounded(n, ONE as int),
        0 <= hw <= MAX_COORD,
    ensures
        final(dest)@ == old(dest)@ + quad_spec(p0, p1, n, hw as int),
{
    let o = scale_vec(n, hw);
    dest.move_to(p0.x + o.x, p0.y + o.y);
    dest.line_to(p1.x + o.x, p1.y + o.y);
    dest.line_to(p1.x - o.x, p1.y - o.y);
    dest.line_to(p0.x - o.x, p0.y - o.y);
    dest.close();
    proof {
        assert(dest@ =~= old(dest)@ + quad_spec(p0, p1, n, hw as int));
    }
}

/// The cap contour for an open subpath end at `pt` whose edge normal is
/// `normal`: nothing for a butt cap, a half-disc for a round cap, a
/// half-width extension rectangle for a square cap.
pub open spec fn cap_spec(style: StrokeStyle, pt: Point, normal: Vector) -> Result<
    Seq<PathOp>,
    StrokeError,
> {
    let hw = half_width(style);
    match style.cap {
        LineCap::Butt => Result::Ok(Seq::<PathOp>::empty()),
        LineCap::Round => {
            let s = pt_add(pt, scale_spec(normal, hw));
            match arc_spec(pt, hw, normal, flip_spec(normal)) {
                Result::Err(e) => Result::Err(e),
                Result::Ok(arcops) => Result::Ok(
                    seq![PathOp::MoveTo(s.x, s.y)] + arcops + seq![PathOp::Close],
                ),
            }
        },
        LineCap::Square => {
            let o = scale_spec(normal, hw);
            let v = swap_spec(normal);
            let end = pt_add(pt, scale_spec(v, hw));
            Result::Ok(
                seq![
                    PathOp::MoveTo(pt_add(pt, o).x, pt_add(pt, o).y),
                    PathOp::LineTo(pt_add(end, o).x, pt_add(end, o).y),
                    PathOp::LineTo(pt_sub(end, o).x, pt_sub(end, o).y),
                    PathOp::LineTo(pt_sub(pt, o).x, pt_sub(pt, o).y),
                    PathOp::Close,
                ],
            )
        },
    }
}

/// The bevel join contour: the triangle spanned by the two offset points
/// and the vertex itself.
pub open spec fn bevel_spec(pt: Point, s1: Vector, s2: Vector, hw: int) -> Seq<PathOp> {
    let o1 = scale_spec(s1, hw);
    let o2 = scale_spec(s2, hw);
    seq![
        PathOp::MoveTo(pt_add(pt, o1).x, pt_add(pt, o1).y),
        PathOp::LineTo(pt_add(pt, o2).x, pt_add(pt, o2).y),
        PathOp::LineTo(pt.x, pt.y),
        PathOp::Close,
    ]
}

/// The mitre join does not exceed the mitre limit: the test
/// `2 <= limit^2 * (1 - cos(theta))` carried out exactly in fixed point
/// (`ml` is the fixed-point limit, `d2` the `ONE^2`-scaled cosine term).
pub open spec fn mitre_ok(ml: int, d2: int) -> bool {
    2 * (ONE as int) * (ONE as int) * (ONE as int) * (ONE as int) <= ml * ml * (
    (ONE as int) * (ONE as int) - d2)
}

/// The join contour at vertex `pt` between the incoming segment's normal
/// `s1` and the outgoing segment's normal `s2`.  An interior turn is first
/// flipped onto the convex side.  A mitre join falls back to the bevel
/// exactly when the mitre-limit test fails.
pub open spec fn join_spec(style: StrokeStyle, pt: Point, s1: Vector, s2: Vector) -> Result<
    Seq<PathOp>,
    StrokeError,
> {
    let u1 = if is_interior_spec(s1, s2) {
        flip_spec(s2)
    } else {
        s1
    };
    let u2 = if is_interior_spec(s1, s2) {
        flip_spec(s1)
    } else {
        s2
    };
    let hw = half_width(style);
    match style.join {
        LineJoin::Round => {
            let s = pt_add(pt, scale_spec(u1, hw));
            match arc_spec(pt, hw, u1, u2) {
                Result::Err(e) => Result::Err(e),
                Result::Ok(arcops) => Result::Ok(
                    seq![PathOp::MoveTo(s.x, s.y)] + arcops + seq![
                        PathOp::LineTo(pt.x, pt.y),
                        PathOp::Close,
                    ],
                ),
            }
        },
        LineJoin::Mitre => {
            let d2 = -dot_spec(u1, u2);
            if mitre_ok(style.mitre_limit as int, d2) {
                let start = pt_add(pt, scale_spec(u1, hw));
                let end = pt_add(pt, scale_spec(u2, hw));
                match line_intersection_spec(start, u1, end, u2) {
                    Result::Err(e) => Result::Err(e),
                    Result::Ok(ix) => Result::Ok(
                        seq![
                            PathOp::MoveTo(start.x, start.y),
                            PathOp::LineTo(ix.x, ix.y),
                            PathOp::LineTo(end.x, end.y),
                            PathOp::LineTo(pt.x, pt.y),
                            PathOp::Close,
                        ],
                    ),
                }
            } else {
                Result::Ok(bevel_spec(pt, u1, u2, hw))
            }
        },
        LineJoin::Bevel => Result::Ok(bevel_spec(pt, u1, u2, hw)),
    }
}

/// Appends the bevel join triangle.
pub fn bevel(dest: &mut PathBuilder, style: &StrokeStyle, pt: Point, s1_normal: Vector, s2_normal: Vector)
    requires
        style_wf(*style),
        pt_bounded(pt, MAX_COORD as int),
        vec_bounded(s1_normal, ONE as int),
        vec_bounded(s2_normal, ONE as int),
    ensures
        final(dest)@ == old(dest)@ + bevel_spec(pt, s1_normal, s2_normal, half_width(*style)),
{
    let hw = half_width_of(style);
    let o1 = scale_vec(s1_normal, hw);
    let o2 = scale_vec(s2_normal, hw);
    dest.move_to(pt.x + o1.x, pt.y + o1.y);
    dest.line_to(pt.x + o2.x, pt.y + o2.y);
    dest.line_to(pt.x, pt.y);
    dest.close();
    proof {
        assert(dest@ =~= old(dest)@ + bevel_spec(pt, s1_normal, s2_normal, half_width(*style)));
    }
}

/// Appends the cap contour for one open subpath end.
pub fn cap_line(dest: &mut PathBuilder, style: &StrokeStyle, pt: Point, normal: Vector) -> (r:
    Result<(), StrokeError>)
    requires
        style_wf(*style),
        pt_bounded(pt, MAX_COORD as int),
        vec_bounded(normal, ONE as int),
    ensures
        match cap_spec(*style, pt, normal) {
            Ok(s) => r is Ok && final(dest)@ == old(dest)@ + s,
            Err(e) => r == Result::<(), StrokeError>::Err(e) && final(dest)@ == old(dest)@,
        },
{
    let hw = half_width_of(style);
    match style.cap {
        LineCap::Butt => {
            proof {
                assert(old(dest)@ + Seq::<PathOp>::empty() =~= old(dest)@);
            }
            Ok(())
        },
        LineCap::Round => {
            let fnormal = flip(normal);
            let t = match arc_calc(pt, hw, normal, fnormal) {
                Err(e) => {
                    return Err(e);
                },
                Ok(t) => t,
            };
            let o = scale_vec(normal, hw);
            let mx = pt.x + o.x;
            let my = pt.y + o.y;
            dest.move_to(mx, my);
            dest.append_op(t.0);
            dest.append_op(t.1);
            dest.close();
            proof {
                assert(dest@ =~= old(dest)@ + (seq![PathOp::MoveTo(mx, my)] + seq![t.0, t.1]
                    + seq![PathOp::Close]));
            }
            Ok(())
        },
        LineCap::Square => {
            let o = scale_vec(normal, hw);
            let v = swap(normal);
            let sv = scale_vec(v, hw);
            let end = Point { x: pt.x + sv.x, y: pt.y + sv.y };
            dest.move_to(pt.x + o.x, pt.y + o.y);
            dest.line_to(end.x + o.x, end.y + o.y);
            dest.line_to(end.x - o.x, end.y - o.y);
            dest.line_to(pt.x - o.x, pt.y - o.y);
            dest.close();
            proof {
                let s = cap_spec(*style, pt, normal)->Ok_0;
                assert(dest@ =~= old(dest)@ + s);
            }
            Ok(())
        },
    }
}

/// Appends the join contour at one interior vertex.
#[verifier::rlimit(100)]
pub fn join_line(dest: &mut PathBuilder, style: &StrokeStyle, pt: Point, s1_normal: Vector, s2_normal: Vector) -> (r: Result<(), StrokeError>)
    requires
        style_wf(*style),
        pt_bounded(pt, MAX_COORD as int),
        vec_bounded(s1_normal, ONE as int),
        vec_bounded(s2_normal, ONE as int),
    ensures
        match join_spec(*style, pt, s1_normal, s2_normal) {
            Ok(s) => r is Ok && final(dest)@ == old(dest)@ + s,
            Err(e) => r == Result::<(), StrokeError>::Err(e) && final(dest)@ == old(dest)@,
        },
{
    let interior = is_interior_angle(s1_normal, s2_normal);
    let u1 = if interior {
        flip(s2_normal)
    } else {
        s1_normal
    };
    let u2 = if interior {
        flip(s1_normal)
    } else {
        s2_normal
    };
    let hw = half_width_of(style);
    match style.join {
        LineJoin::Round => {
            let t = match arc_calc(pt, hw, u1, u2) {
                Err(e) => {
                    return Err(e);
                },
                Ok(t) => t,
            };
            let o = scale_vec(u1, hw);
            let mx = pt.x + o.x;
            let my = pt.y + o.y;
            dest.move_to(mx, my);
            dest.append_op(t.0);
            dest.append_op(t.1);
            dest.line_to(pt.x, pt.y);
            dest.close();
            proof {
                assert(dest@ =~= old(dest)@ + (seq![PathOp::MoveTo(mx, my)] + seq![t.0, t.1]
                    + seq![PathOp::LineTo(pt.x, pt.y), PathOp::Close]));
            }
            Ok(())
        },
        LineJoin::Mitre => {
            let din = dot(u1, u2);
            let o128: i128 = ONE as i128;
            let lhs: i128 = 2 * o128 * o128 * o128 * o128;
            let mlw: i128 = style.mitre_limit as i128;
            let term: i128 = o128 * o128 + (din as i128);
            proof {
                lemma_abs_mul_le(u1.x as int, u2.x as int, ONE as int, ONE as int);
                lemma_abs_mul_le(u1.y as int, u2.y as int, ONE as int, ONE as int);
                lemma_abs_mul_le(mlw as int, mlw as int, MAX_COORD as int, MAX_COORD as int);
                lemma_abs_mul_le(
                    mlw as int * mlw as int,
                    term as int,
                    18014398509481984,
                    12884901888,
                );
            }
            let rhs: i128 = mlw * mlw * term;
            if lhs <= rhs {
                let o = scale_vec(u1, hw);
                let o2v = scale_vec(u2, hw);
                let start = Point { x: pt.x + o.x, y: pt.y + o.y };
                let end = Point { x: pt.x + o2v.x, y: pt.y + o2v.y };
                let ix = match line_intersection(start, u1, end, u2) {
                    Err(e) => {
                        return Err(e);
                    },
                    Ok(p) => p,
                };
                dest.move_to(start.x, start.y);
                dest.line_to(ix.x, ix.y);
                dest.line_to(end.x, end.y);
                dest.line_to(pt.x, pt.y);
                dest.close();
                proof {
                    let s = join_spec(*style, pt, s1_normal, s2_normal)->Ok_0;
                    assert(dest@ =~= old(dest)@ + s);
                }
                Ok(())
            } else {
                bevel(dest, style, pt, u1, u2);
                Ok(())
            }
        },
        LineJoin::Bevel => {
            bevel(dest, style, pt, u1, u2);
            Ok(())
        },
    }
}

/// The two caps closing an open subpath: one at the dangling end `cur`
/// (normal `last_n`), one at the subpath start (first-segment normal
/// flipped, so it points off the open end).
pub open spec fn caps_spec(
    style: StrokeStyle,
    cur: Point,
    last_n: Vector,
    start_pt: Point,
    start_n: Vector,
) -> Result<Seq<PathOp>, StrokeError> {
    rjoin(cap_spec(style, cur, last_n), cap_spec(style, start_pt, flip_spec(start_n)))
}

/// The walker, from operation `i` on, in state (`cur`, `last_n`, `start`):
/// `start` carries the first point and first-segment normal of the open
/// subpath, or `None` when no segment is open.  Yields all operations the
/// stroker emits from here on, or the first error.
pub open spec fn stroke_from(
    ops: Seq<PathOp>,
    i: int,
    cur: Point,
    last_n: Vector,
    start: Option<(Point, Vector)>,
    style: StrokeStyle,
) -> Result<Seq<PathOp>, StrokeError>
    decreases ops.len() - i,
{
    if i < 0 || i >= ops.len() {
        match start {
            Option::Some(sp) => caps_spec(style, cur, last_n, sp.0, sp.1),
            Option::None => Result::Ok(Seq::<PathOp>::empty()),
        }
    } else {
        match ops[i] {
            PathOp::MoveTo(x, y) => {
                let pre = match start {
                    Option::Some(sp) => caps_spec(style, cur, last_n, sp.0, sp.1),
                    Option::None => Result::Ok(Seq::<PathOp>::empty()),
                };
                rjoin(
                    pre,
                    stroke_from(ops, i + 1, Point { x: x, y: y }, last_n, Option::None, style),
                )
            },
            PathOp::LineTo(x, y) => {
                let p1 = Point { x: x, y: y };
                match compute_normal_spec(cur, p1) {
                    Result::Err(e) => Result::Err(e),
                    Result::Ok(n) => {
                        let jr = match start {
                            Option::Some(_) => join_spec(style, cur, last_n, n),
                            Option::None => Result::Ok(Seq::<PathOp>::empty()),
                        };
                        let ns = match start {
                            Option::Some(sp) => Option::Some(sp),
                            Option::None => Option::Some((cur, n)),
                        };
                        rjoin(
                            jr,
                            rjoin(
                                Result::Ok(quad_spec(cur, p1, n, half_width(style))),
                                stroke_from(ops, i + 1, p1, n, ns, style),
                            ),
                        )
                    },
                }
            },
            PathOp::Close => {
                match start {
                    Option::Some(sp) => {
                        if cur == sp.0 {
                            // The subpath already ends at its start: there
                            // is no closing segment, only the join between
                            // the last and the first segment.
                            rjoin(
                                join_spec(style, sp.0, last_n, sp.1),
                                stroke_from(ops, i + 1, cur, last_n, Option::None, style),
                            )
                        } else {
                            match compute_normal_spec(cur, sp.0) {
                                Result::Err(e) => Result::Err(e),
                                Result::Ok(cn) => rjoin(
                                    Result::Ok(quad_spec(cur, sp.0, cn, half_width(style))),
                                    rjoin(
                                        join_spec(style, sp.0, cn, sp.1),
                                        stroke_from(ops, i + 1, cur, last_n, Option::None, style),
                                    ),
                                ),
                            }
                        }
                    },
                    Option::None => stroke_from(ops, i + 1, cur, last_n, start, style),
                }
            },
            PathOp::QuadTo(..) => Result::Err(StrokeError::UnsupportedOperation),
            PathOp::CubicTo(..) => Result::Err(StrokeError::UnsupportedOperation),
        }
    }
}

/// Everything the stroker emits for `ops`: the walker run from the first
/// operation in its initial state.
pub open spec fn stroke_spec(ops: Seq<PathOp>, style: StrokeStyle) -> Result<
    Seq<PathOp>,
    StrokeError,
> {
    stroke_from(ops, 0, Point { x: 0, y: 0 }, Vector { x: 0, y: 0 }, Option::None, style)
}

/// Converts a flattened path into the filled outline of its stroke: an
/// offset quad per segment, a join per interior vertex (and at closure),
/// and caps at open subpath ends.  The result is exactly the operation
/// sequence [`stroke_spec`] describes, or its first error.
#[verifier::rlimit(100)]
pub fn stroke_to_path(path: &Path, style: &StrokeStyle) -> (r: Result<Path, StrokeError>)
    requires
        path_bounded(path@),
        style_wf(*style),
    ensures
        match r {
            Ok(p) => stroke_spec(path@, *style) == Result::<Seq<PathOp>, StrokeError>::Ok(p@),
            Err(e) => stroke_spec(path@, *style) == Result::<Seq<PathOp>, StrokeError>::Err(e),
        },
{
    let mut cur = Point { x: 0, y: 0 };
    let mut stroked_path = PathBuilder::new();
    let mut last_normal = Vector { x: 0, y: 0 };
    let mut start_point: Option<(Point, Vector)> = None;
    let hw = half_width_of(style);
    let mut i: usize = 0;
    proof {
        lemma_rcons_nil(stroke_from(path@, 0, cur, last_normal, start_point, *style));
    }
    while i < path.ops.len()
        invariant
            path_bounded(path@),
            style_wf(*style),
            hw == half_width(*style),
            0 <= hw <= MAX_COORD,
            i <= path.ops@.len(),
            path@ == path.ops@,
            pt_bounded(cur, MAX_COORD as int),
            vec_bounded(last_normal, ONE as int),
            match start_point {
                Option::Some(sp) => pt_bounded(sp.0, MAX_COORD as int) && vec_bounded(
                    sp.1,
                    ONE as int,
                ),
                Option::None => true,
            },
            stroke_spec(path@, *style) == rcons(
                stroked_path@,
                stroke_from(path@, i as int, cur, last_normal, start_point, *style),
            ),
        decreases path.ops@.len() - i,
    {
        let ghost b0 = stroked_path@;
        let ghost s_i = stroke_from(path@, i as int, cur, last_normal, start_point, *style);
        let op = path.ops[i];
        proof {
            assert(path@[i as int] == op);
            assert(op_bounded(path@[i as int]));
        }
        match op {
            PathOp::MoveTo(x, y) => {
                let ghost s_next = stroke_from(
                    path@,
                    i as int + 1,
                    Point { x: x, y: y },
                    last_normal,
                    Option::<(Point, Vector)>::None,
                    *style,
                );
                if let Some(sp) = start_point {
                    let (point, normal) = sp;
                    let ghost cap1 = cap_spec(*style, cur, last_normal);
                    if let Err(e) = cap_line(&mut stroked_path, style, cur, last_normal) {
                        return Err(e);
                    }
                    let fnorm = flip(normal);
                    let ghost cap2 = cap_spec(*style, point, flip_spec(normal));
                    if let Err(e) = cap_line(&mut stroked_path, style, point, fnorm) {
                        proof {
                            assert(s_i == Result::<Seq<PathOp>, StrokeError>::Err(e));
                        }
                        return Err(e);
                    }
                    proof {
                        let s1 = cap1->Ok_0;
                        let s2 = cap2->Ok_0;
                        assert(s_i == rjoin(Result::Ok(s1 + s2), s_next));
                        lemma_rcons_shift(b0, s1 + s2, s_next);
                        assert(stroked_path@ =~= b0 + (s1 + s2));
                    }
                } else {
                    proof {
                        assert(s_i == rjoin(Result::Ok(Seq::<PathOp>::empty()), s_next));
                        lemma_rcons_shift(b0, Seq::<PathOp>::empty(), s_next);
                        assert(b0 + Seq::<PathOp>::empty() =~= b0);
                    }
                }
                start_point = None;
                cur = Point { x: x, y: y };
            },
            PathOp::LineTo(x, y) => {
                let p1 = Point { x: x, y: y };
                let normal = match compute_normal(cur, p1) {
                    Err(e) => {
                        return Err(e);
                    },
                    Ok(n) => n,
                };
                let ghost ns = match start_point {
                    Option::Some(sp) => Option::Some(sp),
                    Option::None => Option::Some((cur, normal)),
                };
                let ghost s_next = stroke_from(path@, i as int + 1, p1, normal, ns, *style);
                let ghost q = quad_spec(cur, p1, normal, half_width(*style));
                if start_point.is_none() {
                    start_point = Some((cur, normal));
                    proof {
                        assert(s_i == rjoin(
                            Result::Ok(Seq::<PathOp>::empty()),
                            rjoin(Result::Ok(q), s_next),
                        ));
                        lemma_rcons_shift(b0, Seq::<PathOp>::empty(), rjoin(Result::Ok(q), s_next));
                        assert(b0 + Seq::<PathOp>::empty() =~= b0);
                    }
                } else {
                    let ghost sj = join_spec(*style, cur, last_normal, normal);
                    if let Err(e) = join_line(&mut stroked_path, style, cur, last_normal, normal) {
                        proof {
                            assert(s_i == Result::<Seq<PathOp>, StrokeError>::Err(e));
                        }
                        return Err(e);
                    }
                    proof {
                        assert(s_i == rjoin(
                            Result::Ok(sj->Ok_0),
                            rjoin(Result::Ok(q), s_next),
                        ));
                        lemma_rcons_shift(b0, sj->Ok_0, rjoin(Result::Ok(q), s_next));
                    }
                }
                let ghost b1 = stroked_path@;
                emit_quad(&mut stroked_path, cur, p1, normal, hw);
                proof {
                    lemma_rcons_shift(b1, q, s_next);
                }
                last_normal = normal;
                cur = p1;
            },
            PathOp::Close => {
                if let Some(sp) = start_point {
                    let (point, normal) = sp;
                    let ghost s_next = stroke_from(
                        path@,
                        i as int + 1,
                        cur,
                        last_normal,
                        Option::<(Point, Vector)>::None,
                        *style,
                    );
                    if cur.x == point.x && cur.y == point.y {
                        let ghost sj = join_spec(*style, point, last_normal, normal);
                        if let Err(e) = join_line(&mut stroked_path, style, point, last_normal, normal) {
                            proof {
                                assert(s_i == Result::<Seq<PathOp>, StrokeError>::Err(e));
                            }
                            return Err(e);
                        }
                        proof {
                            assert(s_i == rjoin(sj, s_next));
                            lemma_rcons_shift(b0, sj->Ok_0, s_next);
                        }
                        start_point = None;
                        i = i + 1;
                        continue;
                    }
                    let close_normal = match compute_normal(cur, point) {
                        Err(e) => {
                            return Err(e);
                        },
                        Ok(n) => n,
                    };
                    let ghost q = quad_spec(cur, point, close_normal, half_width(*style));
                    emit_quad(&mut stroked_path, cur, point, close_normal, hw);
                    proof {
                        lemma_rcons_shift(b0, q, rjoin(
                            join_spec(*style, point, close_normal, normal),
                            s_next,
                        ));
                    }
                    let ghost b1 = stroked_path@;
                    let ghost sj = join_spec(*style, point, close_normal, normal);
                    if let Err(e) = join_line(&mut stroked_path, style, point, close_normal, normal)
                        {
                        proof {
                            assert(s_i == Result::<Seq<PathOp>, StrokeError>::Err(e));
                        }
                        return Err(e);
                    }
                    proof {
                        lemma_rcons_shift(b1, sj->Ok_0, s_next);
                    }
                    start_point = None;
                }
            },
            PathOp::QuadTo(..) => {
                return Err(StrokeError::UnsupportedOperation);
            },
            PathOp::CubicTo(..) => {
                return Err(StrokeError::UnsupportedOperation);
            },
        }
        i = i + 1;
    }
    let ghost b0 = stroked_path@;
    let ghost s_end = stroke_from(path@, i as int, cur, last_normal, start_point, *style);
    if let Some(sp) = start_point {
        let (point, normal) = sp;
        let ghost cap1 = cap_spec(*style, cur, last_normal);
        if let Err(e) = cap_line(&mut stroked_path, style, cur, last_normal) {
            return Err(e);
        }
        let fnorm = flip(normal);
        let ghost cap2 = cap_spec(*style, point, flip_spec(normal));
        if let Err(e) = cap_line(&mut stroked_path, style, point, fnorm) {
            proof {
                assert(s_end == Result::<Seq<PathOp>, StrokeError>::Err(e));
            }
            return Err(e);
        }
        proof {
            let s1 = cap1->Ok_0;
            let s2 = cap2->Ok_0;
            assert(s_end == Result::<Seq<PathOp>, StrokeError>::Ok(s1 + s2));
            assert(stroked_path@ =~= b0 + (s1 + s2));
        }
    } else {
        proof {
            lemma_rcons_end(b0);
        }
    }
    let out = stroked_path.finish();
    Ok(out)
}

/// A segment's quad has exactly four corners, each the corresponding
/// endpoint displaced by the same offset vector `o` (positively on the
/// normal's side, negatively opposite), and `o` is the half-width times the
/// unit normal, exact up to one fixed-point unit per component.
pub proof fn lemma_quad_corner_offsets(p0: Point, p1: Point, n: Vector, hw: int)
    requires
        pt_bounded(p0, MAX_COORD as int),
        pt_bounded(p1, MAX_COORD as int),
        vec_bounded(n, ONE as int),
        0 <= hw <= MAX_COORD,
    ensures
        ({
            let ops = quad_spec(p0, p1, n, hw);
            let o = scale_spec(n, hw);
            &&& ops.len() == 5
            &&& ops[0] == PathOp::MoveTo(pt_add(p0, o).x, pt_add(p0, o).y)
            &&& ops[1] == PathOp::LineTo(pt_add(p1, o).x, pt_add(p1, o).y)
            &&& ops[2] == PathOp::LineTo(pt_sub(p1, o).x, pt_sub(p1, o).y)
            &&& ops[3] == PathOp::LineTo(pt_sub(p0, o).x, pt_sub(p0, o).y)
            &&& ops[4] == PathOp::Close
            &&& pt_add(p0, o).x - p0.x == o.x && pt_add(p0, o).y - p0.y == o.y
            &&& pt_add(p1, o).x - p1.x == o.x && pt_add(p1, o).y - p1.y == o.y
            &&& pt_sub(p0, o).x - p0.x == -(o.x as int) && pt_sub(p0, o).y - p0.y == -(o.y as int)
            &&& pt_sub(p1, o).x - p1.x == -(o.x as int) && pt_sub(p1, o).y - p1.y == -(o.y as int)
            &&& crate::fixed::iabs((ONE as int) * o.x - n.x * hw) < ONE
            &&& crate::fixed::iabs((ONE as int) * o.y - n.y * hw) < ONE
        }),
{
    let o = scale_spec(n, hw);
    lemma_abs_mul_le(n.x as int, hw, ONE as int, hw);
    lemma_abs_mul_le(n.y as int, hw, ONE as int, hw);
    lemma_div0_le(n.x * hw, ONE as int, hw);
    lemma_div0_le(n.y * hw, ONE as int, hw);
    crate::fixed::lemma_div0_char(n.x * hw, ONE as int);
    crate::fixed::lemma_div0_char(n.y * hw, ONE as int);
}

/// The mitre join falls back to the bevel exactly when the mitre-limit
/// test fails; when it holds, the join is the four-corner fan through the
/// offset-line intersection (or the intersection's own failure).  The
/// boundary case of the test (`==`) takes the mitre branch.
pub proof fn lemma_mitre_fallback(style: StrokeStyle, pt: Point, s1: Vector, s2: Vector)
    requires
        style.join == LineJoin::Mitre,
    ensures
        ({
            let u1 = if is_interior_spec(s1, s2) {
                flip_spec(s2)
            } else {
                s1
            };
            let u2 = if is_interior_spec(s1, s2) {
                flip_spec(s1)
            } else {
                s2
            };
            let d2 = -dot_spec(u1, u2);
            let hw = half_width(style);
            let start = pt_add(pt, scale_spec(u1, hw));
            let end = pt_add(pt, scale_spec(u2, hw));
            &&& (!mitre_ok(style.mitre_limit as int, d2) ==> join_spec(style, pt, s1, s2)
                == Result::<Seq<PathOp>, StrokeError>::Ok(bevel_spec(pt, u1, u2, hw)))
            &&& (mitre_ok(style.mitre_limit as int, d2) ==> join_spec(style, pt, s1, s2) == (
            match line_intersection_spec(start, u1, end, u2) {
                Result::Ok(ix) => Result::<Seq<PathOp>, StrokeError>::Ok(
                    seq![
                        PathOp::MoveTo(start.x, start.y),
                        PathOp::LineTo(ix.x, ix.y),
                        PathOp::LineTo(end.x, end.y),
                        PathOp::LineTo(pt.x, pt.y),
                        PathOp::Close,
                    ],
                ),
                Result::Err(e) => Result::<Seq<PathOp>, StrokeError>::Err(e),
            }))
        }),
{
}

/// Two collinear segments give equal normals; with a bevel join the
/// emitted contour degenerates to a zero-area sliver: its two offset
/// corners coincide, so the stroke passes straight through with no bump.
pub proof fn lemma_collinear_bevel_degenerate(style: StrokeStyle, pt: Point, n: Vector)
    requires
        style.join == LineJoin::Bevel,
        vec_bounded(n, ONE as int),
    ensures
        ({
            let c = pt_add(pt, scale_spec(flip_spec(n), half_width(style)));
            join_spec(style, pt, n, n) == Result::<Seq<PathOp>, StrokeError>::Ok(
                seq![
                    PathOp::MoveTo(c.x, c.y),
                    PathOp::LineTo(c.x, c.y),
                    PathOp::LineTo(pt.x, pt.y),
                    PathOp::Close,
                ],
            )
        }),
{
    assert(is_interior_spec(n, n));
    let c = pt_add(pt, scale_spec(flip_spec(n), half_width(style)));
    assert(bevel_spec(pt, flip_spec(n), flip_spec(n), half_width(style)) =~= seq![
        PathOp::MoveTo(c.x, c.y),
        PathOp::LineTo(c.x, c.y),
        PathOp::LineTo(pt.x, pt.y),
        PathOp::Close,
    ]);
}

proof fn lemma_stroke_from_curved_fails(
    ops: Seq<PathOp>,
    i: int,
    cur: Point,
    last_n: Vector,
    start: Option<(Point, Vector)>,
    style: StrokeStyle,
    k: int,
)
    requires
        0 <= i <= k < ops.len(),
        ops[k] matches PathOp::QuadTo(..) || ops[k] matches PathOp::CubicTo(..),
    ensures
        stroke_from(ops, i, cur, last_n, start, style) is Err,
    decreases k - i,
{
    if i < k {
        match ops[i] {
            PathOp::MoveTo(x, y) => {
                lemma_stroke_from_curved_fails(
                    ops,
                    i + 1,
                    Point { x: x, y: y },
                    last_n,
                    Option::None,
                    style,
                    k,
                );
            },
            PathOp::LineTo(x, y) => {
                let p1 = Point { x: x, y: y };
                match compute_normal_spec(cur, p1) {
                    Result::Err(_) => {},
                    Result::Ok(n) => {
                        let ns = match start {
                            Option::Some(sp) => Option::Some(sp),
                            Option::None => Option::Some((cur, n)),
                        };
                        lemma_stroke_from_curved_fails(ops, i + 1, p1, n, ns, style, k);
                    },
                }
            },
            PathOp::Close => {
                match start {
                    Option::Some(sp) => {
                        if cur == sp.0 {
                            lemma_stroke_from_curved_fails(
                                ops,
                                i + 1,
                                cur,
                                last_n,
                                Option::None,
                                style,
                                k,
                            );
                        } else {
                            match compute_normal_spec(cur, sp.0) {
                                Result::Err(_) => {},
                                Result::Ok(_) => {
                                    lemma_stroke_from_curved_fails(
                                        ops,
                                        i + 1,
                                        cur,
                                        last_n,
                                        Option::None,
                                        style,
                                        k,
                                    );
                                },
                            }
                        }
                    },
                    Option::None => {
                        lemma_stroke_from_curved_fails(ops, i + 1, cur, last_n, start, style, k);
                    },
                }
            },
            PathOp::QuadTo(..) => {},
            PathOp::CubicTo(..) => {},
        }
    }
}

/// A path holding a curved operation anywhere is refused: the stroker
/// accepts only flattened paths and fails rather than skipping or
/// approximating the curve.
pub proof fn lemma_unflattened_path_fails(ops: Seq<PathOp>, style: StrokeStyle, k: int)
    requires
        0 <= k < ops.len(),
        ops[k] matches PathOp::QuadTo(..) || ops[k] matches PathOp::CubicTo(..),
    ensures
        stroke_spec(ops, style) is Err,
{
    lemma_stroke_from_curved_fails(
        ops,
        0,
        Point { x: 0, y: 0 },
        Vector { x: 0, y: 0 },
        Option::None,
        style,
        k,
    );
}

/// The sequence holds no quadratic operation: stroke output is made of
/// `MoveTo`, `LineTo`, `CubicTo` and `Close` alone.
pub open spec fn no_quads(s: Seq<PathOp>) -> bool {
    forall|j: int| 0 <= j < s.len() ==> !((#[trigger] s[j]) matches PathOp::QuadTo(..))
}

proof fn lemma_no_quads_concat(a: Seq<PathOp>, b: Seq<PathOp>)
    requires
        no_quads(a),
        no_quads(b),
    ensures
        no_quads(a + b),
{
    assert forall|j: int| 0 <= j < (a + b).len() implies !((#[trigger] (a + b)[j]) matches PathOp::QuadTo(
        ..,
    )) by {
        if j < a.len() {
            assert((a + b)[j] == a[j]);
        } else {
            assert((a + b)[j] == b[j - a.len()]);
        }
    }
}

proof fn lemma_rjoin_no_quads(a: Result<Seq<PathOp>, StrokeError>, b: Result<Seq<PathOp>, StrokeError>)
    requires
        a matches Ok(s) ==> no_quads(s),
        b matches Ok(s) ==> no_quads(s),
    ensures
        rjoin(a, b) matches Ok(s) ==> no_quads(s),
{
    if a is Ok && b is Ok {
        lemma_no_quads_concat(a->Ok_0, b->Ok_0);
    }
}

proof fn lemma_arc_no_quads(c: Point, radius: int, a: Vector, b: Vector)
    ensures
        arc_spec(c, radius, a, b) matches Ok(s) ==> no_quads(s),
{
    match bisect_spec(a, b) {
        Result::Err(_) => {},
        Result::Ok(mid) => {
            lemma_rjoin_no_quads(
                arc_segment_spec(c, radius, a, mid),
                arc_segment_spec(c, radius, mid, b),
            );
        },
    }
}

proof fn lemma_cap_no_quads(style: StrokeStyle, pt: Point, normal: Vector)
    ensures
        cap_spec(style, pt, normal) matches Ok(s) ==> no_quads(s),
{
    match style.cap {
        LineCap::Butt => {},
        LineCap::Round => {
            let hw = half_width(style);
            let s = pt_add(pt, scale_spec(normal, hw));
            lemma_arc_no_quads(pt, hw, normal, flip_spec(normal));
            match arc_spec(pt, hw, normal, flip_spec(normal)) {
                Result::Err(_) => {},
                Result::Ok(arcops) => {
                    lemma_no_quads_concat(seq![PathOp::MoveTo(s.x, s.y)], arcops);
                    lemma_no_quads_concat(
                        seq![PathOp::MoveTo(s.x, s.y)] + arcops,
                        seq![PathOp::Close],
                    );
                },
            }
        },
        LineCap::Square => {},
    }
}

proof fn lemma_join_no_quads(style: StrokeStyle, pt: Point, s1: Vector, s2: Vector)
    ensures
        join_spec(style, pt, s1, s2) matches Ok(s) ==> no_quads(s),
{
    let u1 = if is_interior_spec(s1, s2) {
        flip_spec(s2)
    } else {
        s1
    };
    let u2 = if is_interior_spec(s1, s2) {
        flip_spec(s1)
    } else {
        s2
    };
    let hw = half_width(style);
    match style.join {
        LineJoin::Round => {
            let s = pt_add(pt, scale_spec(u1, hw));
            lemma_arc_no_quads(pt, hw, u1, u2);
            match arc_spec(pt, hw, u1, u2) {
                Result::Err(_) => {},
                Result::Ok(arcops) => {
                    lemma_no_quads_concat(seq![PathOp::MoveTo(s.x, s.y)], arcops);
                    lemma_no_quads_concat(
                        seq![PathOp::MoveTo(s.x, s.y)] + arcops,
                        seq![PathOp::LineTo(pt.x, pt.y), PathOp::Close],
                    );
                },
            }
        },
        LineJoin::Mitre => {},
        LineJoin::Bevel => {},
    }
}

proof fn lemma_caps_no_quads(
    style: StrokeStyle,
    cur: Point,
    last_n: Vector,
    start_pt: Point,
    start_n: Vector,
)
    ensures
        caps_spec(style, cur, last_n, start_pt, start_n) matches Ok(s) ==> no_quads(s),
{
    lemma_cap_no_quads(style, cur, last_n);
    lemma_cap_no_quads(style, start_pt, flip_spec(start_n));
    lemma_rjoin_no_quads(
        cap_spec(style, cur, last_n),
        cap_spec(style, start_pt, flip_spec(start_n)),
    );
}

/// A successful emission holds no quadratic operation.
pub open spec fn ok_no_quads(r: Result<Seq<PathOp>, StrokeError>) -> bool {
    r is Ok ==> no_quads(r->Ok_0)
}

/// Induction hypothesis: from operation `i` on, every walker state emits
/// quad-free output.
spec fn walker_no_quads_from(ops: Seq<PathOp>, i: int, style: StrokeStyle) -> bool {
    forall|c2: Point, l2: Vector, st2: Option<(Point, Vector)>| ok_no_quads(
        #[trigger] stroke_from(ops, i, c2, l2, st2, style),
    )
}

proof fn lemma_no_quads_step_move(
    ops: Seq<PathOp>,
    i: int,
    cur: Point,
    last_n: Vector,
    start: Option<(Point, Vector)>,
    style: StrokeStyle,
)
    requires
        0 <= i < ops.len(),
        ops[i] matches PathOp::MoveTo(..),
        walker_no_quads_from(ops, i + 1, style),
    ensures
        ok_no_quads(stroke_from(ops, i, cur, last_n, start, style)),
{
    if let PathOp::MoveTo(x, y) = ops[i] {
        let pre = match start {
            Option::Some(sp) => caps_spec(style, cur, last_n, sp.0, sp.1),
            Option::None => Result::<Seq<PathOp>, StrokeError>::Ok(Seq::<PathOp>::empty()),
        };
        if let Option::Some(sp) = start {
            lemma_caps_no_quads(style, cur, last_n, sp.0, sp.1);
        }
        let rest = stroke_from(ops, i + 1, Point { x: x, y: y }, last_n, Option::None, style);
        lemma_rjoin_no_quads(pre, rest);
    }
}

#[verifier::rlimit(100)]
proof fn lemma_no_quads_step_line(
    ops: Seq<PathOp>,
    i: int,
    cur: Point,
    last_n: Vector,
    start: Option<(Point, Vector)>,
    style: StrokeStyle,
)
    requires
        0 <= i < ops.len(),
        ops[i] matches PathOp::LineTo(..),
        walker_no_quads_from(ops, i + 1, style),
    ensures
        ok_no_quads(stroke_from(ops, i, cur, last_n, start, style)),
{
    if let PathOp::LineTo(x, y) = ops[i] {
        let p1 = Point { x: x, y: y };
        match compute_normal_spec(cur, p1) {
            Result::Err(_) => {},
            Result::Ok(n) => {
                let jr = match start {
                    Option::Some(_) => join_spec(style, cur, last_n, n),
                    Option::None => Result::<Seq<PathOp>, StrokeError>::Ok(
                        Seq::<PathOp>::empty(),
                    ),
                };
                if start is Some {
                    lemma_join_no_quads(style, cur, last_n, n);
                }
                let ns = match start {
                    Option::Some(sp) => Option::Some(sp),
                    Option::None => Option::Some((cur, n)),
                };
                let rest = stroke_from(ops, i + 1, p1, n, ns, style);
                lemma_rjoin_no_quads(
                    Result::Ok(quad_spec(cur, p1, n, half_width(style))),
                    rest,
                );
                lemma_rjoin_no_quads(
                    jr,
                    rjoin(Result::Ok(quad_spec(cur, p1, n, half_width(style))), rest),
                );
            },
        }
    }
}

#[verifier::rlimit(100)]
proof fn lemma_no_quads_step_close(
    ops: Seq<PathOp>,
    i: int,
    cur: Point,
    last_n: Vector,
    start: Option<(Point, Vector)>,
    style: StrokeStyle,
)
    requires
        0 <= i < ops.len(),
        ops[i] matches PathOp::Close,
        walker_no_quads_from(ops, i + 1, style),
    ensures
        ok_no_quads(stroke_from(ops, i, cur, last_n, start, style)),
{
    match start {
        Option::Some(sp) => {
            let rest = stroke_from(ops, i + 1, cur, last_n, Option::<(Point, Vector)>::None, style);
            if cur == sp.0 {
                lemma_join_no_quads(style, sp.0, last_n, sp.1);
                lemma_rjoin_no_quads(join_spec(style, sp.0, last_n, sp.1), rest);
            } else {
                match compute_normal_spec(cur, sp.0) {
                    Result::Err(_) => {},
                    Result::Ok(cn) => {
                        lemma_join_no_quads(style, sp.0, cn, sp.1);
                        lemma_rjoin_no_quads(join_spec(style, sp.0, cn, sp.1), rest);
                        lemma_rjoin_no_quads(
                            Result::Ok(quad_spec(cur, sp.0, cn, half_width(style))),
                            rjoin(join_spec(style, sp.0, cn, sp.1), rest),
                        );
                    },
                }
            }
        },
        Option::None => {},
    }
}

proof fn lemma_stroke_from_no_quads(
    ops: Seq<PathOp>,
    i: int,
    cur: Point,
    last_n: Vector,
    start: Option<(Point, Vector)>,
    style: StrokeStyle,
)
    ensures
        ok_no_quads(stroke_from(ops, i, cur, last_n, start, style)),
    decreases ops.len() - i,
{
    if i < 0 || i >= ops.len() {
        match start {
            Option::Some(sp) => {
                lemma_caps_no_quads(style, cur, last_n, sp.0, sp.1);
            },
            Option::None => {},
        }
    } else {
        assert(walker_no_quads_from(ops, i + 1, style)) by {
            assert forall|c2: Point, l2: Vector, st2: Option<(Point, Vector)>| ok_no_quads(
                #[trigger] stroke_from(ops, i + 1, c2, l2, st2, style),
            ) by {
                lemma_stroke_from_no_quads(ops, i + 1, c2, l2, st2, style);
            }
        }
        match ops[i] {
            PathOp::MoveTo(..) => {
                lemma_no_quads_step_move(ops, i, cur, last_n, start, style);
            },
            PathOp::LineTo(..) => {
                lemma_no_quads_step_line(ops, i, cur, last_n, start, style);
            },
            PathOp::Close => {
                lemma_no_quads_step_close(ops, i, cur, last_n, start, style);
            },
            PathOp::QuadTo(..) => {},
            PathOp::CubicTo(..) => {},
        }
    }
}

/// Whatever the input, a successful stroke emits only `MoveTo`, `LineTo`,
/// `CubicTo` and `Close` operations: the outline is ready for a fill that
/// accepts cubic contours.
pub proof fn lemma_output_has_no_quads(ops: Seq<PathOp>, style: StrokeStyle)
    ensures
        stroke_spec(ops, style) matches Ok(s) ==> no_quads(s),
{
    lemma_stroke_from_no_quads(
        ops,
        0,
        Point { x: 0, y: 0 },
        Vector { x: 0, y: 0 },
        Option::None,
        style,
    );
}

} // verus!
