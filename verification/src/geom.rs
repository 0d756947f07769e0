//! Vector algebra over fixed-point coordinates: dot products, perpendicular
//! rotations, segment normals, angle bisection and line intersection.
//!
//! Every executable function mirrors a spec function exactly, so callers can
//! reason about the precise fixed-point value a computation produces.

use crate::fixed::{
    div0, div_any, div_pos, isqrt64, lemma_abs_mul_le, lemma_div0_abs, lemma_div0_le, sqrt_rec,
    MAX_COORD, ONE,
};
use crate::path::StrokeError;
use vstd::prelude::*;

verus! {

/// A position, fixed-point coordinates.
#[derive(Clone, Copy, PartialEq, Eq, Structural, Debug)]
pub struct Point {
    pub x: i64,
    pub y: i64,
}

/// A direction or offset, fixed-point components.  A segment normal is
/// near-unit: its squared length is close to `ONE * ONE`.
#[derive(Clone, Copy, PartialEq, Eq, Structural, Debug)]
pub struct Vector {
    pub x: i64,
    pub y: i64,
}

/// Both components lie within `[-m, m]`.
pub open spec fn vec_bounded(v: Vector, m: int) -> bool {
    -m <= v.x <= m && -m <= v.y <= m
}

/// Both coordinates lie within `[-m, m]`.
pub open spec fn pt_bounded(p: Point, m: int) -> bool {
    -m <= p.x <= m && -m <= p.y <= m
}

/// Raw dot product; for two near-unit vectors the value is scaled by
/// `ONE * ONE`.
pub open spec fn dot_spec(a: Vector, b: Vector) -> int {
    a.x * b.x + a.y * b.y
}

/// Squared length of a vector.
pub open spec fn norm2(v: Vector) -> int {
    v.x * v.x + v.y * v.y
}

/// Rotation by 90 degrees to the left.
pub open spec fn perp_spec(v: Vector) -> Vector {
    Vector { x: (-(v.y as int)) as i64, y: v.x }
}

/// Rotation by 90 degrees to the right (the inverse of [`perp_spec`]).
pub open spec fn swap_spec(v: Vector) -> Vector {
    Vector { x: v.y, y: (-(v.x as int)) as i64 }
}

/// Negation of both components.
pub open spec fn flip_spec(v: Vector) -> Vector {
    Vector { x: (-(v.x as int)) as i64, y: (-(v.y as int)) as i64 }
}

/// Componentwise sum.
pub open spec fn vadd_spec(a: Vector, b: Vector) -> Vector {
    Vector { x: (a.x + b.x) as i64, y: (a.y + b.y) as i64 }
}

/// A vector scaled by the fixed-point factor `s` (truncating).
pub open spec fn scale_spec(v: Vector, s: int) -> Vector {
    Vector { x: div0(v.x * s, ONE as int) as i64, y: div0(v.y * s, ONE as int) as i64 }
}

/// A point offset by a vector.
pub open spec fn pt_add(p: Point, v: Vector) -> Point {
    Point { x: (p.x + v.x) as i64, y: (p.y + v.y) as i64 }
}

/// A point offset by the negation of a vector.
pub open spec fn pt_sub(p: Point, v: Vector) -> Point {
    Point { x: (p.x - v.x) as i64, y: (p.y - v.y) as i64 }
}

/// The vector rescaled to near-unit length (components `v * ONE / |v|`,
/// truncating), or `None` for the zero vector.
pub open spec fn normalize_spec(v: Vector) -> Option<Vector> {
    let n2 = norm2(v);
    if n2 == 0 {
        Option::None
    } else {
        let l = sqrt_rec(n2 as nat) as int;
        Option::Some(
            Vector { x: div0(v.x * ONE, l) as i64, y: div0(v.y * ONE, l) as i64 },
        )
    }
}

/// Direction of the segment from `p0` to `p1`.
pub open spec fn segment_dir(p0: Point, p1: Point) -> Vector {
    Vector { x: (p1.x - p0.x) as i64, y: (p1.y - p0.y) as i64 }
}

/// The left-hand unit normal of the segment from `p0` to `p1`, or
/// `ZeroLengthSegment` if the points coincide.
pub open spec fn compute_normal_spec(p0: Point, p1: Point) -> Result<Vector, StrokeError> {
    match normalize_spec(perp_spec(segment_dir(p0, p1))) {
        Option::None => Result::Err(StrokeError::ZeroLengthSegment),
        Option::Some(n) => Result::Ok(n),
    }
}

/// The unnormalised angle bisector of `a` and `b`: their sum when the angle
/// is at most 90 degrees, otherwise the numerically stable reformulation
/// `perp(flip(a) + b)`.
pub open spec fn bisect_raw(a: Vector, b: Vector) -> Vector {
    if dot_spec(a, b) >= 0 {
        vadd_spec(a, b)
    } else {
        perp_spec(vadd_spec(flip_spec(a), b))
    }
}

/// The near-unit angle bisector of `a` and `b`, or `DegenerateGeometry`
/// when the unnormalised bisector is zero.
pub open spec fn bisect_spec(a: Vector, b: Vector) -> Result<Vector, StrokeError> {
    match normalize_spec(bisect_raw(a, b)) {
        Option::None => Result::Err(StrokeError::DegenerateGeometry),
        Option::Some(m) => Result::Ok(m),
    }
}

/// The turn from the segment with normal `a` into the segment with normal
/// `b` is an interior angle.  Zero degrees counts as interior, 180 degrees
/// as exterior.
pub open spec fn is_interior_spec(a: Vector, b: Vector) -> bool {
    dot_spec(perp_spec(a), b) > 0 || a == b
}

/// Intersection of two lines, each given as a point plus the normal
/// perpendicular to its direction, by the perp-dot-product identity; fails
/// when the lines are parallel.
pub open spec fn line_intersection_spec(
    a_pt: Point,
    a_perp: Vector,
    b_pt: Point,
    b_perp: Vector,
) -> Result<Point, StrokeError> {
    let adir = swap_spec(a_perp);
    let c = Vector { x: (b_pt.x - a_pt.x) as i64, y: (b_pt.y - a_pt.y) as i64 };
    let denom = dot_spec(b_perp, adir);
    if denom == 0 {
        Result::Err(StrokeError::DegenerateGeometry)
    } else {
        let t = div0(dot_spec(b_perp, c) * ONE, denom);
        Result::Ok(
            Point {
                x: (a_pt.x + div0(t * adir.x, ONE as int)) as i64,
                y: (a_pt.y + div0(t * adir.y, ONE as int)) as i64,
            },
        )
    }
}

/// A computed segment normal is the left-hand perpendicular of the segment
/// direction, rescaled to unit length: each component, multiplied by the
/// direction's length `l`, lands within one `l` of the exact value, and `l`
/// is the rounded-down square root of the squared segment length.
pub proof fn lemma_normal_near_unit(p0: Point, p1: Point, n: Vector)
    requires
        pt_bounded(p0, MAX_COORD as int),
        pt_bounded(p1, MAX_COORD as int),
        compute_normal_spec(p0, p1) == Result::<Vector, StrokeError>::Ok(n),
    ensures
        ({
            let d = segment_dir(p0, p1);
            let l = sqrt_rec(norm2(d) as nat) as int;
            &&& 1 <= l
            &&& l * l <= norm2(d) < (l + 1) * (l + 1)
            &&& crate::fixed::iabs(l * n.x + d.y * ONE) < l
            &&& crate::fixed::iabs(l * n.y - d.x * ONE) < l
            &&& vec_bounded(n, ONE as int)
        }),
{
    let d = segment_dir(p0, p1);
    let pd = perp_spec(d);
    let m = norm2(pd);
    assert(m == norm2(d)) by (nonlinear_arith)
        requires
            pd.x == -(d.y as int),
            pd.y == d.x,
            m == pd.x * pd.x + pd.y * pd.y,
    ;
    assert(m != 0);
    let l = sqrt_rec(m as nat) as int;
    crate::fixed::lemma_sqrt_rec_bounds(m as nat);
    assert(pd.x * pd.x >= 0) by (nonlinear_arith);
    assert(pd.y * pd.y >= 0) by (nonlinear_arith);
    if l == 0 {
        assert(m < (0 + 1) * (0 + 1));
    }
    assert((-(pd.x as int)) * (-(pd.x as int)) == pd.x * pd.x) by (nonlinear_arith);
    assert((-(pd.y as int)) * (-(pd.y as int)) == pd.y * pd.y) by (nonlinear_arith);
    if pd.x >= 0 {
        crate::fixed::lemma_le_sqrt(pd.x as int, m as nat);
    } else {
        crate::fixed::lemma_le_sqrt(-(pd.x as int), m as nat);
    }
    if pd.y >= 0 {
        crate::fixed::lemma_le_sqrt(pd.y as int, m as nat);
    } else {
        crate::fixed::lemma_le_sqrt(-(pd.y as int), m as nat);
    }
    crate::fixed::lemma_abs_mul_le(pd.x as int, ONE as int, l, ONE as int);
    crate::fixed::lemma_abs_mul_le(pd.y as int, ONE as int, l, ONE as int);
    crate::fixed::lemma_div0_le(pd.x * ONE, l, ONE as int);
    crate::fixed::lemma_div0_le(pd.y * ONE, l, ONE as int);
    crate::fixed::lemma_div0_char(pd.x * ONE, l);
    crate::fixed::lemma_div0_char(pd.y * ONE, l);
    assert(n.x == div0(pd.x * ONE, l));
    assert(n.y == div0(pd.y * ONE, l));
    assert(l * n.x - l < pd.x * ONE) by (nonlinear_arith)
        requires
            l >= 1,
            (pd.x * ONE >= 0 ==> l * div0(pd.x * ONE, l) <= pd.x * ONE < l * div0(pd.x * ONE, l)
                + l),
            (pd.x * ONE < 0 ==> l * div0(pd.x * ONE, l) - l < pd.x * ONE <= l * div0(
                pd.x * ONE,
                l,
            )),
            n.x == div0(pd.x * ONE, l),
    ;
    assert(pd.x * ONE < l * n.x + l) by (nonlinear_arith)
        requires
            l >= 1,
            (pd.x * ONE >= 0 ==> l * div0(pd.x * ONE, l) <= pd.x * ONE < l * div0(pd.x * ONE, l)
                + l),
            (pd.x * ONE < 0 ==> l * div0(pd.x * ONE, l) - l < pd.x * ONE <= l * div0(
                pd.x * ONE,
                l,
            )),
            n.x == div0(pd.x * ONE, l),
    ;
    assert(l * n.y - l < pd.y * ONE < l * n.y + l) by (nonlinear_arith)
        requires
            l >= 1,
            (pd.y * ONE >= 0 ==> l * div0(pd.y * ONE, l) <= pd.y * ONE < l * div0(pd.y * ONE, l)
                + l),
            (pd.y * ONE < 0 ==> l * div0(pd.y * ONE, l) - l < pd.y * ONE <= l * div0(
                pd.y * ONE,
                l,
            )),
            n.y == div0(pd.y * ONE, l),
    ;
}

/// A computed segment normal is perpendicular to the segment up to
/// fixed-point truncation: its dot product with the direction is below the
/// sum of the direction's component magnitudes (while the products
/// themselves are on the order of `ONE` times the segment length).
pub proof fn lemma_normal_perpendicular(p0: Point, p1: Point, n: Vector)
    requires
        pt_bounded(p0, MAX_COORD as int),
        pt_bounded(p1, MAX_COORD as int),
        compute_normal_spec(p0, p1) == Result::<Vector, StrokeError>::Ok(n),
    ensures
        ({
            let d = segment_dir(p0, p1);
            crate::fixed::iabs(dot_spec(n, d)) < crate::fixed::iabs(d.x as int)
                + crate::fixed::iabs(d.y as int)
        }),
{
    let d = segment_dir(p0, p1);
    let l = sqrt_rec(norm2(d) as nat) as int;
    lemma_normal_near_unit(p0, p1, n);
    let e1 = l * n.x + d.y * ONE;
    let e2 = l * n.y - d.x * ONE;
    assert(l * dot_spec(n, d) == e1 * d.x + e2 * d.y) by (nonlinear_arith)
        requires
            e1 == l * n.x + d.y * ONE,
            e2 == l * n.y - d.x * ONE,
            dot_spec(n, d) == n.x * d.x + n.y * d.y,
    ;
    let bx = crate::fixed::iabs(d.x as int);
    let by = crate::fixed::iabs(d.y as int);
    crate::fixed::lemma_abs_mul_le(e1, d.x as int, l - 1, bx);
    crate::fixed::lemma_abs_mul_le(e2, d.y as int, l - 1, by);
    if d.x == 0 && d.y == 0 {
        let pd = perp_spec(d);
        assert(norm2(pd) == 0) by (nonlinear_arith)
            requires
                pd.x == 0,
                pd.y == 0,
                norm2(pd) == pd.x * pd.x + pd.y * pd.y,
        ;
    }
    assert(bx + by >= 1);
    assert(crate::fixed::iabs(dot_spec(n, d)) < bx + by) by (nonlinear_arith)
        requires
            l >= 1,
            bx >= 0,
            by >= 0,
            bx + by >= 1,
            -((l - 1) * bx) <= e1 * d.x <= (l - 1) * bx,
            -((l - 1) * by) <= e2 * d.y <= (l - 1) * by,
            l * dot_spec(n, d) == e1 * d.x + e2 * d.y,
            crate::fixed::iabs(dot_spec(n, d)) == if dot_spec(n, d) >= 0 {
                dot_spec(n, d)
            } else {
                -dot_spec(n, d)
            },
    ;
}

/// The unnormalised bisector makes equal angles with its two inputs: for
/// equal-length inputs the two dot products (the cosines, up to the common
/// scale) coincide exactly, in the acute and the obtuse branch alike.
pub proof fn lemma_bisect_equidistant(a: Vector, b: Vector)
    requires
        vec_bounded(a, ONE as int),
        vec_bounded(b, ONE as int),
        norm2(a) == norm2(b),
    ensures
        dot_spec(a, bisect_raw(a, b)) == dot_spec(bisect_raw(a, b), b),
{
    let m = bisect_raw(a, b);
    if dot_spec(a, b) >= 0 {
        assert(m.x == a.x + b.x && m.y == a.y + b.y);
        assert(dot_spec(a, m) == dot_spec(m, b)) by (nonlinear_arith)
            requires
                m.x == a.x + b.x,
                m.y == a.y + b.y,
                a.x * a.x + a.y * a.y == b.x * b.x + b.y * b.y,
                dot_spec(a, m) == a.x * m.x + a.y * m.y,
                dot_spec(m, b) == m.x * b.x + m.y * b.y,
        ;
    } else {
        assert(m.x == a.y - b.y && m.y == b.x - a.x);
        assert(dot_spec(a, m) == dot_spec(m, b)) by (nonlinear_arith)
            requires
                m.x == a.y - b.y,
                m.y == b.x - a.x,
                dot_spec(a, m) == a.x * m.x + a.y * m.y,
                dot_spec(m, b) == m.x * b.x + m.y * b.y,
        ;
    }
}

/// Dot product of two bounded vectors.
pub fn dot(a: Vector, b: Vector) -> (r: i64)
    requires
        vec_bounded(a, 1073741824),
        vec_bounded(b, 1073741824),
    ensures
        r == dot_spec(a, b),
{
    proof {
        lemma_abs_mul_le(a.x as int, b.x as int, 1073741824, 1073741824);
        lemma_abs_mul_le(a.y as int, b.y as int, 1073741824, 1073741824);
    }
    a.x * b.x + a.y * b.y
}

/// Rotation by 90 degrees to the left.
pub fn perp(v: Vector) -> (r: Vector)
    requires
        i64::MIN < v.y,
    ensures
        r == perp_spec(v),
        r.x == -(v.y as int) && r.y == v.x,
{
    Vector { x: -v.y, y: v.x }
}

/// Rotation by 90 degrees to the right; `swap` has period four.
pub fn swap(v: Vector) -> (r: Vector)
    requires
        i64::MIN < v.x,
    ensures
        r == swap_spec(v),
        r.x == v.y && r.y == -(v.x as int),
{
    Vector { x: v.y, y: -v.x }
}

/// Alias of [`swap`]: undoes one [`perp`] rotation.
pub fn unperp(v: Vector) -> (r: Vector)
    requires
        i64::MIN < v.x,
    ensures
        r == swap_spec(v),
        r.x == v.y && r.y == -(v.x as int),
{
    swap(v)
}

/// Negation of both components.
pub fn flip(v: Vector) -> (r: Vector)
    requires
        i64::MIN < v.x,
        i64::MIN < v.y,
    ensures
        r == flip_spec(v),
        r.x == -(v.x as int) && r.y == -(v.y as int),
{
    Vector { x: -v.x, y: -v.y }
}

/// A vector scaled by the fixed-point factor `s`.
pub fn scale_vec(v: Vector, s: i64) -> (r: Vector)
    requires
        vec_bounded(v, ONE as int),
        0 <= s <= MAX_COORD,
    ensures
        r == scale_spec(v, s as int),
        vec_bounded(r, s as int),
{
    proof {
        lemma_abs_mul_le(v.x as int, s as int, ONE as int, s as int);
        lemma_abs_mul_le(v.y as int, s as int, ONE as int, s as int);
        lemma_div0_le(v.x * s, ONE as int, s as int);
        lemma_div0_le(v.y * s, ONE as int, s as int);
    }
    let rx: i128 = div_pos((v.x as i128) * (s as i128), ONE as i128);
    let ry: i128 = div_pos((v.y as i128) * (s as i128), ONE as i128);
    Vector { x: rx as i64, y: ry as i64 }
}

/// Rescales `v` to near-unit length; `None` for the zero vector.  The
/// result's components never exceed `ONE` in magnitude.
pub fn normalize(v: Vector) -> (r: Option<Vector>)
    requires
        vec_bounded(v, 268435456),
    ensures
        r == normalize_spec(v),
        r matches Some(u) ==> vec_bounded(u, ONE as int),
{
    proof {
        lemma_abs_mul_le(v.x as int, v.x as int, 268435456, 268435456);
        lemma_abs_mul_le(v.y as int, v.y as int, 268435456, 268435456);
        assert(v.x * v.x >= 0) by (nonlinear_arith);
        assert(v.y * v.y >= 0) by (nonlinear_arith);
    }
    let xi: i128 = v.x as i128;
    let yi: i128 = v.y as i128;
    let n2: i128 = xi * xi + yi * yi;
    if n2 == 0 {
        None
    } else {
        let n2u: u64 = n2 as u64;
        let len: u64 = isqrt64(n2u);
        proof {
            if len == 0 {
                assert(n2u < (0 + 1) * (0 + 1));
            }
            assert(v.x * v.x <= n2u && v.y * v.y <= n2u);
            assert((-(v.x as int)) * (-(v.x as int)) == v.x * v.x) by (nonlinear_arith);
            assert((-(v.y as int)) * (-(v.y as int)) == v.y * v.y) by (nonlinear_arith);
            if v.x >= 0 {
                crate::fixed::lemma_le_sqrt(v.x as int, n2u as nat);
            } else {
                crate::fixed::lemma_le_sqrt(-(v.x as int), n2u as nat);
            }
            if v.y >= 0 {
                crate::fixed::lemma_le_sqrt(v.y as int, n2u as nat);
            } else {
                crate::fixed::lemma_le_sqrt(-(v.y as int), n2u as nat);
            }
            lemma_abs_mul_le(v.x as int, ONE as int, len as int, ONE as int);
            lemma_abs_mul_le(v.y as int, ONE as int, len as int, ONE as int);
            lemma_div0_le(v.x * ONE, len as int, ONE as int);
            lemma_div0_le(v.y * ONE, len as int, ONE as int);
        }
        let rx: i128 = div_pos((v.x as i128) * (ONE as i128), len as i128);
        let ry: i128 = div_pos((v.y as i128) * (ONE as i128), len as i128);
        Some(Vector { x: rx as i64, y: ry as i64 })
    }
}

/// Left-hand unit normal of the segment from `p0` to `p1`; fails on a
/// zero-length segment, which has no defined normal.
pub fn compute_normal(p0: Point, p1: Point) -> (r: Result<Vector, StrokeError>)
    requires
        pt_bounded(p0, MAX_COORD as int),
        pt_bounded(p1, MAX_COORD as int),
    ensures
        r == compute_normal_spec(p0, p1),
        r matches Ok(n) ==> vec_bounded(n, ONE as int),
{
    let d = Vector { x: p1.x - p0.x, y: p1.y - p0.y };
    let pd = perp(d);
    match normalize(pd) {
        None => Err(StrokeError::ZeroLengthSegment),
        Some(n) => Ok(n),
    }
}

/// Near-unit bisector of the angle between near-unit vectors `a` and `b`
/// (angle at most 180 degrees); fails when the bisector degenerates to the
/// zero vector.
pub fn bisect(a: Vector, b: Vector) -> (r: Result<Vector, StrokeError>)
    requires
        vec_bounded(a, ONE as int),
        vec_bounded(b, ONE as int),
    ensures
        r == bisect_spec(a, b),
        r matches Ok(m) ==> vec_bounded(m, ONE as int),
{
    let d = dot(a, b);
    let mid: Vector = if d >= 0 {
        Vector { x: a.x + b.x, y: a.y + b.y }
    } else {
        let f = flip(a);
        perp(Vector { x: f.x + b.x, y: f.y + b.y })
    };
    proof {
        assert(mid == bisect_raw(a, b));
    }
    match normalize(mid) {
        None => Err(StrokeError::DegenerateGeometry),
        Some(m) => Ok(m),
    }
}

/// Whether the turn between the segments with normals `a` and `b` is an
/// interior angle; such a join is rebuilt on the convex side.
pub fn is_interior_angle(a: Vector, b: Vector) -> (r: bool)
    requires
        vec_bounded(a, ONE as int),
        vec_bounded(b, ONE as int),
    ensures
        r == is_interior_spec(a, b),
{
    let pa = perp(a);
    dot(pa, b) > 0 || (a.x == b.x && a.y == b.y)
}

/// Intersection of the line through `a_pt` with normal `a_perp` and the
/// line through `b_pt` with normal `b_perp`; fails when the lines are
/// parallel.
pub fn line_intersection(a_pt: Point, a_perp: Vector, b_pt: Point, b_perp: Vector) -> (r: Result<
    Point,
    StrokeError,
>)
    requires
        pt_bounded(a_pt, 268435456),
        pt_bounded(b_pt, 268435456),
        vec_bounded(a_perp, ONE as int),
        vec_bounded(b_perp, ONE as int),
    ensures
        r == line_intersection_spec(a_pt, a_perp, b_pt, b_perp),
{
    let adir = unperp(a_perp);
    let c = Vector { x: b_pt.x - a_pt.x, y: b_pt.y - a_pt.y };
    let denom = dot(b_perp, adir);
    if denom == 0 {
        return Err(StrokeError::DegenerateGeometry);
    }
    let dc = dot(b_perp, c);
    proof {
        lemma_abs_mul_le(b_perp.x as int, c.x as int, ONE as int, 536870912);
        lemma_abs_mul_le(b_perp.y as int, c.y as int, ONE as int, 536870912);
        lemma_abs_mul_le(dc as int, ONE as int, 70368744177664, ONE as int);
        lemma_div0_abs(dc * ONE, denom as int);
    }
    let t: i128 = div_any((dc as i128) * (ONE as i128), denom as i128);
    proof {
        lemma_abs_mul_le(t as int, adir.x as int, 4611686018427387904, ONE as int);
        lemma_abs_mul_le(t as int, adir.y as int, 4611686018427387904, ONE as int);
        lemma_div0_le(t * adir.x, ONE as int, 4611686018427387904);
        lemma_div0_le(t * adir.y, ONE as int, 4611686018427387904);
    }
    let tx: i128 = div_pos(t * (adir.x as i128), ONE as i128);
    let ty: i128 = div_pos(t * (adir.y as i128), ONE as i128);
    let ix: i128 = (a_pt.x as i128) + tx;
    let iy: i128 = (a_pt.y as i128) + ty;
    Ok(Point { x: ix as i64, y: iy as i64 })
}

} // verus!
