//! Path operations, the output path builder, and the stroke style.
//!
//! Coordinates are signed 16.16 fixed-point numbers (see [`crate::fixed`]).
//! A path is an ordered sequence of operations; the stroker consumes only
//! flattened paths (no `QuadTo`/`CubicTo` on input) and produces paths made
//! of `MoveTo`/`LineTo`/`CubicTo`/`Close`.

use crate::fixed::MAX_COORD;
use vstd::prelude::*;

verus! {

/// One path operation, coordinates in fixed-point units.
#[derive(Clone, Copy, PartialEq, Eq, Structural, Debug)]
pub enum PathOp {
    MoveTo(i64, i64),
    LineTo(i64, i64),
    QuadTo(i64, i64, i64, i64),
    CubicTo(i64, i64, i64, i64, i64, i64),
    Close,
}

/// Why a stroke conversion was refused.  The stroker fails fast on invalid
/// geometric input rather than emitting a corrupt outline.
#[derive(Clone, Copy, PartialEq, Eq, Structural, Debug)]
pub enum StrokeError {
    /// Two consecutive points coincide: the segment has no normal.
    ZeroLengthSegment,
    /// A curved operation was found: only flattened paths are accepted.
    UnsupportedOperation,
    /// A vector to normalise was zero, or two lines to intersect were
    /// parallel.
    DegenerateGeometry,
}

/// Cap style for the free ends of an open subpath.
#[derive(Clone, Copy, PartialEq, Eq, Structural, Debug)]
pub enum LineCap {
    Round,
    Square,
    Butt,
}

/// Join style for interior vertices.
#[derive(Clone, Copy, PartialEq, Eq, Structural, Debug)]
pub enum LineJoin {
    Round,
    Mitre,
    Bevel,
}

/// Stroke parameters.  `width` and `mitre_limit` are fixed-point.  The dash
/// fields are carried and validated but not consumed by the stroker: dash
/// expansion happens upstream of it.
pub struct StrokeStyle {
    pub width: i64,
    pub cap: LineCap,
    pub join: LineJoin,
    pub mitre_limit: i64,
    pub dash_array: Vec<i64>,
    pub dash_offset: i64,
}

/// A well-formed style: positive width, nonnegative mitre limit, both small
/// enough that offsetting stays in range, and nonnegative dash lengths.
pub open spec fn style_wf(s: StrokeStyle) -> bool {
    &&& 0 < s.width <= MAX_COORD
    &&& 0 <= s.mitre_limit <= MAX_COORD
    &&& 0 <= s.dash_offset
    &&& forall|i: int| 0 <= i < s.dash_array@.len() ==> 0 <= #[trigger] s.dash_array@[i]
}

/// Runtime check for [`style_wf`], for callers that receive a style from
/// outside.
pub fn is_valid_style(s: &StrokeStyle) -> (b: bool)
    ensures
        b == style_wf(*s),
{
    if !(0 < s.width && s.width <= MAX_COORD) {
        return false;
    }
    if !(0 <= s.mitre_limit && s.mitre_limit <= MAX_COORD) {
        return false;
    }
    if !(0 <= s.dash_offset) {
        return false;
    }
    let mut i: usize = 0;
    while i < s.dash_array.len()
        invariant
            0 <= i <= s.dash_array@.len(),
            forall|j: int| 0 <= j < i ==> 0 <= #[trigger] s.dash_array@[j],
        decreases s.dash_array@.len() - i,
    {
        if s.dash_array[i] < 0 {
            return false;
        }
        i = i + 1;
    }
    true
}

/// All coordinates of one operation lie within `[-MAX_COORD, MAX_COORD]`.
pub open spec fn op_bounded(op: PathOp) -> bool {
    match op {
        PathOp::MoveTo(x, y) => -MAX_COORD <= x <= MAX_COORD && -MAX_COORD <= y <= MAX_COORD,
        PathOp::LineTo(x, y) => -MAX_COORD <= x <= MAX_COORD && -MAX_COORD <= y <= MAX_COORD,
        PathOp::QuadTo(x1, y1, x2, y2) => {
            &&& -MAX_COORD <= x1 <= MAX_COORD
            &&& -MAX_COORD <= y1 <= MAX_COORD
            &&& -MAX_COORD <= x2 <= MAX_COORD
            &&& -MAX_COORD <= y2 <= MAX_COORD
        },
        PathOp::CubicTo(x1, y1, x2, y2, x3, y3) => {
            &&& -MAX_COORD <= x1 <= MAX_COORD
            &&& -MAX_COORD <= y1 <= MAX_COORD
            &&& -MAX_COORD <= x2 <= MAX_COORD
            &&& -MAX_COORD <= y2 <= MAX_COORD
            &&& -MAX_COORD <= x3 <= MAX_COORD
            &&& -MAX_COORD <= y3 <= MAX_COORD
        },
        PathOp::Close => true,
    }
}

/// Every operation of the sequence is bounded.
pub open spec fn path_bounded(ops: Seq<PathOp>) -> bool {
    forall|i: int| 0 <= i < ops.len() ==> op_bounded(#[trigger] ops[i])
}

/// Runtime check for [`op_bounded`].
pub fn op_in_bounds(op: &PathOp) -> (b: bool)
    ensures
        b == op_bounded(*op),
{
    match *op {
        PathOp::MoveTo(x, y) => {
            -MAX_COORD <= x && x <= MAX_COORD && -MAX_COORD <= y && y <= MAX_COORD
        },
        PathOp::LineTo(x, y) => {
            -MAX_COORD <= x && x <= MAX_COORD && -MAX_COORD <= y && y <= MAX_COORD
        },
        PathOp::QuadTo(x1, y1, x2, y2) => {
            -MAX_COORD <= x1 && x1 <= MAX_COORD && -MAX_COORD <= y1 && y1 <= MAX_COORD
                && -MAX_COORD <= x2 && x2 <= MAX_COORD && -MAX_COORD <= y2 && y2 <= MAX_COORD
        },
        PathOp::CubicTo(x1, y1, x2, y2, x3, y3) => {
            -MAX_COORD <= x1 && x1 <= MAX_COORD && -MAX_COORD <= y1 && y1 <= MAX_COORD
                && -MAX_COORD <= x2 && x2 <= MAX_COORD && -MAX_COORD <= y2 && y2 <= MAX_COORD
                && -MAX_COORD <= x3 && x3 <= MAX_COORD && -MAX_COORD <= y3 && y3 <= MAX_COORD
        },
        PathOp::Close => true,
    }
}

/// A path: an ordered sequence of operations.
#[derive(Clone, PartialEq, Eq, Debug)]
pub struct Path {
    pub ops: Vec<PathOp>,
}

impl View for Path {
    type V = Seq<PathOp>;

    open spec fn view(&self) -> Seq<PathOp> {
        self.ops@
    }
}

/// Runtime check for [`path_bounded`], for callers that receive a path from
/// outside.
pub fn path_in_bounds(p: &Path) -> (b: bool)
    ensures
        b == path_bounded(p@),
{
    let mut i: usize = 0;
    while i < p.ops.len()
        invariant
            0 <= i <= p.ops@.len(),
            p@ == p.ops@,
            forall|j: int| 0 <= j < i ==> op_bounded(#[trigger] p.ops@[j]),
        decreases p.ops@.len() - i,
    {
        if !op_in_bounds(&p.ops[i]) {
            return false;
        }
        i = i + 1;
    }
    true
}

/// Accumulates output operations; each emitted contour is opened with
/// `move_to` and terminated with `close`.
pub struct PathBuilder {
    ops: Vec<PathOp>,
}

impl View for PathBuilder {
    type V = Seq<PathOp>;

    closed spec fn view(&self) -> Seq<PathOp> {
        self.ops@
    }
}

impl PathBuilder {
    pub fn new() -> (r: PathBuilder)
        ensures
            r@ == Seq::<PathOp>::empty(),
    {
        PathBuilder { ops: Vec::new() }
    }

    pub fn move_to(&mut self, x: i64, y: i64)
        ensures
            final(self)@ == old(self)@.push(PathOp::MoveTo(x, y)),
    {
        self.ops.push(PathOp::MoveTo(x, y));
    }

    pub fn line_to(&mut self, x: i64, y: i64)
        ensures
            final(self)@ == old(self)@.push(PathOp::LineTo(x, y)),
    {
        self.ops.push(PathOp::LineTo(x, y));
    }

    pub fn cubic_to(&mut self, x1: i64, y1: i64, x2: i64, y2: i64, x3: i64, y3: i64)
        ensures
            final(self)@ == old(self)@.push(PathOp::CubicTo(x1, y1, x2, y2, x3, y3)),
    {
        self.ops.push(PathOp::CubicTo(x1, y1, x2, y2, x3, y3));
    }

    pub fn append_op(&mut self, op: PathOp)
        ensures
            final(self)@ == old(self)@.push(op),
    {
        self.ops.push(op);
    }

    pub fn close(&mut self)
        ensures
            final(self)@ == old(self)@.push(PathOp::Close),
    {
        self.ops.push(PathOp::Close);
    }

    pub fn finish(self) -> (p: Path)
        ensures
            p@ == self@,
    {
        Path { ops: self.ops }
    }
}

} // verus!
