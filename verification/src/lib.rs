//! Stroke-to-fill conversion for flattened vector paths.
//!
//! The library turns a polyline path plus a stroke style (width, caps,
//! joins, mitre limit) into a set of closed contours which, filled under a
//! nonzero or even-odd fill rule, render as the stroked line.  All geometry
//! is carried out in signed 16.16 fixed-point arithmetic.

pub mod fixed;
pub mod geom;
pub mod path;
pub mod stroke;

pub use geom::{Point, Vector};
pub use path::{LineCap, LineJoin, Path, PathBuilder, PathOp, StrokeError, StrokeStyle};
pub use stroke::stroke_to_path;
