//! Drawing commands, the parser's output, and the parser's two failures.
use vstd::prelude::*;

verus! {

/// A drawing command in absolute fixed-point counts (`lexer::UNIT` per unit).
///
/// `EllipticalArc` is an arc as the text gave it, with its start point
/// (`px`, `py`) resolved: radii and end point in counts, the rotation in
/// millionths of a degree. Its flattening into a line and quadratic segments
/// needs trigonometry; `arc::push_arc_segments` and `arc::flatten_arcs` build
/// the segments from points sampled on the ellipse.
#[derive(Clone, Copy, Debug, PartialEq, Eq, Structural)]
pub enum Command {
    MoveTo { x: i128, y: i128 },
    LineTo { x: i128, y: i128 },
    CurveTo { x1: i128, y1: i128, x2: i128, y2: i128, x: i128, y: i128 },
    ClosePath,
    SmoothCurveTo { cx: i128, cy: i128, x2: i128, y2: i128, x: i128, y: i128 },
    QuadraticBezierCurveTo { x1: i128, y1: i128, x: i128, y: i128 },
    SmoothQuadraticBezierCurveTo { cx: i128, cy: i128, x: i128, y: i128 },
    EllipticalArc {
        px: i128,
        py: i128,
        rx: i128,
        ry: i128,
        x_axis_rotation: i128,
        large_arc_flag: bool,
        sweep_flag: bool,
        x: i128,
        y: i128,
    },
}

/// What the parser expected where it failed.
#[derive(Clone, Copy, Debug, PartialEq, Eq, Structural)]
pub enum Expected {
    Command,
    Number,
}

} // verus!
