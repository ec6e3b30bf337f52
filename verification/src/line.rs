//! The mathematical model of a rasterized line segment.
//!
//! A segment from `(x0, y0)` to `(x1, y1)` is drawn in `steps` unit moves,
//! where `steps` is the longer of its two axis spans. After `i` moves the pen
//! has covered the fraction `i / steps` of each span, rounded to the nearest
//! whole cell, with an exact half rounded away from the start.

use vstd::prelude::*;
use crate::coordinate::Coordinate;
use crate::rounding::advance;

verus! {

/// The distance between two positions on one axis.
pub open spec fn span(from: int, to: int) -> int {
    if from <= to {
        to - from
    } else {
        from - to
    }
}

/// The position `d` cells away from `from`, on the side where `to` lies.
pub open spec fn toward(from: int, to: int, d: int) -> int {
    if from < to {
        from + d
    } else {
        from - d
    }
}

/// The number of unit moves from the first point of the segment to its last:
/// the longer of the two axis spans.
pub open spec fn steps(x0: int, y0: int, x1: int, y1: int) -> int {
    if span(x0, x1) >= span(y0, y1) {
        span(x0, x1)
    } else {
        span(y0, y1)
    }
}

/// The point reached after `i` moves along the segment from `(x0, y0)` to
/// `(x1, y1)`.
pub open spec fn line_point(x0: int, y0: int, x1: int, y1: int, i: int) -> (int, int) {
    let n = steps(x0, y0, x1, y1);
    (
        toward(x0, x1, advance(span(x0, x1), n, i)),
        toward(y0, y1, advance(span(y0, y1), n, i)),
    )
}

/// The rasterized segment from `(x0, y0)` to `(x1, y1)`: its points in drawing
/// order, both ends included.
pub open spec fn line(x0: int, y0: int, x1: int, y1: int) -> Seq<(int, int)> {
    Seq::new((steps(x0, y0, x1, y1) + 1) as nat, |i: int| line_point(x0, y0, x1, y1, i))
}

/// Two points are neighbours on the grid: they differ by one cell on at least
/// one axis and by no more than one cell on either.
pub open spec fn adjacent(p: (int, int), q: (int, int)) -> bool {
    &&& span(p.0, q.0) <= 1
    &&& span(p.1, q.1) <= 1
    &&& (span(p.0, q.0) == 1 || span(p.1, q.1) == 1)
}

/// Every point of `path` but the first is a neighbour of the one before it.
pub open spec fn connected(path: Seq<(int, int)>) -> bool {
    forall|i: int| 0 <= i < path.len() - 1 ==> adjacent(#[trigger] path[i], path[i + 1])
}

/// The points that a sequence of grid cells stands for.
pub open spec fn points(cells: Seq<Coordinate>) -> Seq<(int, int)> {
    cells.map_values(|c: Coordinate| c@)
}

} // verus!
