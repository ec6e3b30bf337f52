//! What holds of every rasterized segment.

use vstd::prelude::*;
use crate::line::{adjacent, connected, line, line_point, span, steps, toward};
use crate::rounding::{
    lemma_advance_ends, lemma_advance_major, lemma_advance_monotone, lemma_advance_range,
    lemma_advance_step,
};

verus! {

/// A rasterized segment is never empty; it begins at its first end point and
/// finishes at its second.
pub proof fn lemma_line_endpoints(x0: int, y0: int, x1: int, y1: int)
    ensures
        line(x0, y0, x1, y1).len() >= 1,
        line(x0, y0, x1, y1).first() == (x0, y0),
        line(x0, y0, x1, y1).last() == (x1, y1),
{
    let n = steps(x0, y0, x1, y1);
    if n > 0 {
        lemma_advance_ends(span(x0, x1), n);
        lemma_advance_ends(span(y0, y1), n);
    }
}

/// Each point of a rasterized segment is a neighbour of the one before it:
/// the two differ by one cell on at least one axis, and by no more than one
/// on either. In particular no point is drawn twice in a row.
pub proof fn lemma_line_connected(x0: int, y0: int, x1: int, y1: int)
    ensures
        connected(line(x0, y0, x1, y1)),
{
    let n = steps(x0, y0, x1, y1);
    let l = line(x0, y0, x1, y1);
    assert forall|i: int| 0 <= i < l.len() - 1 implies adjacent(#[trigger] l[i], l[i + 1]) by {
        lemma_advance_step(span(x0, x1), n, i);
        lemma_advance_step(span(y0, y1), n, i);
        lemma_advance_major(n, i);
        lemma_advance_major(n, i + 1);
    }
}

/// Along its longer axis a segment moves one cell with every point: a shallow
/// segment has one point for each column between its ends, a steep one has one
/// for each row.
pub proof fn lemma_line_major_axis(x0: int, y0: int, x1: int, y1: int, i: int)
    requires
        0 <= i <= steps(x0, y0, x1, y1),
    ensures
        span(x0, x1) >= span(y0, y1) ==> line_point(x0, y0, x1, y1, i).0 == toward(x0, x1, i),
        span(y0, y1) >= span(x0, x1) ==> line_point(x0, y0, x1, y1, i).1 == toward(y0, y1, i),
{
    let n = steps(x0, y0, x1, y1);
    if n > 0 {
        lemma_advance_major(n, i);
    }
}

/// Neither coordinate ever turns back: from one point of a segment to a later
/// one, each coordinate stays where it is or moves on toward the far end.
pub proof fn lemma_line_monotone(x0: int, y0: int, x1: int, y1: int, i: int, j: int)
    requires
        0 <= i <= j <= steps(x0, y0, x1, y1),
    ensures
        x0 <= x1 ==> line_point(x0, y0, x1, y1, i).0 <= line_point(x0, y0, x1, y1, j).0,
        x0 >= x1 ==> line_point(x0, y0, x1, y1, i).0 >= line_point(x0, y0, x1, y1, j).0,
        y0 <= y1 ==> line_point(x0, y0, x1, y1, i).1 <= line_point(x0, y0, x1, y1, j).1,
        y0 >= y1 ==> line_point(x0, y0, x1, y1, i).1 >= line_point(x0, y0, x1, y1, j).1,
{
    let n = steps(x0, y0, x1, y1);
    if n > 0 {
        lemma_advance_monotone(span(x0, x1), n, i, j);
        lemma_advance_monotone(span(y0, y1), n, i, j);
        lemma_advance_range(span(x0, x1), n, j);
        lemma_advance_range(span(y0, y1), n, j);
    }
}

/// A segment whose two spans are equal runs along a diagonal, and is the same
/// drawn from either end: from its second end point to its first it visits
/// the same points in the opposite order. (Segments of other slopes can differ
/// from their reverse where a point lies exactly half way between two cells.)
pub proof fn lemma_diagonal_reverse(x0: int, y0: int, x1: int, y1: int)
    requires
        span(x0, x1) == span(y0, y1),
    ensures
        line(x1, y1, x0, y0) == line(x0, y0, x1, y1).reverse(),
{
    let n = steps(x0, y0, x1, y1);
    let forth = line(x0, y0, x1, y1);
    let back = line(x1, y1, x0, y0);
    assert forall|i: int| 0 <= i < back.len() implies back[i] == forth.reverse()[i] by {
        if n > 0 {
            lemma_advance_major(n, i);
            lemma_advance_major(n, n - i);
        }
    }
}

} // verus!
