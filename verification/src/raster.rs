//! Bresenham's line algorithm, in the form that covers all eight octants with
//! a single error accumulator.

use vstd::prelude::*;
use crate::coordinate::Coordinate;
use crate::laws::{lemma_line_connected, lemma_line_endpoints};
use crate::line::{connected, line, line_point, points, span, steps, toward};
use crate::rounding::{
    advance, lemma_advance_bounds, lemma_advance_ends, lemma_advance_major, lemma_advance_range,
    lemma_advance_unique,
};

verus! {

/// The value of the error accumulator after `i` moves, for a segment that
/// spans `run` cells along x and `rise` cells along y, `n` being the longer of
/// the two. It began at `run - rise`; each move along x has taken `rise` from
/// it, and each move along y has added `run` to it.
spec fn error_after(run: int, rise: int, n: int, i: int) -> int {
    run * (advance(rise, n, i) + 1) - rise * (advance(run, n, i) + 1)
}

/// The test that the algorithm makes on the doubled error before it moves
/// along an axis decides exactly whether `advance` grows on that axis with the
/// next move. Here `along` is the span of the axis in question and `across`
/// that of the other. Seen from the other axis the error has the opposite
/// sign, so the one statement serves for both tests.
proof fn lemma_axis_decision(along: int, across: int, n: int, i: int)
    requires
        0 <= along <= n,
        0 <= across <= n,
        n == along || n == across,
        n > 0,
        0 <= i < n,
    ensures
        2 * error_after(along, across, n, i) >= -across
            <==> advance(along, n, i + 1) == advance(along, n, i) + 1,
        2 * error_after(along, across, n, i) < -across
            <==> advance(along, n, i + 1) == advance(along, n, i),
{
    let k = advance(along, n, i);
    let m = advance(across, n, i);
    lemma_advance_bounds(along, n, i);
    lemma_advance_bounds(across, n, i);
    assert(along * (m + 1) == along * m + along) by (nonlinear_arith);
    assert(across * (k + 1) == across * k + across) by (nonlinear_arith);
    if along == n {
        lemma_advance_major(n, i);
        lemma_advance_major(n, i + 1);
    } else {
        lemma_advance_major(n, i);
        if 2 * error_after(along, across, n, i) >= -across {
            lemma_advance_unique(along, n, i + 1, k + 1);
        } else {
            lemma_advance_unique(along, n, i + 1, k);
        }
    }
}

/// The error accumulator stays within twice the number of moves.
proof fn lemma_error_range(run: int, rise: int, n: int, i: int)
    requires
        0 <= run <= n,
        0 <= rise <= n,
        n == run || n == rise,
        0 <= i <= n,
    ensures
        -2 * n <= error_after(run, rise, n, i) <= 2 * n,
{
    let k = advance(run, n, i);
    let m = advance(rise, n, i);
    if n > 0 {
        lemma_advance_bounds(run, n, i);
        lemma_advance_bounds(rise, n, i);
        lemma_advance_major(n, i);
        assert(run * (m + 1) == run * m + run) by (nonlinear_arith);
        assert(rise * (k + 1) == rise * k + rise) by (nonlinear_arith);
    } else {
        assert(run * (m + 1) == 0) by (nonlinear_arith)
            requires
                run == 0,
        ;
        assert(rise * (k + 1) == 0) by (nonlinear_arith)
            requires
                rise == 0,
        ;
    }
}

/// The grid cells that approximate the straight segment from `(x0, y0)` to
/// `(x1, y1)`, in order from the first point to the second, both included.
///
/// The result is the segment as `line` defines it: one cell for each unit of
/// the longer axis span, the position on the other axis rounded to the nearest
/// cell. It starts at `(x0, y0)`, ends at `(x1, y1)`, and each cell is a
/// neighbour of the one before it. All `i32` end points are accepted: the
/// error accumulator is kept in 64 bits, where it cannot overflow.
pub fn interpolate_line(x0: i32, y0: i32, x1: i32, y1: i32) -> (path: Vec<Coordinate>)
    ensures
        points(path@) == line(x0 as int, y0 as int, x1 as int, y1 as int),
        path@.len() == steps(x0 as int, y0 as int, x1 as int, y1 as int) + 1,
        path@.first() == (Coordinate { x: x0, y: y0 }),
        path@.last() == (Coordinate { x: x1, y: y1 }),
        connected(points(path@)),
{
    let dx: i64 = if x0 < x1 {
        x1 as i64 - x0 as i64
    } else {
        x0 as i64 - x1 as i64
    };
    let sx: i32 = if x0 < x1 {
        1
    } else {
        -1
    };
    let dy: i64 = if y0 < y1 {
        y0 as i64 - y1 as i64
    } else {
        y1 as i64 - y0 as i64
    };
    let sy: i32 = if y0 < y1 {
        1
    } else {
        -1
    };
    let mut error: i64 = dx + dy;
    let mut x: i32 = x0;
    let mut y: i32 = y0;

    let mut path: Vec<Coordinate> = Vec::new();

    let ghost a = span(x0 as int, x1 as int);
    let ghost b = span(y0 as int, y1 as int);
    let ghost n = steps(x0 as int, y0 as int, x1 as int, y1 as int);
    proof {
        // Before the first move nothing is covered, and the error is `dx + dy`.
        if n > 0 {
            lemma_advance_ends(a, n);
            lemma_advance_ends(b, n);
        }
        assert(a * 1 == a && b * 1 == b) by (nonlinear_arith);
    }

    loop
        invariant_except_break
            path@.len() <= n,
            x == toward(x0 as int, x1 as int, advance(a, n, path@.len() as int)),
            y == toward(y0 as int, y1 as int, advance(b, n, path@.len() as int)),
            error == error_after(a, b, n, path@.len() as int),
        invariant
            a == span(x0 as int, x1 as int),
            b == span(y0 as int, y1 as int),
            n == steps(x0 as int, y0 as int, x1 as int, y1 as int),
            dx == a,
            dy == -b,
            sx == if x0 < x1 { 1i32 } else { -1i32 },
            sy == if y0 < y1 { 1i32 } else { -1i32 },
            forall|j: int|
                0 <= j < path@.len() ==> (#[trigger] path@[j])@ == line_point(
                    x0 as int,
                    y0 as int,
                    x1 as int,
                    y1 as int,
                    j,
                ),
        ensures
            path@.len() == n + 1,
        decreases n - path@.len(),
    {
        let ghost i = path@.len() as int;
        proof {
            lemma_error_range(a, b, n, i);
            if n > 0 {
                // The end point is reached with the last move, and not before.
                lemma_advance_ends(a, n);
                lemma_advance_ends(b, n);
                lemma_advance_major(n, i);
                if i < n {
                    // The two tests below pick the next point of the line.
                    lemma_axis_decision(a, b, n, i);
                    lemma_axis_decision(b, a, n, i);
                    lemma_advance_range(a, n, i + 1);
                    lemma_advance_range(b, n, i + 1);
                }
            }
        }
        path.push(Coordinate { x, y });

        if x == x1 && y == y1 {
            break ;
        }
        // Both tests are made on the error as it stood before either move:
        // a diagonal move is one iteration in which both succeed. The two
        // inner exits stop a move past the end of an axis; the accumulator
        // never asks for one, so neither is ever taken.
        let e2: i64 = 2 * error;
        if e2 >= dy {
            if x == x1 {
                break ;
            }
            error += dy;
            x += sx;
        }
        if e2 <= dx {
            if y == y1 {
                break ;
            }
            error += dx;
            y += sy;
        }
        proof {
            // The error accumulator has followed the moves just made.
            let k = advance(a, n, i);
            let m = advance(b, n, i);
            assert(a * (m + 2) == a * (m + 1) + a) by (nonlinear_arith);
            assert(b * (k + 2) == b * (k + 1) + b) by (nonlinear_arith);
        }
    }

    proof {
        lemma_line_endpoints(x0 as int, y0 as int, x1 as int, y1 as int);
        lemma_line_connected(x0 as int, y0 as int, x1 as int, y1 as int);
        assert(points(path@) =~= line(x0 as int, y0 as int, x1 as int, y1 as int));
    }
    path
}

} // verus!
