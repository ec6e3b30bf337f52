//! Rounded proportions: how much of an axis is covered after part of the
//! moves of a segment have been made.

use vstd::prelude::*;
use vstd::arithmetic::div_mod::{lemma_fundamental_div_mod, lemma_fundamental_div_mod_converse_div};

verus! {

/// How far the pen has moved along an axis of length `span` after `i` of
/// `steps` moves: `i * span / steps`, rounded to the nearest integer, a half
/// rounded up. A segment without moves has covered nothing.
///
/// The divisor is written as a sum: the solver then evaluates the quotient
/// when all three arguments are literals.
pub open spec fn advance(span: int, steps: int, i: int) -> int {
    if steps <= 0 {
        0
    } else {
        (2 * (span * i) + steps) / (steps + steps)
    }
}

/// `advance` lies within half a cell of the exact proportion:
/// `2 * steps * advance <= 2 * span * i + steps < 2 * steps * (advance + 1)`.
pub proof fn lemma_advance_bounds(span: int, steps: int, i: int)
    requires
        steps > 0,
    ensures
        2 * (steps * advance(span, steps, i)) <= 2 * (span * i) + steps,
        2 * (span * i) + steps < 2 * (steps * advance(span, steps, i)) + 2 * steps,
{
    let x = 2 * (span * i) + steps;
    let d = steps + steps;
    let q = advance(span, steps, i);
    lemma_fundamental_div_mod(x, d);
    assert(d * q == 2 * (steps * q)) by (nonlinear_arith)
        requires
            d == 2 * steps,
    ;
}

/// The bounds of `lemma_advance_bounds` hold of no other integer: a `q` that
/// meets them is the value of `advance`.
pub proof fn lemma_advance_unique(span: int, steps: int, i: int, q: int)
    requires
        steps > 0,
        2 * (steps * q) <= 2 * (span * i) + steps,
        2 * (span * i) + steps < 2 * (steps * q) + 2 * steps,
    ensures
        advance(span, steps, i) == q,
{
    let x = 2 * (span * i) + steps;
    let d = steps + steps;
    let r = x - 2 * (steps * q);
    assert(q * d == 2 * (steps * q)) by (nonlinear_arith)
        requires
            d == 2 * steps,
    ;
    lemma_fundamental_div_mod_converse_div(x, d, q, r);
}

/// An axis as long as the number of moves is covered one cell per move.
pub proof fn lemma_advance_major(steps: int, i: int)
    requires
        steps > 0,
    ensures
        advance(steps, steps, i) == i,
{
    lemma_advance_unique(steps, steps, i, i);
}

/// Before the first move nothing is covered; after the last, the whole span.
pub proof fn lemma_advance_ends(span: int, steps: int)
    requires
        steps > 0,
    ensures
        advance(span, steps, 0) == 0,
        advance(span, steps, steps) == span,
{
    lemma_advance_unique(span, steps, 0, 0);
    lemma_advance_unique(span, steps, steps, span);
}

/// One move covers at most one cell of an axis, and never takes one back.
pub proof fn lemma_advance_step(span: int, steps: int, i: int)
    requires
        0 <= span <= steps,
        steps > 0,
    ensures
        advance(span, steps, i) <= advance(span, steps, i + 1) <= advance(span, steps, i) + 1,
{
    let q = advance(span, steps, i);
    let r = advance(span, steps, i + 1);
    lemma_advance_bounds(span, steps, i);
    lemma_advance_bounds(span, steps, i + 1);
    assert(span * (i + 1) == span * i + span) by (nonlinear_arith);
    assert(q < r + 1) by (nonlinear_arith)
        requires
            steps > 0,
            2 * (steps * q) < 2 * (steps * r) + 2 * steps,
    ;
    assert(r < q + 2) by (nonlinear_arith)
        requires
            steps > 0,
            2 * (steps * r) < 2 * (steps * q) + 4 * steps,
    ;
}

/// What is covered of an axis grows with the number of moves.
pub proof fn lemma_advance_monotone(span: int, steps: int, i: int, j: int)
    requires
        0 <= span <= steps,
        steps > 0,
        i <= j,
    ensures
        advance(span, steps, i) <= advance(span, steps, j),
    decreases j - i,
{
    if i < j {
        lemma_advance_monotone(span, steps, i, j - 1);
        lemma_advance_step(span, steps, j - 1);
    }
}

/// From the first move to the last the pen stays within the span of each axis.
pub proof fn lemma_advance_range(span: int, steps: int, i: int)
    requires
        0 <= span <= steps,
        0 <= i <= steps,
    ensures
        0 <= advance(span, steps, i) <= span,
{
    if steps > 0 {
        lemma_advance_ends(span, steps);
        lemma_advance_monotone(span, steps, 0, i);
        lemma_advance_monotone(span, steps, i, steps);
    }
}

} // verus!
