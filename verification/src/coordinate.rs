//! Grid cells.

use vstd::prelude::*;

verus! {

/// A cell of the pixel grid, addressed by its column `x` and row `y`.
#[derive(Clone, Copy, Debug, PartialEq, Eq, Structural)]
pub struct Coordinate {
    pub x: i32,
    pub y: i32,
}

impl View for Coordinate {
    type V = (int, int);

    /// The cell as a pair of mathematical integers, `(x, y)`.
    open spec fn view(&self) -> (int, int) {
        (self.x as int, self.y as int)
    }
}

} // verus!
