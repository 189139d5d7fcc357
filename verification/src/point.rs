//! Grid coordinates.

use vstd::prelude::*;

verus! {

/// A cell position: column `x` and row `y`, both counted from zero.
#[derive(Debug, Clone, Copy, PartialEq, Eq, Hash, Structural)]
pub struct Point {
    pub x: usize,
    pub y: usize,
}

impl Point {
    /// The cell in column `x` of row `y`.
    pub fn new(x: usize, y: usize) -> (p: Self)
        ensures
            p.x == x,
            p.y == y,
    {
        Self { x, y }
    }
}

} // verus!
