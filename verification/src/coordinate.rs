//! An immutable (x, y) grid position with value semantics.

use vstd::prelude::*;

verus! {

/// A grid position. Valid positions satisfy `x ∈ [0, width)` and
/// `y ∈ [0, height)` for the grid they refer to; the default value
/// `(-1, -1)` is a sentinel meaning "unset" and never names a cell.
#[derive(Clone, Copy, Debug, PartialEq, Eq, Structural)]
pub struct Coordinate {
    pub x: i16,
    pub y: i16,
}

impl Coordinate {
    pub fn new(x: i16, y: i16) -> (r: Self)
        ensures
            r.x == x,
            r.y == y,
    {
        Coordinate { x, y }
    }

    pub fn get_x(&self) -> (r: i16)
        ensures
            r == self.x,
    {
        self.x
    }

    pub fn get_y(&self) -> (r: i16)
        ensures
            r == self.y,
    {
        self.y
    }
}

impl Default for Coordinate {
    /// The "unset" sentinel position.
    fn default() -> (r: Self)
        ensures
            r.x == -1,
            r.y == -1,
    {
        Coordinate { x: -1, y: -1 }
    }
}

} // verus!
