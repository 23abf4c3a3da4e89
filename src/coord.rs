use vstd::prelude::*;

verus! {

/// Coordinates on a rectangular Game of Life board
#[derive(Debug, PartialEq, Eq, Structural, Hash, Clone, Copy)]
pub struct Coord {
    pub x: usize,
    pub y: usize,
}

impl Coord {
    /// Creates a new coordinate
    pub fn new(x: usize, y: usize) -> (r: Coord)
        ensures
            r.x == x,
            r.y == y,
    {
        Coord { x, y }
    }
}

} // verus!
