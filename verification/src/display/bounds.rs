//! A rectangle of cells, given by its top left corner and its size.

use crate::utils::coords::Coords;
use vstd::prelude::*;

verus! {

/// A rectangle of cells.
#[derive(Copy, Clone, Debug, PartialEq, Eq, Structural)]
pub struct Bounds {
    pub top_left: Coords,
    /// The width in `x` and the height in `y`.
    pub size: Coords,
}

impl Bounds {
    pub fn new(top_left: Coords, size: Coords) -> (b: Bounds)
        ensures
            b == (Bounds { top_left, size }),
    {
        Bounds { top_left, size }
    }

    pub fn width(&self) -> (w: i32)
        ensures
            w == self.size.x,
    {
        self.size.x
    }

    pub fn height(&self) -> (h: i32)
        ensures
            h == self.size.y,
    {
        self.size.y
    }
}

} // verus!
