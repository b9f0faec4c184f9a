//! How the game is laid out on the screen and what is written to draw it.

use vstd::prelude::*;

pub mod blank;
pub mod bounds;
pub mod game;
pub mod geometry;
pub mod selector;
pub mod stack;

verus! {

/// Something that takes up a rectangle of the screen.
pub trait Widget {
    /// The rectangle that the widget takes up.
    spec fn spec_bounds(&self) -> geometry::Rect<u16>;

    fn bounds(&self) -> (r: geometry::Rect<u16>)
        ensures
            r == self.spec_bounds(),
    ;
}

} // verus!
