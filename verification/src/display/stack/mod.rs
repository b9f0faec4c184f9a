//! A stack of cards on the screen.

use crate::display::bounds::Bounds;
use crate::model::stack::Stack;
use vstd::prelude::*;

pub mod common;

verus! {

/// A stack and the rectangle in which it is drawn.
#[derive(Debug)]
pub struct StackWidget<'a> {
    pub bounds: Bounds,
    pub stack: &'a Stack,
}

} // verus!
