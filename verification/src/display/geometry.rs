//! Points, sizes and rectangles on the screen.

use crate::terminal::{goto_sequence, goto_text};
use vstd::prelude::*;

verus! {

/// A point: a column and a row, counted from 0.
#[derive(Copy, Clone, Debug, PartialEq, Eq)]
pub struct Point2D<T> {
    pub x: T,
    pub y: T,
}

/// A width and a height.
#[derive(Copy, Clone, Debug, PartialEq, Eq)]
pub struct Size2D<T> {
    pub width: T,
    pub height: T,
}

/// A rectangle: where it begins and how large it is.
#[derive(Copy, Clone, Debug, PartialEq, Eq)]
pub struct Rect<T> {
    pub origin: Point2D<T>,
    pub size: Size2D<T>,
}

impl<T> Rect<T> {
    pub fn new(origin: Point2D<T>, size: Size2D<T>) -> (r: Rect<T>)
        ensures
            r == (Rect { origin, size }),
    {
        Rect { origin, size }
    }
}

/// The point in column `x` of row `y`.
pub fn point2<T>(x: T, y: T) -> (p: Point2D<T>)
    ensures
        p == (Point2D { x, y }),
{
    Point2D { x, y }
}

/// The size with the given width and height.
pub fn size2<T>(width: T, height: T) -> (s: Size2D<T>)
    ensures
        s == (Size2D { width, height }),
{
    Size2D { width, height }
}

/// The sequence that puts the cursor on `point`. The terminal counts from
/// 1, so the point must not lie in the last column or row that sixteen bits
/// can number.
pub fn goto(point: Point2D<u16>) -> (s: String)
    requires
        point.x < u16::MAX,
        point.y < u16::MAX,
    ensures
        s@ == goto_text((point.x + 1) as u16, (point.y + 1) as u16),
{
    goto_sequence(point.x + 1, point.y + 1)
}

} // verus!
