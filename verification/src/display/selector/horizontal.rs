//! The bracket under a row of cards.

use crate::display::geometry::{size2, Point2D, Rect, Size2D};
use vstd::prelude::*;
use vstd::string::*;

verus! {

pub open spec fn start_text() -> Seq<char> {
    "╘"@
}

pub open spec fn middle_text() -> Seq<char> {
    "═"@
}

pub open spec fn end_text() -> Seq<char> {
    "╛"@
}

/// The cursor is already where the next cell begins.
pub open spec fn next_text() -> Seq<char> {
    Seq::empty()
}

/// One row, `len` cells wide.
pub open spec fn spec_bounds(origin: Point2D<u16>, len: u16) -> Rect<u16> {
    Rect { origin, size: Size2D { width: len, height: 1 } }
}

pub fn write_start(out: &mut String)
    ensures
        final(out)@ == old(out)@ + start_text(),
{
    out.append("╘");
}

pub fn write_middle(out: &mut String)
    ensures
        final(out)@ == old(out)@ + middle_text(),
{
    out.append("═");
}

pub fn write_end(out: &mut String)
    ensures
        final(out)@ == old(out)@ + end_text(),
{
    out.append("╛");
}

pub fn write_next(out: &mut String)
    ensures
        final(out)@ == old(out)@ + next_text(),
{
    assert(out@ + next_text() =~= out@);
}

pub fn bounds(origin: Point2D<u16>, len: u16) -> (r: Rect<u16>)
    ensures
        r == spec_bounds(origin, len),
{
    Rect::new(origin, size2(len, 1))
}

} // verus!
