//! The bracket beside a column of cards.

use crate::display::geometry::{size2, Point2D, Rect, Size2D};
use crate::terminal::{down_sequence, down_text, left_sequence, left_text};
use vstd::prelude::*;
use vstd::string::*;

verus! {

pub open spec fn start_text() -> Seq<char> {
    "╓╴"@
}

pub open spec fn middle_text() -> Seq<char> {
    "║ "@
}

pub open spec fn end_text() -> Seq<char> {
    "╙╴"@
}

/// The cursor goes back over the two characters of the cell and one row
/// down.
pub open spec fn next_text() -> Seq<char> {
    left_text(2) + down_text(1)
}

/// Two columns, `len` rows high.
pub open spec fn spec_bounds(origin: Point2D<u16>, len: u16) -> Rect<u16> {
    Rect { origin, size: Size2D { width: 2, height: len } }
}

pub fn write_start(out: &mut String)
    ensures
        final(out)@ == old(out)@ + start_text(),
{
    out.append("╓╴");
}

pub fn write_middle(out: &mut String)
    ensures
        final(out)@ == old(out)@ + middle_text(),
{
    out.append("║ ");
}

pub fn write_end(out: &mut String)
    ensures
        final(out)@ == old(out)@ + end_text(),
{
    out.append("╙╴");
}

pub fn write_next(out: &mut String)
    ensures
        final(out)@ == old(out)@ + next_text(),
{
    let left = left_sequence(2);
    let down = down_sequence(1);
    out.append(left.as_str());
    out.append(down.as_str());
    assert(out@ =~= old(out)@ + next_text());
}

pub fn bounds(origin: Point2D<u16>, len: u16) -> (r: Rect<u16>)
    ensures
        r == spec_bounds(origin, len),
{
    Rect::new(origin, size2(2, len))
}

} // verus!
