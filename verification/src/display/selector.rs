//! The bracket that marks the selected cards of a stack.

use crate::display::geometry::{goto, Point2D, Rect};
use crate::display::Widget;
use crate::model::stack::Orientation;
use crate::terminal::{fg_light_white_sequence, fg_light_white_text, goto_text};
use vstd::prelude::*;
use vstd::string::*;

pub mod horizontal;
pub mod vertical;

verus! {

/// A bracket along `len` cells, from `origin` to the right or downwards.
#[derive(Copy, Clone, Debug)]
pub struct SelectorWidget {
    pub origin: Point2D<u16>,
    pub len: u16,
    pub orientation: Orientation,
}

impl Widget for SelectorWidget {
    open spec fn spec_bounds(&self) -> Rect<u16> {
        match self.orientation {
            Orientation::Horizontal => horizontal::spec_bounds(self.origin, self.len),
            Orientation::Vertical => vertical::spec_bounds(self.origin, self.len),
        }
    }

    fn bounds(&self) -> (r: Rect<u16>) {
        match self.orientation {
            Orientation::Horizontal => horizontal::bounds(self.origin, self.len),
            Orientation::Vertical => vertical::bounds(self.origin, self.len),
        }
    }
}

impl SelectorWidget {
    /// The first cell of the bracket.
    pub open spec fn start_text(&self) -> Seq<char> {
        match self.orientation {
            Orientation::Horizontal => horizontal::start_text(),
            Orientation::Vertical => vertical::start_text(),
        }
    }

    /// A cell between the first and the last.
    pub open spec fn middle_text(&self) -> Seq<char> {
        match self.orientation {
            Orientation::Horizontal => horizontal::middle_text(),
            Orientation::Vertical => vertical::middle_text(),
        }
    }

    /// The last cell of the bracket.
    pub open spec fn end_text(&self) -> Seq<char> {
        match self.orientation {
            Orientation::Horizontal => horizontal::end_text(),
            Orientation::Vertical => vertical::end_text(),
        }
    }

    /// What brings the cursor from one cell to the next.
    pub open spec fn next_text(&self) -> Seq<char> {
        match self.orientation {
            Orientation::Horizontal => horizontal::next_text(),
            Orientation::Vertical => vertical::next_text(),
        }
    }

    /// The cell at place `i`, and the step to the next: the first cell opens
    /// the bracket, the last one closes it, those between continue it. A
    /// bracket of one cell only opens.
    pub open spec fn cell_text(&self, i: int) -> Seq<char> {
        (if i == 0 {
            self.start_text()
        } else if i == self.len - 1 {
            self.end_text()
        } else {
            self.middle_text()
        }) + self.next_text()
    }

    /// The first `cells` cells.
    pub open spec fn cells_text(&self, cells: nat) -> Seq<char>
        decreases cells,
    {
        if cells == 0 {
            Seq::empty()
        } else {
            self.cells_text((cells - 1) as nat) + self.cell_text(cells - 1)
        }
    }

    /// What draws the bracket: the cursor goes to the origin, the colour is
    /// set to bright white, then the cells follow.
    pub open spec fn text(&self) -> Seq<char> {
        goto_text((self.origin.x + 1) as u16, (self.origin.y + 1) as u16) + fg_light_white_text()
            + self.cells_text(self.len as nat)
    }

    /// What draws the bracket.
    pub fn render(&self) -> (s: String)
        requires
            self.origin.x < u16::MAX,
            self.origin.y < u16::MAX,
        ensures
            s@ == self.text(),
    {
        let mut out = goto(self.origin);
        let color = fg_light_white_sequence();
        out.append(color.as_str());
        let ghost head = out@;
        assert(out@ =~= head + self.cells_text(0));
        let mut i: u16 = 0;
        while i < self.len
            invariant
                i <= self.len,
                out@ == head + self.cells_text(i as nat),
            decreases self.len - i,
        {
            let ghost before = out@;
            if i == 0 {
                self.write_start(&mut out);
            } else if i == self.len - 1 {
                self.write_end(&mut out);
            } else {
                self.write_middle(&mut out);
            }
            self.write_next(&mut out);
            assert(out@ =~= before + self.cell_text(i as int));
            i += 1;
            assert(out@ =~= head + self.cells_text(i as nat));
        }
        assert(out@ =~= self.text());
        out
    }

    fn write_start(&self, out: &mut String)
        ensures
            final(out)@ == old(out)@ + self.start_text(),
    {
        match self.orientation {
            Orientation::Horizontal => horizontal::write_start(out),
            Orientation::Vertical => vertical::write_start(out),
        }
    }

    fn write_middle(&self, out: &mut String)
        ensures
            final(out)@ == old(out)@ + self.middle_text(),
    {
        match self.orientation {
            Orientation::Horizontal => horizontal::write_middle(out),
            Orientation::Vertical => vertical::write_middle(out),
        }
    }

    fn write_end(&self, out: &mut String)
        ensures
            final(out)@ == old(out)@ + self.end_text(),
    {
        match self.orientation {
            Orientation::Horizontal => horizontal::write_end(out),
            Orientation::Vertical => vertical::write_end(out),
        }
    }

    fn write_next(&self, out: &mut String)
        ensures
            final(out)@ == old(out)@ + self.next_text(),
    {
        match self.orientation {
            Orientation::Horizontal => horizontal::write_next(out),
            Orientation::Vertical => vertical::write_next(out),
        }
    }
}

} // verus!
