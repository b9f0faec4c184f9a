//! Wiping a rectangle of the screen.

use crate::display::bounds::Bounds;
use crate::terminal::{cursor_to, fg_reset_sequence, fg_reset_text, goto_text};
use crate::utils::coords::{fits_i32, Coords};
use vstd::prelude::*;
use vstd::string::*;

verus! {

/// `n` blanks.
pub open spec fn spaces(n: nat) -> Seq<char> {
    Seq::new(n, |i: int| ' ')
}

/// Where row `y` of `bounds` begins.
pub open spec fn row_start(bounds: Bounds, y: int) -> Coords {
    Coords { x: bounds.top_left.x, y: (bounds.top_left.y + y) as i32 }
}

/// Whether row `y` of `bounds` begins at a cell that the terminal can
/// address.
pub open spec fn row_reachable(bounds: Bounds, y: int) -> bool {
    fits_i32(bounds.top_left.y + y) && row_start(bounds, y).has_row_col()
}

/// Whether `bounds` can be wiped: its width is not negative, and each of
/// its rows begins at a cell that the terminal can address.
pub open spec fn paintable(bounds: Bounds) -> bool {
    &&& bounds.size.x >= 0
    &&& forall|y: int| 0 <= y < bounds.size.y ==> #[trigger] row_reachable(bounds, y)
}

/// What wipes row `y` of `bounds`: the cursor goes to its start, then come
/// as many blanks as the rectangle is wide.
pub open spec fn blank_row(bounds: Bounds, y: int) -> Seq<char> {
    let start = row_start(bounds, y);
    goto_text(start.row_col().1 as u16, start.row_col().0 as u16) + spaces(bounds.size.x as nat)
}

/// What wipes the first `rows` rows of `bounds`.
pub open spec fn blank_rows(bounds: Bounds, rows: nat) -> Seq<char>
    decreases rows,
{
    if rows == 0 {
        Seq::empty()
    } else {
        blank_rows(bounds, (rows - 1) as nat) + blank_row(bounds, rows - 1)
    }
}

/// What wipes `bounds`: the colour is reset, then each row is wiped from
/// the top down. A rectangle without height is wiped by the colour alone.
pub open spec fn blank_text(bounds: Bounds) -> Seq<char> {
    fg_reset_text() + blank_rows(
        bounds,
        if bounds.size.y > 0 {
            bounds.size.y as nat
        } else {
            0
        },
    )
}

/// Whether `bounds` can be wiped: see `paintable`.
pub fn can_paint(bounds: Bounds) -> (b: bool)
    ensures
        b == paintable(bounds),
{
    if bounds.size.x < 0 {
        return false;
    }
    let mut y: i32 = 0;
    while y < bounds.size.y
        invariant
            0 <= y,
            bounds.size.x >= 0,
            forall|k: int| 0 <= k < y ==> #[trigger] row_reachable(bounds, k),
        decreases bounds.size.y - y,
    {
        match bounds.top_left.y.checked_add(y) {
            Some(row) => {
                if !Coords::from_xy(bounds.top_left.x, row).is_addressable() {
                    assert(!row_reachable(bounds, y as int));
                    return false;
                }
            },
            None => {
                assert(!row_reachable(bounds, y as int));
                return false;
            },
        }
        y += 1;
    }
    true
}

/// `n` blanks.
pub fn blank_line(width: usize) -> (line: String)
    ensures
        line@ == spaces(width as nat),
{
    let mut line = String::new();
    let mut i: usize = 0;
    proof {
        reveal_strlit(" ");
    }
    assert(line@ =~= spaces(0));
    while i < width
        invariant
            i <= width,
            line@ == spaces(i as nat),
            " "@ == seq![' '],
        decreases width - i,
    {
        line.append(" ");
        i += 1;
        assert(line@ =~= spaces(i as nat));
    }
    line
}

/// Something that text can be painted on and that can be wiped in part.
pub trait BlankPainter {
    /// What has been painted so far.
    spec fn painted(&self) -> Seq<char>;

    /// Wipes `bounds`.
    fn draw_blank_excess(&mut self, bounds: Bounds)
        requires
            paintable(bounds),
        ensures
            final(self).painted() == old(self).painted() + blank_text(bounds),
    ;
}

impl BlankPainter for String {
    open spec fn painted(&self) -> Seq<char> {
        self@
    }

    fn draw_blank_excess(&mut self, bounds: Bounds) {
        let color = fg_reset_sequence();
        self.append(color.as_str());
        let width: i32 = bounds.width();
        assert(width >= 0);
        let line = blank_line(width as usize);
        let height: i32 = bounds.height();
        let mut y: i32 = 0;
        assert(self@ =~= old(self)@ + fg_reset_text() + blank_rows(bounds, 0));
        while y < height
            invariant
                0 <= y,
                y <= height || y == 0,
                height == bounds.size.y,
                paintable(bounds),
                line@ == spaces(bounds.size.x as nat),
                self@ == old(self)@ + fg_reset_text() + blank_rows(bounds, y as nat),
            decreases height - y,
        {
            assert(row_reachable(bounds, y as int));
            let start = bounds.top_left + Coords::from_y(y);
            let goto = cursor_to(start);
            self.append(goto.as_str());
            self.append(line.as_str());
            y += 1;
            assert(self@ =~= old(self)@ + fg_reset_text() + blank_rows(bounds, y as nat));
        }
        assert(self@ =~= old(self)@ + blank_text(bounds));
    }
}

} // verus!
