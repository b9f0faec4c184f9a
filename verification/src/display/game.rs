//! Where each stack of the game lies on the screen.

use crate::model::card::{Suit, SUITS};
use crate::model::game::{Game, GameView, StackRef};
use crate::model::stack::Orientation;
use crate::utils::coords::Coords;
use vstd::prelude::*;

verus! {

/// One stack to draw: which one, where, and in which direction.
#[derive(Copy, Clone, Debug, PartialEq, Eq, Structural)]
pub struct Placement {
    pub origin: Coords,
    pub orientation: Orientation,
    pub stack: StackRef,
}

/// A list of the stacks to draw, in the order in which they are drawn.
#[derive(Debug)]
pub struct KlondikeDisplay {
    placements: Vec<Placement>,
}

impl View for KlondikeDisplay {
    type V = Seq<Placement>;

    closed spec fn view(&self) -> Seq<Placement> {
        self.placements@
    }
}

/// Where the stock lies.
pub open spec fn stock_coords() -> Coords {
    Coords { x: 1, y: 0 }
}

/// Where the talon lies.
pub open spec fn talon_coords() -> Coords {
    Coords { x: 12, y: 0 }
}

/// Where the first foundation lies.
pub open spec fn foundation_coords() -> Coords {
    Coords { x: 34, y: 0 }
}

/// Where the first tableau column lies.
pub open spec fn tableaux_coords() -> Coords {
    Coords { x: 1, y: 5 }
}

/// How large a card is drawn.
pub open spec fn card_size() -> Coords {
    Coords { x: 8, y: 4 }
}

/// The gap between two columns.
pub open spec fn column_offset() -> Coords {
    Coords { x: 3, y: 0 }
}

/// Where the column with the given number lies in a row of columns that
/// begins at `first`: each column lies a card's width and a gap to the
/// right of the one before.
pub open spec fn column_coords(first: Coords, column: int) -> Coords {
    Coords { x: (first.x + column * (card_size().x + column_offset().x)) as i32, y: first.y }
}

/// Where the foundation of the suit with the given index is drawn.
pub open spec fn foundation_placement(suit: int) -> Placement {
    Placement {
        origin: column_coords(foundation_coords(), suit),
        orientation: Orientation::Horizontal,
        stack: StackRef::Foundation(Suit::spec_from_index(suit)),
    }
}

/// Where the tableau column with the given number is drawn.
pub open spec fn tableau_placement(column: int) -> Placement {
    Placement {
        origin: column_coords(tableaux_coords(), column),
        orientation: Orientation::Vertical,
        stack: StackRef::Tableau(column as u8),
    }
}

/// The stacks of a game in the order in which they are drawn, each with its
/// place: stock, talon, the foundations, the tableau columns.
pub open spec fn game_layout(game: GameView) -> Seq<Placement> {
    seq![
        Placement { origin: stock_coords(), orientation: Orientation::Horizontal, stack: StackRef::Stock },
        Placement { origin: talon_coords(), orientation: Orientation::Horizontal, stack: StackRef::Talon },
    ] + Seq::new(4, |suit: int| foundation_placement(suit)) + Seq::new(
        game.tableaux.len(),
        |column: int| tableau_placement(column),
    )
}

impl KlondikeDisplay {
    /// A display with nothing to draw.
    pub fn new() -> (display: KlondikeDisplay)
        ensures
            display@ == Seq::<Placement>::empty(),
    {
        KlondikeDisplay { placements: Vec::new() }
    }

    /// What is to be drawn, in order.
    pub fn placements(&self) -> (placements: &Vec<Placement>)
        ensures
            placements@ == self@,
    {
        &self.placements
    }

    /// Forgets what was to be drawn.
    pub fn clear(&mut self)
        ensures
            final(self)@ == Seq::<Placement>::empty(),
    {
        self.placements.clear();
    }
}

/// Has the stack `stack` drawn from `coords` to the right.
pub fn draw_horizontal_card_stack(display: &mut KlondikeDisplay, coords: Coords, stack: StackRef)
    ensures
        final(display)@ == old(display)@.push(
            Placement { origin: coords, orientation: Orientation::Horizontal, stack },
        ),
{
    display.placements.push(Placement { origin: coords, orientation: Orientation::Horizontal, stack });
}

/// Has the stack `stack` drawn from `coords` downwards.
pub fn draw_vertical_card_stack(display: &mut KlondikeDisplay, coords: Coords, stack: StackRef)
    ensures
        final(display)@ == old(display)@.push(
            Placement { origin: coords, orientation: Orientation::Vertical, stack },
        ),
{
    display.placements.push(Placement { origin: coords, orientation: Orientation::Vertical, stack });
}

/// Has every stack of the game drawn at its place.
pub fn draw_game(display: &mut KlondikeDisplay, game: &Game)
    requires
        game.wf(),
    ensures
        final(display)@ == old(display)@ + game_layout(game@),
{
    let stride: Coords = Coords::from_xy(8, 4).to_x() + Coords::from_x(3);
    draw_horizontal_card_stack(display, Coords::from_xy(1, 0), StackRef::Stock);
    draw_horizontal_card_stack(display, Coords::from_xy(12, 0), StackRef::Talon);
    let ghost head = display@;
    let mut i: usize = 0;
    assert(display@ =~= head + Seq::new(0, |suit: int| foundation_placement(suit)));
    while i < SUITS
        invariant
            i <= SUITS,
            stride == (Coords { x: 11, y: 0 }),
            display@ == head + Seq::new(i as nat, |suit: int| foundation_placement(suit)),
        decreases SUITS - i,
    {
        let coords: Coords = Coords::from_xy(34, 0) + (i as i32) * stride;
        match Suit::from_index(i) {
            Some(suit) => {
                draw_horizontal_card_stack(display, coords, StackRef::Foundation(suit));
            },
            None => {},
        }
        i += 1;
        assert(display@ =~= head + Seq::new(i as nat, |suit: int| foundation_placement(suit)));
    }
    let ghost upper = display@;
    let columns: u8 = game.settings().tableaux_len;
    let mut column: u8 = 0;
    assert(display@ =~= upper + Seq::new(0, |column: int| tableau_placement(column)));
    while column < columns
        invariant
            column <= columns,
            stride == (Coords { x: 11, y: 0 }),
            display@ == upper + Seq::new(column as nat, |column: int| tableau_placement(column)),
        decreases columns - column,
    {
        let coords: Coords = Coords::from_xy(1, 5) + (column as i32) * stride;
        draw_vertical_card_stack(display, coords, StackRef::Tableau(column));
        column += 1;
        assert(display@ =~= upper + Seq::new(column as nat, |column: int| tableau_placement(column)));
    }
    assert(display@ =~= old(display)@ + game_layout(game@));
}

} // verus!
