//! Where each card of a stack lies on the screen.

use crate::display::stack::StackWidget;
use crate::model::card::Card;
use crate::model::stack::StackDetails;
use crate::utils::coords::Coords;
use vstd::prelude::*;

verus! {

/// How far one card lies from the next, for each part of a stack, and how
/// many cards of each part are drawn on top of each other.
#[derive(Copy, Clone, Debug)]
pub struct Offsets {
    /// From card to card among the visible cards below the spread.
    pub unspread: Coords,
    /// From card to card among the first spread cards, which lie closer.
    pub collapsed_spread: Coords,
    /// From card to card among the other spread cards.
    pub uncollapsed_spread: Coords,
    /// How far a card that is picked up is moved aside.
    pub selected: Coords,
    /// How many of the visible cards are left out at the bottom.
    pub collapse_unspread_len: usize,
    /// How many of the spread cards lie closer.
    pub collapse_spread_len: usize,
}

/// How far the card at `index` is moved aside: by `offsets.selected` if it
/// belongs to a run that is picked up, else not at all.
pub open spec fn card_shift_value(index: usize, offsets: Offsets, details: StackDetails) -> Coords {
    match details.selection_index {
        Some(selected) => if details.held && index >= selected {
            offsets.selected
        } else {
            Coords { x: 0, y: 0 }
        },
        None => Coords { x: 0, y: 0 },
    }
}

/// How many steps of each kind lead from the first card that is drawn to
/// the card at `index`: steps among the unspread cards, among the spread
/// cards that lie closer, and among the others. `None` for a card that is
/// not drawn.
pub open spec fn card_steps(index: usize, offsets: Offsets, details: StackDetails) -> Option<
    (int, int, int),
> {
    let visible = details.visible_index + offsets.collapse_unspread_len;
    let collapsed = details.spread_index as int;
    let uncollapsed = details.spread_index + offsets.collapse_spread_len;
    if index >= uncollapsed {
        Some((collapsed - visible, uncollapsed - collapsed, index - uncollapsed))
    } else if index >= collapsed {
        Some((collapsed - visible, index - collapsed, 0))
    } else if index >= visible {
        Some((index - visible, 0, 0))
    } else {
        None
    }
}

/// Whether the place of the card at `index` can be computed: the indices
/// can be added, the spread does not begin below the first card that is
/// drawn, and no coordinate leaves the range of `i32` on the way. Each count
/// of steps is cut to an `i32` before it is used.
pub open spec fn card_coords_defined(base: Coords, index: usize, offsets: Offsets, details: StackDetails) -> bool {
    &&& details.visible_index + offsets.collapse_unspread_len <= usize::MAX
    &&& details.spread_index + offsets.collapse_spread_len <= usize::MAX
    &&& match card_steps(index, offsets, details) {
        None => true,
        Some((unspread, collapsed, uncollapsed)) => {
            let first = base.stepped(unspread as usize as i32, offsets.unspread);
            let second = first.stepped(collapsed as usize as i32, offsets.collapsed_spread);
            let third = second.stepped(uncollapsed as usize as i32, offsets.uncollapsed_spread);
            &&& unspread >= 0
            &&& base.can_step(unspread as usize as i32, offsets.unspread)
            &&& first.can_step(collapsed as usize as i32, offsets.collapsed_spread)
            &&& second.can_step(uncollapsed as usize as i32, offsets.uncollapsed_spread)
            &&& Coords::pair_fits(third.plus(card_shift_value(index, offsets, details)))
        },
    }
}

/// Where the card at `index` lies: from `base`, the steps of `card_steps`
/// each by its offset, and the shift of a card that is picked up. `None` for
/// a card that is not drawn.
pub open spec fn card_coords_value(base: Coords, index: usize, offsets: Offsets, details: StackDetails) -> Option<
    Coords,
> {
    match card_steps(index, offsets, details) {
        None => None,
        Some((unspread, collapsed, uncollapsed)) => Some(
            Coords::of_pair(
                base.stepped(unspread as usize as i32, offsets.unspread).stepped(
                    collapsed as usize as i32,
                    offsets.collapsed_spread,
                ).stepped(uncollapsed as usize as i32, offsets.uncollapsed_spread).plus(
                    card_shift_value(index, offsets, details),
                ),
            ),
        ),
    }
}

/// A count of steps as a factor, cut to an `i32`.
fn factor(n: usize) -> (f: i32)
    ensures
        f == n as i32,
{
    #[verifier::truncate]
    (n as i32)
}

/// Where the card at `index` of a stack with the marks `stack_details` lies
/// when the stack is drawn from `base_coords`.
pub fn card_coords(base_coords: Coords, index: usize, offsets: &Offsets, stack_details: &StackDetails) -> (r:
    Option<Coords>)
    requires
        card_coords_defined(base_coords, index, *offsets, *stack_details),
    ensures
        r == card_coords_value(base_coords, index, *offsets, *stack_details),
{
    let visible_index: usize = stack_details.visible_index() + offsets.collapse_unspread_len;
    let collapsed_spread_index: usize = stack_details.spread_index();
    let uncollapsed_spread_index: usize = collapsed_spread_index + offsets.collapse_spread_len;
    let zero: i32 = 0;
    proof {
        assert(zero * offsets.collapsed_spread.x == 0 && zero * offsets.collapsed_spread.y == 0);
        assert(zero * offsets.uncollapsed_spread.x == 0 && zero * offsets.uncollapsed_spread.y == 0);
    }
    if index >= uncollapsed_spread_index {
        let unspread_len: usize = collapsed_spread_index - visible_index;
        let collapsed_spread_len: usize = uncollapsed_spread_index - collapsed_spread_index;
        let uncollapsed_spread_len: usize = index - uncollapsed_spread_index;
        Some(
            base_coords + factor(unspread_len) * offsets.unspread + factor(collapsed_spread_len)
                * offsets.collapsed_spread + factor(uncollapsed_spread_len) * offsets.uncollapsed_spread
                + card_shift(index, offsets, stack_details),
        )
    } else if index >= collapsed_spread_index {
        let unspread_len: usize = collapsed_spread_index - visible_index;
        let collapsed_spread_len: usize = index - collapsed_spread_index;
        Some(
            base_coords + factor(unspread_len) * offsets.unspread + factor(collapsed_spread_len)
                * offsets.collapsed_spread + card_shift(index, offsets, stack_details),
        )
    } else if index >= visible_index {
        let unspread_len: usize = index - visible_index;
        Some(base_coords + factor(unspread_len) * offsets.unspread + card_shift(index, offsets, stack_details))
    } else {
        None
    }
}

/// `at` moved by `n` times `step`, if that can be done within `i32`.
fn try_step(at: Coords, n: i32, step: Coords) -> (r: Option<Coords>)
    ensures
        at.can_step(n, step) ==> r == Some(at.stepped(n, step)),
        !at.can_step(n, step) ==> r is None,
{
    match (n.checked_mul(step.x), n.checked_mul(step.y)) {
        (Some(dx), Some(dy)) => match (at.x.checked_add(dx), at.y.checked_add(dy)) {
            (Some(x), Some(y)) => Some(Coords { x, y }),
            _ => None,
        },
        _ => None,
    }
}

/// Whether `card_coords` can be asked for the place of the card at `index`:
/// see `card_coords_defined`.
pub fn can_place(base_coords: Coords, index: usize, offsets: &Offsets, stack_details: &StackDetails) -> (b:
    bool)
    ensures
        b == card_coords_defined(base_coords, index, *offsets, *stack_details),
{
    let visible_index: usize = match stack_details.visible_index().checked_add(offsets.collapse_unspread_len) {
        Some(sum) => sum,
        None => {
            return false;
        },
    };
    let collapsed_spread_index: usize = stack_details.spread_index();
    let uncollapsed_spread_index: usize = match collapsed_spread_index.checked_add(
        offsets.collapse_spread_len,
    ) {
        Some(sum) => sum,
        None => {
            return false;
        },
    };
    if index < visible_index && index < collapsed_spread_index && index < uncollapsed_spread_index {
        return true;
    }
    let spread: bool = index >= uncollapsed_spread_index || index >= collapsed_spread_index;
    if spread && collapsed_spread_index < visible_index {
        return false;
    }
    let unspread_len: usize = if spread {
        collapsed_spread_index - visible_index
    } else {
        index - visible_index
    };
    let collapsed_spread_len: usize = if index >= uncollapsed_spread_index {
        uncollapsed_spread_index - collapsed_spread_index
    } else if index >= collapsed_spread_index {
        index - collapsed_spread_index
    } else {
        0
    };
    let uncollapsed_spread_len: usize = if index >= uncollapsed_spread_index {
        index - uncollapsed_spread_index
    } else {
        0
    };
    let first: Coords = match try_step(base_coords, factor(unspread_len), offsets.unspread) {
        Some(next) => next,
        None => {
            return false;
        },
    };
    let second: Coords = match try_step(first, factor(collapsed_spread_len), offsets.collapsed_spread) {
        Some(next) => next,
        None => {
            return false;
        },
    };
    let third: Coords = match try_step(second, factor(uncollapsed_spread_len), offsets.uncollapsed_spread) {
        Some(next) => next,
        None => {
            return false;
        },
    };
    let shift: Coords = card_shift(index, offsets, stack_details);
    third.x.checked_add(shift.x).is_some() && third.y.checked_add(shift.y).is_some()
}

/// How far the card at `index` is moved aside.
pub fn card_shift(index: usize, offsets: &Offsets, stack_details: &StackDetails) -> (shift: Coords)
    ensures
        shift == card_shift_value(index, *offsets, *stack_details),
{
    match stack_details.selection_index() {
        Some(selection_index) => if stack_details.held() && index >= selection_index {
            offsets.selected
        } else {
            Coords::default()
        },
        None => Coords::default(),
    }
}

/// The cards among the first `upto` of `cards` that are drawn, each with its
/// index and its place, bottom first.
pub open spec fn placed_cards(
    cards: Seq<Card>,
    base: Coords,
    offsets: Offsets,
    details: StackDetails,
    upto: nat,
) -> Seq<(usize, Coords, Card)>
    decreases upto,
{
    if upto == 0 {
        Seq::empty()
    } else {
        let below = placed_cards(cards, base, offsets, details, (upto - 1) as nat);
        let index = (upto - 1) as usize;
        match card_coords_value(base, index, offsets, details) {
            Some(coords) => below.push((index, coords, cards[upto - 1])),
            None => below,
        }
    }
}

/// Whether `card_iter` can be asked for the cards of the widget: the place
/// of each of them can be computed.
pub fn can_place_all(widget: &StackWidget, offsets: &Offsets) -> (b: bool)
    requires
        widget.stack.wf(),
    ensures
        b == forall|index: usize|
            index < widget.stack@.cards.len() ==> #[trigger] card_coords_defined(
                widget.bounds.top_left,
                index,
                *offsets,
                widget.stack@.details,
            ),
{
    let len: usize = widget.stack.len();
    let mut index: usize = 0;
    while index < len
        invariant
            index <= len,
            len == widget.stack@.cards.len(),
            widget.stack.wf(),
            forall|i: usize|
                i < index ==> #[trigger] card_coords_defined(
                    widget.bounds.top_left,
                    i,
                    *offsets,
                    widget.stack@.details,
                ),
        decreases len - index,
    {
        if !can_place(widget.bounds.top_left, index, offsets, widget.stack.details()) {
            return false;
        }
        index += 1;
    }
    true
}

/// The cards of the widget's stack that are drawn, each with its index and
/// its place, bottom first.
pub fn card_iter(widget: &StackWidget, offsets: &Offsets) -> (placed: Vec<(usize, Coords, Card)>)
    requires
        widget.stack.wf(),
        forall|index: usize|
            index < widget.stack@.cards.len() ==> #[trigger] card_coords_defined(
                widget.bounds.top_left,
                index,
                *offsets,
                widget.stack@.details,
            ),
    ensures
        placed@ == placed_cards(
            widget.stack@.cards,
            widget.bounds.top_left,
            *offsets,
            widget.stack@.details,
            widget.stack@.cards.len(),
        ),
{
    let coords: Coords = widget.bounds.top_left;
    let len: usize = widget.stack.len();
    let mut placed: Vec<(usize, Coords, Card)> = Vec::new();
    let mut index: usize = 0;
    while index < len
        invariant
            index <= len,
            len == widget.stack@.cards.len(),
            coords == widget.bounds.top_left,
            widget.stack.wf(),
            forall|i: usize|
                i < widget.stack@.cards.len() ==> #[trigger] card_coords_defined(
                    widget.bounds.top_left,
                    i,
                    *offsets,
                    widget.stack@.details,
                ),
            placed@ == placed_cards(
                widget.stack@.cards,
                widget.bounds.top_left,
                *offsets,
                widget.stack@.details,
                index as nat,
            ),
        decreases len - index,
    {
        assert(card_coords_defined(coords, index, *offsets, widget.stack@.details));
        match (card_coords(coords, index, offsets, widget.stack.details()), widget.stack.get(index)) {
            (Some(card_place), Some(card)) => {
                placed.push((index, card_place, *card));
            },
            _ => {},
        }
        index += 1;
    }
    placed
}

} // verus!
