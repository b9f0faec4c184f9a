//! A stack of cards, bottom first, with the marks that say how it is shown
//! and what is selected.

use crate::model::card::Card;
use crate::model::error::GameError;
use crate::model::tally::{ids, lemma_ids_reverse, lemma_ids_same_cards, same_cards};
use vstd::prelude::*;

verus! {

/// The direction in which a stack is laid out on the screen.
#[derive(Copy, Clone, Debug, PartialEq, Eq, Hash, Structural)]
pub enum Orientation {
    Horizontal,
    Vertical,
}

/// The marks of a stack, without its cards.
#[derive(Copy, Clone, Debug)]
pub struct StackDetails {
    pub orientation: Orientation,
    /// How many cards the stack holds.
    pub len: usize,
    /// The first index whose card shows its face. Every card from here up is
    /// face up.
    pub visible_index: usize,
    /// The index from which cards are laid out spread rather than squared.
    pub spread_index: usize,
    /// The first card of the selected run, if one is selected.
    pub selection_index: Option<usize>,
    /// Whether the selected run is picked up.
    pub held: bool,
}

impl StackDetails {
    /// Whether the marks fit a stack of `len` cards.
    pub open spec fn wf(self) -> bool {
        &&& self.visible_index <= self.spread_index <= self.len
        &&& match self.selection_index {
            Some(i) => i < self.len && self.held,
            None => !self.held,
        }
    }

    pub fn visible_index(&self) -> (i: usize)
        ensures
            i == self.visible_index,
    {
        self.visible_index
    }

    pub fn spread_index(&self) -> (i: usize)
        ensures
            i == self.spread_index,
    {
        self.spread_index
    }

    pub fn selection_index(&self) -> (i: Option<usize>)
        ensures
            i == self.selection_index,
    {
        self.selection_index
    }

    pub fn held(&self) -> (b: bool)
        ensures
            b == self.held,
    {
        self.held
    }
}

/// What a stack is to a specification: its cards from the bottom up, and its
/// marks.
pub struct StackView {
    pub cards: Seq<Card>,
    pub details: StackDetails,
}

impl StackView {
    /// The validity of a stack: the marks fit the cards, and every card from
    /// `visible_index` up shows its face.
    pub open spec fn wf(self) -> bool {
        &&& self.details.len == self.cards.len()
        &&& self.details.wf()
        &&& forall|i: int|
            self.details.visible_index <= i < self.cards.len() ==> (#[trigger] self.cards[i]).face_up
    }

    /// Whether every card below `visible_index` lies face down, so that
    /// `visible_index` is exactly where the faces begin.
    pub open spec fn settled(self) -> bool {
        forall|i: int|
            0 <= i < self.details.visible_index && i < self.cards.len() ==> !(#[trigger] self.cards[i]).face_up
    }

    /// Whether no run is selected.
    pub open spec fn idle(self) -> bool {
        self.details.selection_index is None && !self.details.held
    }

    /// The stack after `card` was put on top. A face-down card hides the
    /// whole stack; a face-up card leaves the marks where they are.
    pub open spec fn pushed(self, card: Card) -> StackView {
        let len = self.cards.len() + 1;
        StackView {
            cards: self.cards.push(card),
            details: StackDetails {
                orientation: self.details.orientation,
                len: len as usize,
                visible_index: if card.face_up {
                    self.details.visible_index
                } else {
                    len as usize
                },
                spread_index: if card.face_up {
                    self.details.spread_index
                } else {
                    len as usize
                },
                selection_index: self.details.selection_index,
                held: self.details.held,
            },
        }
    }

    /// The stack after the cards of `run` were put on top, one after the
    /// other, the first of them first.
    pub open spec fn pushed_all(self, run: Seq<Card>) -> StackView
        decreases run.len(),
    {
        if run.len() == 0 {
            self
        } else {
            self.pushed_all(run.drop_last()).pushed(run.last())
        }
    }

    /// The stack with `run` on top and the marks where they were.
    pub open spec fn extended(self, run: Seq<Card>) -> StackView {
        StackView {
            cards: self.cards + run,
            details: StackDetails {
                orientation: self.details.orientation,
                len: (self.cards.len() + run.len()) as usize,
                visible_index: self.details.visible_index,
                spread_index: self.details.spread_index,
                selection_index: self.details.selection_index,
                held: self.details.held,
            },
        }
    }

    /// The stack with `run` on top and all of it hidden.
    pub open spec fn buried(self, run: Seq<Card>) -> StackView {
        StackView {
            cards: self.cards + run,
            details: StackDetails {
                orientation: self.details.orientation,
                len: (self.cards.len() + run.len()) as usize,
                visible_index: (self.cards.len() + run.len()) as usize,
                spread_index: (self.cards.len() + run.len()) as usize,
                selection_index: self.details.selection_index,
                held: self.details.held,
            },
        }
    }

    /// The stack after the cards from `from` up were taken off. Marks that
    /// pointed into what left now point at the new end; a selection that
    /// began there is gone.
    pub open spec fn cut(self, from: int) -> StackView {
        let keeps = match self.details.selection_index {
            Some(i) => i < from,
            None => false,
        };
        StackView {
            cards: self.cards.subrange(0, from),
            details: StackDetails {
                orientation: self.details.orientation,
                len: from as usize,
                visible_index: if self.details.visible_index <= from {
                    self.details.visible_index
                } else {
                    from as usize
                },
                spread_index: if self.details.spread_index <= from {
                    self.details.spread_index
                } else {
                    from as usize
                },
                selection_index: if keeps {
                    self.details.selection_index
                } else {
                    None
                },
                held: keeps && self.details.held,
            },
        }
    }

    /// The stack with the run from `index` up selected and held.
    pub open spec fn selected(self, index: usize) -> StackView {
        StackView {
            cards: self.cards,
            details: StackDetails {
                orientation: self.details.orientation,
                len: self.details.len,
                visible_index: self.details.visible_index,
                spread_index: self.details.spread_index,
                selection_index: Some(index),
                held: true,
            },
        }
    }

    /// The stack with nothing selected.
    pub open spec fn deselected(self) -> StackView {
        StackView {
            cards: self.cards,
            details: StackDetails {
                orientation: self.details.orientation,
                len: self.details.len,
                visible_index: self.details.visible_index,
                spread_index: self.details.spread_index,
                selection_index: None,
                held: false,
            },
        }
    }

    /// Whether the top card exists and lies face down.
    pub open spec fn top_hidden(self) -> bool {
        self.cards.len() > 0 && !self.cards.last().face_up
    }

    /// The stack after its top card, which lay face down, was turned up.
    pub open spec fn top_shown(self) -> StackView {
        let top = self.cards.len() - 1;
        StackView {
            cards: self.cards.update(top, self.cards[top].facing(true)),
            details: StackDetails {
                orientation: self.details.orientation,
                len: self.details.len,
                visible_index: if self.details.visible_index <= top {
                    self.details.visible_index
                } else {
                    top as usize
                },
                spread_index: self.details.spread_index,
                selection_index: self.details.selection_index,
                held: self.details.held,
            },
        }
    }

    /// The stack with its spread beginning at `index`.
    pub open spec fn spread_from(self, index: usize) -> StackView {
        StackView {
            cards: self.cards,
            details: StackDetails {
                orientation: self.details.orientation,
                len: self.details.len,
                visible_index: self.details.visible_index,
                spread_index: index,
                selection_index: self.details.selection_index,
                held: self.details.held,
            },
        }
    }

    /// The visible cards, each with its index, from `visible_index` up.
    pub open spec fn visible(self) -> Seq<(usize, Card)> {
        Seq::new(
            (self.cards.len() - self.details.visible_index) as nat,
            |k: int| ((self.details.visible_index + k) as usize, self.cards[self.details.visible_index + k]),
        )
    }
}

/// Cards that lie face up, put on a stack, leave its marks where they are.
pub proof fn lemma_pushed_all_shown(stack: StackView, run: Seq<Card>)
    requires
        stack.details.len == stack.cards.len(),
        forall|k: int| 0 <= k < run.len() ==> (#[trigger] run[k]).face_up,
    ensures
        stack.pushed_all(run) == stack.extended(run),
    decreases run.len(),
{
    if run.len() == 0 {
        assert(stack.cards + run =~= stack.cards);
    } else {
        let rest = run.drop_last();
        assert forall|k: int| 0 <= k < rest.len() implies (#[trigger] rest[k]).face_up by {
            assert(run[k].face_up);
        }
        lemma_pushed_all_shown(stack, rest);
        assert(run[run.len() - 1].face_up);
        assert((stack.cards + rest).push(run.last()) =~= stack.cards + run);
    }
}

/// Cards that lie face down, put on a stack, hide all of it.
pub proof fn lemma_pushed_all_hidden(stack: StackView, run: Seq<Card>)
    requires
        stack.details.len == stack.cards.len(),
        run.len() > 0,
        forall|k: int| 0 <= k < run.len() ==> !(#[trigger] run[k]).face_up,
    ensures
        stack.pushed_all(run) == stack.buried(run),
    decreases run.len(),
{
    let rest = run.drop_last();
    assert(!run[run.len() - 1].face_up);
    if rest.len() == 0 {
        assert(stack.pushed_all(rest) == stack);
        assert(stack.cards.push(run.last()) =~= stack.cards + run);
    } else {
        assert forall|k: int| 0 <= k < rest.len() implies !(#[trigger] rest[k]).face_up by {
            assert(!run[k].face_up);
        }
        lemma_pushed_all_hidden(stack, rest);
        assert((stack.cards + rest).push(run.last()) =~= stack.cards + run);
    }
}

/// The cards of `cards` from the top down, each with the given side up.
pub open spec fn turned_over(cards: Seq<Card>, face_up: bool) -> Seq<Card> {
    Seq::new(cards.len(), |k: int| cards[cards.len() - 1 - k].facing(face_up))
}

/// Turning a pile over keeps its cards.
pub proof fn lemma_turned_over_ids(cards: Seq<Card>, face_up: bool)
    ensures
        ids(turned_over(cards, face_up)) == ids(cards),
        turned_over(cards, face_up).len() == cards.len(),
{
    assert(same_cards(turned_over(cards, face_up), cards.reverse()));
    lemma_ids_same_cards(turned_over(cards, face_up), cards.reverse());
    lemma_ids_reverse(cards);
}

/// The cards of `cards` from the top down, each with the given side up.
pub fn turn_over(cards: &Vec<Card>, face_up: bool) -> (out: Vec<Card>)
    ensures
        out@ == turned_over(cards@, face_up),
{
    let mut out: Vec<Card> = Vec::new();
    let n: usize = cards.len();
    let mut k: usize = 0;
    while k < n
        invariant
            k <= n,
            n == cards@.len(),
            out@.len() == k,
            forall|j: int| 0 <= j < k ==> out@[j] == cards@[n - 1 - j].facing(face_up),
        decreases n - k,
    {
        let card: Card = cards[n - 1 - k];
        out.push(Card { rank: card.rank, suit: card.suit, face_up });
        k += 1;
    }
    assert(out@ =~= turned_over(cards@, face_up));
    out
}

/// Whether the card at `k + 1` may lie on the card at `k` in a run: it is
/// one rank lower and of the other colour.
pub open spec fn steps_down(cards: Seq<Card>, k: int) -> bool {
    &&& cards[k].rank.spec_value() == cards[k + 1].rank.spec_value() + 1
    &&& cards[k].suit.spec_color() != cards[k + 1].suit.spec_color()
}

/// Whether the cards of `cards` from `index` up form a run that may be
/// picked up from a tableau: there is at least one, all lie face up, and each
/// lies on a card one rank higher and of the other colour.
pub open spec fn is_run(cards: Seq<Card>, index: int) -> bool {
    &&& 0 <= index < cards.len()
    &&& forall|k: int| index <= k < cards.len() ==> (#[trigger] cards[k]).face_up
    &&& forall|k: int| index <= k < cards.len() - 1 ==> #[trigger] steps_down(cards, k)
}

/// What is a run from some card up is a run from every card above it.
pub proof fn lemma_run_suffix(cards: Seq<Card>, index: int, higher: int)
    requires
        is_run(cards, index),
        index <= higher < cards.len(),
    ensures
        is_run(cards, higher),
{
}

/// Ranks fall by one from card to card of a run.
pub proof fn lemma_run_ranks(cards: Seq<Card>, index: int, k: int)
    requires
        is_run(cards, index),
        index <= k < cards.len(),
    ensures
        cards[k].rank.spec_value() == cards[index].rank.spec_value() - (k - index),
    decreases k - index,
{
    if k > index {
        lemma_run_ranks(cards, index, k - 1);
        assert(steps_down(cards, k - 1));
    }
}

/// A stack of cards. The last card is the top.
#[derive(Debug)]
pub struct Stack {
    cards: Vec<Card>,
    details: StackDetails,
}

impl View for Stack {
    type V = StackView;

    closed spec fn view(&self) -> StackView {
        StackView { cards: self.cards@, details: self.details }
    }
}

impl Stack {
    /// See `StackView::wf`.
    pub open spec fn wf(&self) -> bool {
        self@.wf()
    }

    /// An empty stack.
    pub fn new(orientation: Orientation) -> (s: Stack)
        ensures
            s.wf(),
            s@.cards == Seq::<Card>::empty(),
            s@.details.orientation == orientation,
            s@.details.visible_index == 0,
            s@.details.spread_index == 0,
            s@.idle(),
    {
        Stack {
            cards: Vec::new(),
            details: StackDetails {
                orientation,
                len: 0,
                visible_index: 0,
                spread_index: 0,
                selection_index: None,
                held: false,
            },
        }
    }

    pub fn len(&self) -> (n: usize)
        requires
            self.wf(),
        ensures
            n == self@.cards.len(),
    {
        self.cards.len()
    }

    pub fn is_empty(&self) -> (b: bool)
        requires
            self.wf(),
        ensures
            b == (self@.cards.len() == 0),
    {
        self.cards.len() == 0
    }

    /// The marks of the stack.
    pub fn details(&self) -> (d: &StackDetails)
        ensures
            *d == self@.details,
    {
        &self.details
    }

    /// The top card, if there is one.
    pub fn top(&self) -> (c: Option<&Card>)
        requires
            self.wf(),
        ensures
            self@.cards.len() == 0 ==> c is None,
            self@.cards.len() > 0 ==> c == Some(&self@.cards.last()),
    {
        let n = self.cards.len();
        if n == 0 {
            None
        } else {
            Some(&self.cards[n - 1])
        }
    }

    /// The card at `index`, if there is one.
    pub fn get(&self, index: usize) -> (c: Option<&Card>)
        requires
            self.wf(),
        ensures
            index >= self@.cards.len() ==> c is None,
            index < self@.cards.len() ==> c == Some(&self@.cards[index as int]),
    {
        if index < self.cards.len() {
            Some(&self.cards[index])
        } else {
            None
        }
    }

    /// Puts `card` on top. Nothing is asked of the card: whether it may lie
    /// there is for the game to say.
    pub fn push(&mut self, card: Card)
        requires
            old(self).wf(),
            old(self)@.cards.len() < usize::MAX,
        ensures
            final(self).wf(),
            final(self)@ == old(self)@.pushed(card),
    {
        self.cards.push(card);
        let len = self.cards.len();
        self.details.len = len;
        if !card.face_up {
            self.details.visible_index = len;
            self.details.spread_index = len;
        }
    }

    /// Puts the cards of `run` on top, the first of them first.
    pub fn push_all(&mut self, run: &Vec<Card>)
        requires
            old(self).wf(),
            old(self)@.cards.len() + run@.len() <= usize::MAX,
        ensures
            final(self).wf(),
            final(self)@ == old(self)@.pushed_all(run@),
            final(self)@.cards == old(self)@.cards + run@,
    {
        let n: usize = run.len();
        let mut k: usize = 0;
        assert(run@.subrange(0, 0) =~= Seq::<Card>::empty());
        assert(self@.cards + run@.subrange(0, 0) =~= self@.cards);
        while k < n
            invariant
                k <= n,
                n == run@.len(),
                self.wf(),
                old(self)@.cards.len() + n <= usize::MAX,
                self@ == old(self)@.pushed_all(run@.subrange(0, k as int)),
                self@.cards == old(self)@.cards + run@.subrange(0, k as int),
            decreases n - k,
        {
            let ghost prefix = run@.subrange(0, k as int);
            let ghost longer = run@.subrange(0, k + 1);
            assert(longer.drop_last() =~= prefix);
            assert(longer.last() == run@[k as int]);
            assert((old(self)@.cards + prefix).push(run@[k as int]) =~= old(self)@.cards + longer);
            self.push(run[k]);
            k += 1;
        }
        assert(run@.subrange(0, n as int) =~= run@);
    }

    /// Takes off the cards from `from_index` up and returns them, bottom
    /// first.
    pub fn pop_run(&mut self, from_index: usize) -> (r: Result<Vec<Card>, GameError>)
        requires
            old(self).wf(),
        ensures
            final(self).wf(),
            from_index > old(self)@.cards.len() ==> r == Err::<Vec<Card>, GameError>(
                GameError::IndexOutOfRange,
            ) && final(self)@ == old(self)@,
            from_index <= old(self)@.cards.len() ==> r is Ok && r->Ok_0@ == old(self)@.cards.subrange(
                from_index as int,
                old(self)@.cards.len() as int,
            ) && final(self)@ == old(self)@.cut(from_index as int),
    {
        if from_index > self.cards.len() {
            return Err(GameError::IndexOutOfRange);
        }
        let run = self.cards.split_off(from_index);
        self.details.len = from_index;
        if self.details.visible_index > from_index {
            self.details.visible_index = from_index;
        }
        if self.details.spread_index > from_index {
            self.details.spread_index = from_index;
        }
        let keeps = match self.details.selection_index {
            Some(i) => i < from_index,
            None => false,
        };
        if !keeps {
            self.details.selection_index = None;
            self.details.held = false;
        }
        Ok(run)
    }

    /// Whether `select(index)` succeeds: nothing is held yet, and `index`
    /// points at a card that shows its face.
    pub open spec fn selectable(&self, index: usize) -> bool {
        &&& self@.idle()
        &&& self@.details.visible_index <= index < self@.cards.len()
    }

    /// Selects the run from `index` up and picks it up.
    pub fn select(&mut self, index: usize) -> (r: Result<(), GameError>)
        requires
            old(self).wf(),
        ensures
            final(self).wf(),
            old(self).selectable(index) ==> r is Ok && final(self)@ == old(self)@.selected(index),
            !old(self).selectable(index) ==> r == Err::<(), GameError>(
                GameError::InvalidSelection,
            ) && final(self)@ == old(self)@,
    {
        if self.details.held || self.details.selection_index.is_some() || index
            < self.details.visible_index || index >= self.cards.len() {
            return Err(GameError::InvalidSelection);
        }
        self.details.selection_index = Some(index);
        self.details.held = true;
        Ok(())
    }

    /// Drops the selection, if there is one.
    pub fn deselect(&mut self)
        requires
            old(self).wf(),
        ensures
            final(self).wf(),
            final(self)@ == old(self)@.deselected(),
    {
        self.details.selection_index = None;
        self.details.held = false;
    }

    /// Turns the top card face up, if there is one and it lies face down.
    pub fn flip_top(&mut self)
        requires
            old(self).wf(),
        ensures
            final(self).wf(),
            old(self)@.top_hidden() ==> final(self)@ == old(self)@.top_shown(),
            !old(self)@.top_hidden() ==> final(self)@ == old(self)@,
    {
        let n = self.cards.len();
        if n > 0 && !self.cards[n - 1].face_up {
            let card = self.cards[n - 1];
            self.cards[n - 1] = Card { rank: card.rank, suit: card.suit, face_up: true };
            if self.details.visible_index > n - 1 {
                self.details.visible_index = n - 1;
            }
        }
    }

    /// Whether the cards from `index` up form a run: see `is_run`.
    pub fn holds_run(&self, index: usize) -> (b: bool)
        requires
            self.wf(),
        ensures
            b == is_run(self@.cards, index as int),
    {
        let n: usize = self.cards.len();
        if index >= n {
            return false;
        }
        let mut k: usize = index;
        while k < n
            invariant
                index <= k <= n,
                index < n,
                n == self@.cards.len(),
                forall|j: int| index <= j < k ==> (#[trigger] self@.cards[j]).face_up,
                forall|j: int| index <= j < k - 1 ==> #[trigger] steps_down(self@.cards, j),
            decreases n - k,
        {
            let card: Card = self.cards[k];
            if !card.face_up {
                return false;
            }
            if k > index {
                let below: Card = self.cards[k - 1];
                if !card.follows(below) {
                    assert(!steps_down(self@.cards, k - 1));
                    return false;
                }
            }
            k += 1;
        }
        true
    }

    /// Where the longest run at the top of the stack begins: the lowest
    /// index from which the cards form a run. `None` if the stack is empty
    /// or its top card lies face down.
    pub fn run_start(&self) -> (start: Option<usize>)
        requires
            self.wf(),
        ensures
            start is None <==> forall|i: int| !is_run(self@.cards, i),
            start is Some ==> is_run(self@.cards, start->Some_0 as int) && forall|i: int|
                i < start->Some_0 ==> !is_run(self@.cards, i),
    {
        let n: usize = self.cards.len();
        if n == 0 || !self.holds_run(n - 1) {
            assert forall|i: int| !is_run(self@.cards, i) by {
                if is_run(self@.cards, i) {
                    lemma_run_suffix(self@.cards, i, n - 1);
                }
            }
            return None;
        }
        let mut start: usize = n - 1;
        while start > 0 && self.holds_run(start - 1)
            invariant
                self.wf(),
                start < n,
                n == self@.cards.len(),
                is_run(self@.cards, start as int),
            decreases start,
        {
            start -= 1;
        }
        assert forall|i: int| i < start implies !is_run(self@.cards, i) by {
            if is_run(self@.cards, i) {
                lemma_run_suffix(self@.cards, i, start - 1);
            }
        }
        Some(start)
    }

    /// Lets the spread begin at `index`, which must lie between
    /// `visible_index` and the length.
    pub fn set_spread_index(&mut self, index: usize) -> (r: Result<(), GameError>)
        requires
            old(self).wf(),
        ensures
            final(self).wf(),
            old(self)@.details.visible_index <= index <= old(self)@.cards.len() ==> r is Ok
                && final(self)@ == old(self)@.spread_from(index),
            !(old(self)@.details.visible_index <= index <= old(self)@.cards.len()) ==> r == Err::<
                (),
                GameError,
            >(GameError::IndexOutOfRange) && final(self)@ == old(self)@,
    {
        if index < self.details.visible_index || index > self.cards.len() {
            return Err(GameError::IndexOutOfRange);
        }
        self.details.spread_index = index;
        Ok(())
    }

    /// The cards that show their faces, each with its index, bottom first.
    pub fn visible_cards(&self) -> (v: Vec<(usize, Card)>)
        requires
            self.wf(),
        ensures
            v@ == self@.visible(),
    {
        let mut v: Vec<(usize, Card)> = Vec::new();
        let mut i: usize = self.details.visible_index;
        let n: usize = self.cards.len();
        while i < n
            invariant
                self.wf(),
                n == self@.cards.len(),
                self@.details.visible_index <= i <= n,
                v@ == self@.visible().subrange(0, i - self@.details.visible_index),
            decreases n - i,
        {
            v.push((i, self.cards[i]));
            i += 1;
        }
        v
    }
}

} // verus!
