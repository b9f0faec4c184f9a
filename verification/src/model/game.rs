//! The game: the stacks, the one selection that may be held, and the rules
//! for picking cards up, putting them down and drawing.

use crate::model::card::{Card, CardId, Rank, Suit, SUITS};
use crate::model::deck::{
    column_cards, deal, lemma_triangle_bound, piles_of, plain_details, shuffle_new_deck, shuffled_deck,
    standard_deck, stock_cards, triangle,
};
use crate::model::error::GameError;
use crate::model::settings::GameSettings;
use crate::model::stack::{
    is_run, lemma_pushed_all_hidden, lemma_pushed_all_shown, lemma_run_ranks, lemma_turned_over_ids,
    turn_over, turned_over, Orientation, Stack, StackView,
};
use crate::model::tally::{
    ids, lemma_ids_concat, lemma_ids_len, lemma_ids_same_cards, lemma_ids_split, lemma_piles_len,
    lemma_piles_update, piles_ids, same_cards,
};
use vstd::multiset::Multiset;
use vstd::prelude::*;

verus! {

/// Names one stack of the game.
#[derive(Copy, Clone, Debug, PartialEq, Eq, Hash, Structural)]
pub enum StackRef {
    Stock,
    Talon,
    /// The foundation of a suit.
    Foundation(Suit),
    /// A tableau column, counted from 0 at the left.
    Tableau(u8),
}

/// The run that is picked up: where it was taken from and at which card it
/// begins.
#[derive(Copy, Clone, Debug, PartialEq, Eq, Hash, Structural)]
pub struct Selection {
    pub source: StackRef,
    pub index: usize,
}

/// What a player can ask of the game.
#[derive(Copy, Clone, Debug, PartialEq, Eq, Hash, Structural)]
pub enum Play {
    /// Pick up the run that begins at the given index of a stack.
    Select(StackRef, usize),
    /// Put the selection back.
    Cancel,
    /// Put the selection on a stack.
    MoveTo(StackRef),
    /// Draw from the stock.
    Draw,
}

/// The card that lies at place `k` of the foundation of the suit with index
/// `suit`: ranks go up from the ace at the bottom.
pub open spec fn foundation_card(suit: int, k: int) -> Card {
    Card { rank: Rank::spec_from_value(k + 1), suit: Suit::spec_from_index(suit), face_up: true }
}

/// The cards of each of `stacks`.
pub open spec fn cards_of(stacks: Seq<StackView>) -> Seq<Seq<Card>> {
    Seq::new(stacks.len(), |i: int| stacks[i].cards)
}

/// What a stock is: every card face down, nothing ever selected.
pub open spec fn is_stock(stack: StackView) -> bool {
    &&& stack.wf()
    &&& stack.settled()
    &&& stack.details.visible_index == stack.cards.len()
    &&& stack.details.orientation == Orientation::Horizontal
    &&& stack.idle()
}

/// What a talon is: every card face up.
pub open spec fn is_talon(stack: StackView) -> bool {
    &&& stack.wf()
    &&& stack.details.visible_index == 0
    &&& stack.details.orientation == Orientation::Horizontal
}

/// What the foundation of the suit with index `suit` is: the cards of that
/// suit from the ace up, in order, face up, laid squarely.
pub open spec fn is_foundation(stack: StackView, suit: int) -> bool {
    &&& stack.wf()
    &&& stack.cards.len() <= 13
    &&& forall|k: int| 0 <= k < stack.cards.len() ==> #[trigger] stack.cards[k] == foundation_card(suit, k)
    &&& stack.details.visible_index == 0
    &&& stack.details.spread_index == stack.cards.len()
    &&& stack.details.orientation == Orientation::Horizontal
}

/// What a tableau column is: face-down cards below, face-up cards above,
/// the face-up ones spread.
pub open spec fn is_tableau(stack: StackView) -> bool {
    &&& stack.wf()
    &&& stack.settled()
    &&& stack.details.spread_index == stack.details.visible_index
    &&& stack.details.orientation == Orientation::Vertical
}

/// Whether `stack` is what the stack that `r` names must be.
pub open spec fn is_kind(stack: StackView, r: StackRef) -> bool {
    match r {
        StackRef::Stock => is_stock(stack),
        StackRef::Talon => is_talon(stack),
        StackRef::Foundation(suit) => is_foundation(stack, suit.spec_index()),
        StackRef::Tableau(_) => is_tableau(stack),
    }
}

/// What a game is to a specification.
pub struct GameView {
    pub settings: GameSettings,
    pub stock: StackView,
    pub talon: StackView,
    /// One stack for each suit, in the order of `Suit::index`.
    pub foundation: Seq<StackView>,
    /// The columns, left to right.
    pub tableaux: Seq<StackView>,
    pub selection: Option<Selection>,
}

impl GameView {
    /// Whether `r` names a stack of this game.
    pub open spec fn has(self, r: StackRef) -> bool {
        match r {
            StackRef::Tableau(i) => i < self.tableaux.len(),
            _ => true,
        }
    }

    /// The stack that `r` names.
    pub open spec fn stack(self, r: StackRef) -> StackView {
        match r {
            StackRef::Stock => self.stock,
            StackRef::Talon => self.talon,
            StackRef::Foundation(suit) => self.foundation[suit.spec_index()],
            StackRef::Tableau(i) => self.tableaux[i as int],
        }
    }

    /// The game with `stack` in the place that `r` names.
    pub open spec fn with_stack(self, r: StackRef, stack: StackView) -> GameView {
        match r {
            StackRef::Stock => GameView { stock: stack, ..self },
            StackRef::Talon => GameView { talon: stack, ..self },
            StackRef::Foundation(suit) => GameView {
                foundation: self.foundation.update(suit.spec_index(), stack),
                ..self
            },
            StackRef::Tableau(i) => GameView { tableaux: self.tableaux.update(i as int, stack), ..self },
        }
    }

    /// The identities of all cards of the game, each as often as it occurs.
    pub open spec fn all_cards(self) -> Multiset<CardId> {
        ids(self.stock.cards).add(ids(self.talon.cards)).add(piles_ids(cards_of(self.foundation))).add(
            piles_ids(cards_of(self.tableaux)),
        )
    }

    /// Whether the game holds exactly the cards of a full deck, each once.
    pub open spec fn is_full_deck(self) -> bool {
        self.all_cards() == ids(standard_deck())
    }

    /// See `is_stock`.
    pub open spec fn stock_wf(self) -> bool {
        is_stock(self.stock)
    }

    /// See `is_talon`.
    pub open spec fn talon_wf(self) -> bool {
        is_talon(self.talon)
    }

    /// See `is_foundation`.
    pub open spec fn foundation_wf(self, suit: int) -> bool {
        is_foundation(self.foundation[suit], suit)
    }

    /// See `is_tableau`.
    pub open spec fn tableau_wf(self, column: int) -> bool {
        is_tableau(self.tableaux[column])
    }

    /// Whether the selection, if there is one, is marked on its stack and on
    /// no other, and is a run that may be picked up there.
    pub open spec fn selection_wf(self) -> bool {
        &&& forall|r: StackRef|
            self.has(r) && !(self.selection matches Some(sel) && sel.source == r) ==> (#[trigger] self.stack(
                r,
            )).idle()
        &&& match self.selection {
            None => true,
            Some(sel) => {
                let stack = self.stack(sel.source);
                &&& self.has(sel.source)
                &&& stack.details.selection_index == Some(sel.index)
                &&& stack.details.held
                &&& match sel.source {
                    StackRef::Stock => false,
                    StackRef::Talon => sel.index + 1 == stack.cards.len(),
                    StackRef::Foundation(_) => sel.index + 1 == stack.cards.len(),
                    StackRef::Tableau(_) => is_run(stack.cards, sel.index as int),
                }
            },
        }
    }

    /// The validity of a game.
    pub open spec fn wf(self) -> bool {
        &&& self.foundation.len() == 4
        &&& self.tableaux.len() == self.settings.tableaux_len
        &&& self.stock_wf()
        &&& self.talon_wf()
        &&& forall|suit: int| 0 <= suit < 4 ==> #[trigger] self.foundation_wf(suit)
        &&& forall|column: int| 0 <= column < self.tableaux.len() ==> #[trigger] self.tableau_wf(column)
        &&& self.selection_wf()
        &&& self.all_cards().len() <= usize::MAX
    }

    /// What `select_at` answers.
    ///
    /// Nothing is taken from the stock, nor from a foundation unless the
    /// settings allow it: `ForbiddenSource`. A column that the game does not
    /// have: `IndexOutOfRange`. While a selection is held, or where `index`
    /// is not the top card of the talon or of a foundation, or no card of a
    /// column: `InvalidSelection`. Cards of a column that do not form a run
    /// from `index` up: `InvalidRun`.
    pub open spec fn select_result(self, r: StackRef, index: usize) -> Result<(), GameError> {
        match r {
            StackRef::Stock => Err(GameError::ForbiddenSource),
            StackRef::Talon => if self.selection is Some || index + 1 != self.talon.cards.len() {
                Err(GameError::InvalidSelection)
            } else {
                Ok(())
            },
            StackRef::Foundation(suit) => if !self.settings.take_from_foundation {
                Err(GameError::ForbiddenSource)
            } else if self.selection is Some || index + 1 != self.foundation[suit.spec_index()].cards.len() {
                Err(GameError::InvalidSelection)
            } else {
                Ok(())
            },
            StackRef::Tableau(i) => if i >= self.tableaux.len() {
                Err(GameError::IndexOutOfRange)
            } else if self.selection is Some || index >= self.tableaux[i as int].cards.len() {
                Err(GameError::InvalidSelection)
            } else if !is_run(self.tableaux[i as int].cards, index as int) {
                Err(GameError::InvalidRun)
            } else {
                Ok(())
            },
        }
    }

    /// The game after the run from `index` up of the stack `r` was picked
    /// up.
    pub open spec fn after_select(self, r: StackRef, index: usize) -> GameView {
        GameView {
            selection: Some(Selection { source: r, index }),
            ..self.with_stack(r, self.stack(r).selected(index))
        }
    }

    /// The game after the selection, if there was one, was put back.
    pub open spec fn after_cancel(self) -> GameView {
        match self.selection {
            None => self,
            Some(sel) => GameView {
                selection: None,
                ..self.with_stack(sel.source, self.stack(sel.source).deselected())
            },
        }
    }

    /// How many cards a draw takes from the stock: as many as the settings
    /// say, or all that are left.
    pub open spec fn draw_count(self) -> int {
        if self.settings.draw_from_stock_len <= self.stock.cards.len() {
            self.settings.draw_from_stock_len as int
        } else {
            self.stock.cards.len() as int
        }
    }

    /// What `draw` answers.
    pub open spec fn draw_result(self) -> Result<(), GameError> {
        if self.stock.cards.len() == 0 && self.talon.cards.len() == 0 {
            Err(GameError::NothingToRecycle)
        } else {
            Ok(())
        }
    }

    /// The game after a draw from a stock that is not empty. The cards
    /// taken from the top of the stock lie on the talon face up, the first
    /// one taken lowest, and are the ones that are spread.
    pub open spec fn after_deal_out(self) -> GameView {
        let rest = self.stock.cards.len() - self.draw_count();
        GameView {
            stock: self.stock.cut(rest),
            talon: self.talon.pushed_all(
                turned_over(self.stock.cards.subrange(rest, self.stock.cards.len() as int), true),
            ).spread_from(self.talon.details.len),
            ..self
        }
    }

    /// The game after the talon was turned over onto the empty stock.
    pub open spec fn after_recycle(self) -> GameView {
        GameView {
            stock: self.stock.pushed_all(turned_over(self.talon.cards, false)),
            talon: self.talon.cut(0),
            ..self
        }
    }

    /// The game after a draw that was not refused: the selection is put
    /// back, then cards go from the stock to the talon or, where the stock
    /// is empty, the talon goes back to the stock.
    pub open spec fn after_draw(self) -> GameView {
        let game = self.after_cancel();
        if game.stock.cards.len() > 0 {
            game.after_deal_out()
        } else {
            game.after_recycle()
        }
    }

    /// The cards that are picked up, lowest first. Empty where nothing is
    /// selected.
    pub open spec fn held_run(self) -> Seq<Card> {
        match self.selection {
            None => Seq::empty(),
            Some(sel) => {
                let cards = self.stack(sel.source).cards;
                cards.subrange(sel.index as int, cards.len() as int)
            },
        }
    }

    /// What `move_selection_to` answers.
    ///
    /// Nothing can be put on the stock or the talon. A foundation takes one
    /// card at a time, of its own suit, the ace first and then each time the
    /// card one rank above its top card. An empty column takes a run that
    /// begins with a king; any other column takes a run whose lowest card
    /// is one rank below the column's top card and of the other colour, if
    /// that top card lies face up.
    ///
    /// Without a selection: `NoActiveSelection`. Onto the stock or the
    /// talon: `ForbiddenTarget`. Onto a column that the game does not have:
    /// `IndexOutOfRange`. More than one card onto a foundation, or a card of
    /// the wrong rank: `InvalidRunLength`. A card of another suit onto a
    /// foundation, or a run that does not continue a column: `InvalidRun`.
    pub open spec fn move_result(self, target: StackRef) -> Result<(), GameError> {
        if self.selection is None {
            Err(GameError::NoActiveSelection)
        } else {
            let run = self.held_run();
            match target {
                StackRef::Stock => Err(GameError::ForbiddenTarget),
                StackRef::Talon => Err(GameError::ForbiddenTarget),
                StackRef::Foundation(suit) => {
                    let pile = self.foundation[suit.spec_index()].cards;
                    if run.len() != 1 {
                        Err(GameError::InvalidRunLength)
                    } else if run[0].suit != suit {
                        Err(GameError::InvalidRun)
                    } else if pile.len() == 0 && run[0].rank != Rank::Ace {
                        Err(GameError::InvalidRunLength)
                    } else if pile.len() > 0 && run[0].rank.spec_value() != pile.last().rank.spec_value() + 1 {
                        Err(GameError::InvalidRunLength)
                    } else {
                        Ok(())
                    }
                },
                StackRef::Tableau(i) => if i >= self.tableaux.len() {
                    Err(GameError::IndexOutOfRange)
                } else {
                    let pile = self.tableaux[i as int].cards;
                    if pile.len() == 0 {
                        if run[0].rank == Rank::King {
                            Ok(())
                        } else {
                            Err(GameError::InvalidRun)
                        }
                    } else if pile.last().face_up && run[0].spec_follows(pile.last()) {
                        Ok(())
                    } else {
                        Err(GameError::InvalidRun)
                    }
                },
            }
        }
    }

    /// The stack that the selection was taken from, after the run has left
    /// it. A column shows its new top card and spreads what it shows.
    pub open spec fn source_after(self) -> StackView {
        let sel = self.selection->Some_0;
        let left = self.stack(sel.source).cut(sel.index as int);
        match sel.source {
            StackRef::Tableau(_) => {
                let shown = if left.top_hidden() {
                    left.top_shown()
                } else {
                    left
                };
                shown.spread_from(shown.details.visible_index)
            },
            _ => left,
        }
    }

    /// The stack `target` after the run has come to lie on it. A foundation
    /// stays squared.
    pub open spec fn target_after(self, target: StackRef) -> StackView {
        let grown = self.stack(target).pushed_all(self.held_run());
        match target {
            StackRef::Foundation(_) => grown.spread_from(grown.details.len),
            _ => grown,
        }
    }

    /// The game after the selection was moved to `target`.
    pub open spec fn after_move(self, target: StackRef) -> GameView {
        let sel = self.selection->Some_0;
        GameView {
            selection: None,
            ..self.with_stack(sel.source, self.source_after()).with_stack(target, self.target_after(target))
        }
    }

    /// What the game answers to `play`.
    pub open spec fn play_result(self, play: Play) -> Result<(), GameError> {
        match play {
            Play::Select(r, index) => self.select_result(r, index),
            Play::Cancel => Ok(()),
            Play::MoveTo(target) => self.move_result(target),
            Play::Draw => self.draw_result(),
        }
    }

    /// The game after `play` was asked for, whether it was done or refused.
    /// A selection that is refused changes nothing; a move or a draw that is
    /// refused still puts the selection back.
    pub open spec fn played(self, play: Play) -> GameView {
        match play {
            Play::Select(r, index) => if self.select_result(r, index) is Ok {
                self.after_select(r, index)
            } else {
                self
            },
            Play::Cancel => self.after_cancel(),
            Play::MoveTo(target) => if self.selection is None {
                self
            } else if self.move_result(target) is Ok {
                self.after_move(target)
            } else {
                self.after_cancel()
            },
            Play::Draw => if self.draw_result() is Ok {
                self.after_draw()
            } else {
                self.after_cancel()
            },
        }
    }

    /// Whether the game is won: each foundation holds its thirteen cards.
    pub open spec fn won(self) -> bool {
        forall|suit: int| 0 <= suit < 4 ==> (#[trigger] self.foundation[suit]).cards.len() == 13
    }
}

/// A game of Klondike.
#[derive(Debug)]
pub struct Game {
    settings: GameSettings,
    stock: Stack,
    talon: Stack,
    foundation: Vec<Stack>,
    tableaux: Vec<Stack>,
    selection: Option<Selection>,
}

/// What each of `stacks` is to a specification.
pub open spec fn views_of(stacks: Seq<Stack>) -> Seq<StackView> {
    Seq::new(stacks.len(), |i: int| stacks[i]@)
}

impl View for Game {
    type V = GameView;

    closed spec fn view(&self) -> GameView {
        GameView {
            settings: self.settings,
            stock: self.stock@,
            talon: self.talon@,
            foundation: views_of(self.foundation@),
            tableaux: views_of(self.tableaux@),
            selection: self.selection,
        }
    }
}

/// An empty stack as a specification sees it.
pub open spec fn empty_stack(orientation: Orientation) -> StackView {
    StackView { cards: Seq::empty(), details: plain_details(orientation, 0, 0) }
}

/// The game that is dealt from `deck` under `settings`: see `deal`.
pub open spec fn dealt_game(settings: GameSettings, deck: Seq<Card>) -> GameView {
    let columns = settings.tableaux_len as int;
    let rest = deck.len() - triangle(columns);
    GameView {
        settings,
        stock: StackView {
            cards: stock_cards(deck, columns),
            details: plain_details(Orientation::Horizontal, rest, rest),
        },
        talon: empty_stack(Orientation::Horizontal),
        foundation: Seq::new(4, |suit: int| empty_stack(Orientation::Horizontal)),
        tableaux: Seq::new(
            columns as nat,
            |i: int|
                StackView {
                    cards: column_cards(deck, i),
                    details: plain_details(Orientation::Vertical, i + 1, i),
                },
        ),
        selection: None,
    }
}

/// A game that was just dealt is valid, if its cards can be counted.
pub proof fn lemma_dealt_game_wf(settings: GameSettings, deck: Seq<Card>)
    requires
        triangle(settings.tableaux_len as int) <= deck.len() <= usize::MAX,
        dealt_game(settings, deck).all_cards().len() <= usize::MAX,
    ensures
        dealt_game(settings, deck).wf(),
{
    let game = dealt_game(settings, deck);
    lemma_triangle_bound(0, settings.tableaux_len as int);
    assert(game.stock_wf());
    assert(game.talon_wf());
    assert forall|suit: int| 0 <= suit < 4 implies #[trigger] game.foundation_wf(suit) by {}
    assert forall|column: int| 0 <= column < game.tableaux.len() implies #[trigger] game.tableau_wf(
        column,
    ) by {
        lemma_triangle_bound(column, settings.tableaux_len as int);
    }
    assert forall|r: StackRef| game.has(r) implies (#[trigger] game.stack(r)).idle() by {}
    assert(game.selection_wf());
}

/// Two suits with the same index are the same suit.
pub proof fn lemma_suit_index_injective(a: Suit, b: Suit)
    requires
        a.spec_index() == b.spec_index(),
    ensures
        a == b,
{
}

/// Putting a stack in the place of another changes that place and no other.
pub proof fn lemma_with_stack(game: GameView, r: StackRef, stack: StackView, q: StackRef)
    requires
        game.foundation.len() == 4,
        game.has(r),
        game.has(q),
    ensures
        game.with_stack(r, stack).has(q),
        q == r ==> game.with_stack(r, stack).stack(q) == stack,
        q != r ==> game.with_stack(r, stack).stack(q) == game.stack(q),
{
    match (r, q) {
        (StackRef::Foundation(a), StackRef::Foundation(b)) => {
            if a.spec_index() == b.spec_index() {
                lemma_suit_index_injective(a, b);
            }
        },
        _ => {},
    }
}

/// Changing only the selection marks of one stack, and the selection with
/// them, keeps the cards of a game where they are. The game stays valid if
/// the new marks and the new selection fit each other.
pub proof fn lemma_marks_keep_game(
    game: GameView,
    r: StackRef,
    stack: StackView,
    selection: Option<Selection>,
)
    requires
        game.wf(),
        game.has(r),
        r != StackRef::Stock,
        stack.cards == game.stack(r).cards,
        stack.details.orientation == game.stack(r).details.orientation,
        stack.details.len == game.stack(r).details.len,
        stack.details.visible_index == game.stack(r).details.visible_index,
        stack.details.spread_index == game.stack(r).details.spread_index,
        stack.wf(),
        (GameView { selection, ..game.with_stack(r, stack) }).selection_wf(),
    ensures
        (GameView { selection, ..game.with_stack(r, stack) }).wf(),
        (GameView { selection, ..game.with_stack(r, stack) }).all_cards() == game.all_cards(),
{
    let after = GameView { selection, ..game.with_stack(r, stack) };
    match r {
        StackRef::Stock => {},
        StackRef::Talon => {},
        StackRef::Foundation(suit) => {
            assert(cards_of(after.foundation) =~= cards_of(game.foundation));
            assert(game.foundation_wf(suit.spec_index()));
        },
        StackRef::Tableau(i) => {
            assert(cards_of(after.tableaux) =~= cards_of(game.tableaux));
            assert(game.tableau_wf(i as int));
        },
    }
    assert forall|suit: int| 0 <= suit < 4 implies #[trigger] after.foundation_wf(suit) by {
        assert(game.foundation_wf(suit));
    }
    assert forall|column: int| 0 <= column < after.tableaux.len() implies #[trigger] after.tableau_wf(
        column,
    ) by {
        assert(game.tableau_wf(column));
    }
    assert(after.stock_wf());
    assert(after.talon_wf());
}

/// Picking up a run that may be picked up leaves a valid game with the same
/// cards.
pub proof fn lemma_after_select(game: GameView, r: StackRef, index: usize)
    requires
        game.wf(),
        game.select_result(r, index) is Ok,
    ensures
        game.after_select(r, index).wf(),
        game.after_select(r, index).all_cards() == game.all_cards(),
{
    let stack = game.stack(r).selected(index);
    let after = game.after_select(r, index);
    assert forall|q: StackRef| after.has(q) && q != r implies (#[trigger] after.stack(q)).idle() by {
        lemma_with_stack(game, r, stack, q);
        assert(game.stack(q).idle());
    }
    lemma_with_stack(game, r, stack, r);
    match r {
        StackRef::Foundation(suit) => {
            assert(game.foundation_wf(suit.spec_index()));
        },
        StackRef::Tableau(i) => {
            assert(game.tableau_wf(i as int));
        },
        _ => {},
    }
    assert(after.selection_wf());
    lemma_marks_keep_game(game, r, stack, after.selection);
}

/// Putting the selection back leaves a valid game with the same cards.
pub proof fn lemma_after_cancel(game: GameView)
    requires
        game.wf(),
    ensures
        game.after_cancel().wf(),
        game.after_cancel().all_cards() == game.all_cards(),
        game.after_cancel().selection is None,
{
    match game.selection {
        None => {},
        Some(sel) => {
            let r = sel.source;
            let stack = game.stack(r).deselected();
            let after = game.after_cancel();
            assert forall|q: StackRef| after.has(q) implies (#[trigger] after.stack(q)).idle() by {
                lemma_with_stack(game, r, stack, q);
                if q != r {
                    assert(game.stack(q).idle());
                }
            }
            match r {
                StackRef::Foundation(suit) => {
                    assert(game.foundation_wf(suit.spec_index()));
                },
                StackRef::Tableau(i) => {
                    assert(game.tableau_wf(i as int));
                },
                _ => {},
            }
            lemma_marks_keep_game(game, r, stack, None);
        },
    }
}

/// No stack, and no two stacks together, hold more cards than the game.
pub proof fn lemma_counts(game: GameView)
    requires
        game.foundation.len() == 4,
    ensures
        game.stock.cards.len() + game.talon.cards.len() <= game.all_cards().len(),
        forall|r: StackRef, q: StackRef|
            game.has(r) && game.has(q) && r != q ==> (#[trigger] game.stack(r)).cards.len() + (#[trigger] game.stack(
                q,
            )).cards.len() <= game.all_cards().len(),
{
    lemma_ids_len(game.stock.cards);
    lemma_ids_len(game.talon.cards);
    let founds = cards_of(game.foundation);
    let columns = cards_of(game.tableaux);
    assert forall|r: StackRef, q: StackRef| game.has(r) && game.has(q) && r != q implies (#[trigger] game.stack(
        r,
    )).cards.len() + (#[trigger] game.stack(q)).cards.len() <= game.all_cards().len() by {
        lemma_stack_count(game, r);
        lemma_stack_count(game, q);
        match (r, q) {
            (StackRef::Foundation(a), StackRef::Foundation(b)) => {
                if a.spec_index() == b.spec_index() {
                    lemma_suit_index_injective(a, b);
                }
                lemma_piles_len(founds, a.spec_index(), b.spec_index());
            },
            (StackRef::Tableau(i), StackRef::Tableau(j)) => {
                lemma_piles_len(columns, i as int, j as int);
            },
            _ => {},
        }
    }
}

/// A stack holds no more cards than its part of the game.
pub proof fn lemma_stack_count(game: GameView, r: StackRef)
    requires
        game.foundation.len() == 4,
        game.has(r),
    ensures
        match r {
            StackRef::Stock => game.stack(r).cards.len() == ids(game.stock.cards).len(),
            StackRef::Talon => game.stack(r).cards.len() == ids(game.talon.cards).len(),
            StackRef::Foundation(_) => game.stack(r).cards.len() <= piles_ids(cards_of(game.foundation)).len(),
            StackRef::Tableau(_) => game.stack(r).cards.len() <= piles_ids(cards_of(game.tableaux)).len(),
        },
{
    lemma_ids_len(game.stock.cards);
    lemma_ids_len(game.talon.cards);
    match r {
        StackRef::Foundation(a) => {
            lemma_piles_len(cards_of(game.foundation), a.spec_index(), a.spec_index());
        },
        StackRef::Tableau(i) => {
            lemma_piles_len(cards_of(game.tableaux), i as int, i as int);
        },
        _ => {},
    }
}

/// A draw from a stock that is not empty leaves a valid game with the same
/// cards.
pub proof fn lemma_after_deal_out(game: GameView)
    requires
        game.wf(),
        game.selection is None,
    ensures
        game.after_deal_out().wf(),
        game.after_deal_out().all_cards() == game.all_cards(),
        ids(game.after_deal_out().stock.cards).add(ids(game.after_deal_out().talon.cards)) == ids(
            game.stock.cards,
        ).add(ids(game.talon.cards)),
{
    let after = game.after_deal_out();
    let len = game.stock.cards.len() as int;
    let rest = len - game.draw_count();
    let taken = game.stock.cards.subrange(rest, len);
    let drawn = turned_over(taken, true);
    lemma_pushed_all_shown(game.talon, drawn);
    lemma_turned_over_ids(taken, true);
    lemma_ids_split(game.stock.cards, rest);
    lemma_ids_concat(game.talon.cards, drawn);
    lemma_counts(game);
    assert(after.talon.cards == game.talon.cards + drawn);
    assert(ids(after.stock.cards).add(ids(after.talon.cards)) =~= ids(game.stock.cards).add(
        ids(game.talon.cards),
    ));
    assert(after.all_cards() =~= game.all_cards());
    assert(after.stock_wf());
    assert(after.talon_wf());
    assert forall|suit: int| 0 <= suit < 4 implies #[trigger] after.foundation_wf(suit) by {
        assert(game.foundation_wf(suit));
    }
    assert forall|column: int| 0 <= column < after.tableaux.len() implies #[trigger] after.tableau_wf(
        column,
    ) by {
        assert(game.tableau_wf(column));
    }
    assert forall|r: StackRef| after.has(r) implies (#[trigger] after.stack(r)).idle() by {
        assert(game.stack(r).idle());
    }
}

/// Turning the talon over onto the empty stock leaves a valid game with the
/// same cards, all of the stock face down.
pub proof fn lemma_after_recycle(game: GameView)
    requires
        game.wf(),
        game.selection is None,
        game.stock.cards.len() == 0,
        game.talon.cards.len() > 0,
    ensures
        game.after_recycle().wf(),
        game.after_recycle().all_cards() == game.all_cards(),
        game.after_recycle().talon.cards.len() == 0,
        game.after_recycle().stock.cards == turned_over(game.talon.cards, false),
        ids(game.after_recycle().stock.cards) == ids(game.talon.cards),
{
    let after = game.after_recycle();
    let turned = turned_over(game.talon.cards, false);
    lemma_pushed_all_hidden(game.stock, turned);
    lemma_turned_over_ids(game.talon.cards, false);
    assert(game.stock.cards + turned =~= turned);
    assert(game.stock.cards =~= Seq::<Card>::empty());
    assert(after.talon.cards =~= Seq::<Card>::empty());
    lemma_counts(game);
    assert(after.all_cards() =~= game.all_cards());
    assert(after.stock_wf());
    assert(after.talon_wf());
    assert forall|suit: int| 0 <= suit < 4 implies #[trigger] after.foundation_wf(suit) by {
        assert(game.foundation_wf(suit));
    }
    assert forall|column: int| 0 <= column < after.tableaux.len() implies #[trigger] after.tableau_wf(
        column,
    ) by {
        assert(game.tableau_wf(column));
    }
    assert forall|r: StackRef| after.has(r) implies (#[trigger] after.stack(r)).idle() by {
        assert(game.stack(r).idle());
    }
}

/// One stack replaced by another: its old cards leave the game, the new
/// ones come.
pub proof fn lemma_with_stack_cards(game: GameView, r: StackRef, stack: StackView)
    requires
        game.foundation.len() == 4,
        game.has(r),
    ensures
        game.with_stack(r, stack).all_cards().add(ids(game.stack(r).cards)) == game.all_cards().add(
            ids(stack.cards),
        ),
{
    let after = game.with_stack(r, stack);
    let left = after.all_cards().add(ids(game.stack(r).cards));
    let right = game.all_cards().add(ids(stack.cards));
    match r {
        StackRef::Stock => {},
        StackRef::Talon => {},
        StackRef::Foundation(suit) => {
            let k = suit.spec_index();
            assert(cards_of(after.foundation) =~= cards_of(game.foundation).update(k, stack.cards));
            lemma_piles_update(cards_of(game.foundation), k, stack.cards);
            let before = piles_ids(cards_of(after.foundation)).add(ids(game.foundation[k].cards));
            let then = piles_ids(cards_of(game.foundation)).add(ids(stack.cards));
            assert forall|v: CardId| left.count(v) == right.count(v) by {
                assert(before.count(v) == then.count(v));
            }
        },
        StackRef::Tableau(i) => {
            let k = i as int;
            assert(cards_of(after.tableaux) =~= cards_of(game.tableaux).update(k, stack.cards));
            lemma_piles_update(cards_of(game.tableaux), k, stack.cards);
            let before = piles_ids(cards_of(after.tableaux)).add(ids(game.tableaux[k].cards));
            let then = piles_ids(cards_of(game.tableaux)).add(ids(stack.cards));
            assert forall|v: CardId| left.count(v) == right.count(v) by {
                assert(before.count(v) == then.count(v));
            }
        },
    }
    assert(left =~= right);
}

/// The cards that are picked up lie face up.
pub proof fn lemma_held_run_shown(game: GameView)
    requires
        game.wf(),
        game.selection is Some,
    ensures
        game.held_run().len() > 0,
        game.selection->Some_0.index < game.stack(game.selection->Some_0.source).cards.len(),
        forall|k: int| 0 <= k < game.held_run().len() ==> (#[trigger] game.held_run()[k]).face_up,
{
    let sel = game.selection->Some_0;
    let cards = game.stack(sel.source).cards;
    assert forall|k: int| 0 <= k < game.held_run().len() implies (#[trigger] game.held_run()[k]).face_up by {
        let at = sel.index + k;
        match sel.source {
            StackRef::Stock => {},
            StackRef::Talon => {
                assert(cards[at].face_up);
            },
            StackRef::Foundation(suit) => {
                assert(game.foundation_wf(suit.spec_index()));
                assert(cards[at] == foundation_card(suit.spec_index(), at));
            },
            StackRef::Tableau(i) => {
                assert(cards[at].face_up);
            },
        }
    }
}

/// A run cannot be put on the stack that it was taken from.
pub proof fn lemma_no_move_onto_source(game: GameView, target: StackRef)
    requires
        game.wf(),
        game.move_result(target) is Ok,
    ensures
        game.selection is Some,
        game.selection->Some_0.source != target,
        game.has(target),
{
    let sel = game.selection->Some_0;
    let cards = game.stack(sel.source).cards;
    if sel.source == target {
        match target {
            StackRef::Foundation(suit) => {
                let k = suit.spec_index();
                assert(game.foundation_wf(k));
                assert(cards[sel.index as int] == foundation_card(k, sel.index as int));
                assert(game.held_run()[0] == cards[sel.index as int]);
                assert(cards.last() == cards[sel.index as int]);
            },
            StackRef::Tableau(i) => {
                lemma_run_ranks(cards, sel.index as int, cards.len() - 1);
                assert(game.held_run()[0] == cards[sel.index as int]);
                assert(cards.last() == cards[cards.len() - 1]);
            },
            _ => {},
        }
    }
}

/// Every stack of a valid game is what a stack of its kind must be.
pub proof fn lemma_kinds(game: GameView, r: StackRef)
    requires
        game.wf(),
        game.has(r),
    ensures
        is_kind(game.stack(r), r),
        game.stack(r).wf(),
{
    match r {
        StackRef::Foundation(suit) => {
            assert(game.foundation_wf(suit.spec_index()));
        },
        StackRef::Tableau(i) => {
            assert(game.tableau_wf(i as int));
        },
        _ => {},
    }
}

/// The stack that a run has left holds the cards below the run, has nothing
/// selected and is still a stack of its kind.
pub proof fn lemma_source_after(game: GameView)
    requires
        game.wf(),
        game.selection is Some,
    ensures
        is_kind(game.source_after(), game.selection->Some_0.source),
        game.source_after().idle(),
        same_cards(
            game.source_after().cards,
            game.stack(game.selection->Some_0.source).cards.subrange(0, game.selection->Some_0.index as int),
        ),
{
    let sel = game.selection->Some_0;
    let index = sel.index as int;
    let before = game.stack(sel.source);
    let left = before.cut(index);
    lemma_kinds(game, sel.source);
    lemma_held_run_shown(game);
    match sel.source {
        StackRef::Tableau(i) => {
            assert(game.held_run()[0] == before.cards[index]);
            assert(before.cards[index].face_up);
            if left.top_hidden() {
                assert(!before.cards[index - 1].face_up);
            }
        },
        _ => {},
    }
}

/// The stack that a run has come to lie on holds its old cards and the run,
/// has nothing selected and is still a stack of its kind.
pub proof fn lemma_target_after(game: GameView, target: StackRef)
    requires
        game.wf(),
        game.move_result(target) is Ok,
    ensures
        is_kind(game.target_after(target), target),
        game.target_after(target).idle(),
        game.target_after(target).cards == game.stack(target).cards + game.held_run(),
{
    lemma_no_move_onto_source(game, target);
    lemma_held_run_shown(game);
    lemma_kinds(game, target);
    let sel = game.selection->Some_0;
    let run = game.held_run();
    let before = game.stack(target);
    let after = game.target_after(target);
    assert(before.idle());
    lemma_pushed_all_shown(before, run);
    lemma_counts(game);
    assert(game.stack(sel.source).cards.len() + before.cards.len() <= usize::MAX);
    assert(run[0].face_up);
    match target {
        StackRef::Foundation(suit) => {
            let k = suit.spec_index();
            assert forall|j: int| 0 <= j < after.cards.len() implies #[trigger] after.cards[j]
                == foundation_card(k, j) by {
                if j < before.cards.len() {
                    assert(after.cards[j] == before.cards[j]);
                } else {
                    assert(after.cards[j] == run[0]);
                    if before.cards.len() > 0 {
                        assert(before.cards.last() == foundation_card(k, before.cards.len() - 1));
                    }
                }
            }
        },
        StackRef::Tableau(i) => {
            if before.cards.len() > 0 {
                assert(before.cards[before.cards.len() - 1].face_up);
            }
            assert forall|j: int| after.details.visible_index <= j < after.cards.len() implies (
            #[trigger] after.cards[j]).face_up by {
                if j < before.cards.len() {
                    assert(before.cards[j].face_up);
                } else {
                    assert(run[j - before.cards.len()].face_up);
                }
            }
            assert forall|j: int| 0 <= j < after.details.visible_index && j < after.cards.len() implies !(
            #[trigger] after.cards[j]).face_up by {
                assert(!before.cards[j].face_up);
            }
        },
        _ => {},
    }
}

/// A move neither adds nor loses a card.
pub proof fn lemma_move_keeps_cards(game: GameView, target: StackRef)
    requires
        game.wf(),
        game.move_result(target) is Ok,
    ensures
        game.after_move(target).all_cards() == game.all_cards(),
{
    lemma_no_move_onto_source(game, target);
    lemma_source_after(game);
    lemma_target_after(game, target);
    let sel = game.selection->Some_0;
    let source = sel.source;
    let index = sel.index as int;
    let run = game.held_run();
    let old_source = game.stack(source);
    let old_target = game.stack(target);
    let new_source = game.source_after();
    let new_target = game.target_after(target);
    let between = game.with_stack(source, new_source);
    let moved = between.with_stack(target, new_target);
    lemma_ids_same_cards(new_source.cards, old_source.cards.subrange(0, index));
    lemma_ids_split(old_source.cards, index);
    lemma_ids_concat(old_target.cards, run);
    lemma_with_stack_cards(game, source, new_source);
    lemma_with_stack(game, source, new_source, target);
    lemma_with_stack_cards(between, target, new_target);
    let a1 = between.all_cards().add(ids(old_source.cards));
    let a2 = game.all_cards().add(ids(new_source.cards));
    let b1 = moved.all_cards().add(ids(old_target.cards));
    let b2 = between.all_cards().add(ids(new_target.cards));
    assert forall|v: CardId| moved.all_cards().count(v) == game.all_cards().count(v) by {
        assert(a1.count(v) == a2.count(v));
        assert(b1.count(v) == b2.count(v));
    }
    assert(moved.all_cards() =~= game.all_cards());
    assert(game.after_move(target).all_cards() == moved.all_cards());
}

/// What each stack is after a move: the source and the target are new, the
/// others are as they were.
pub proof fn lemma_move_stacks(game: GameView, target: StackRef, r: StackRef)
    requires
        game.wf(),
        game.move_result(target) is Ok,
        game.has(r),
    ensures
        game.after_move(target).has(r),
        r == target ==> game.after_move(target).stack(r) == game.target_after(target),
        r == game.selection->Some_0.source ==> game.after_move(target).stack(r) == game.source_after(),
        r != target && r != game.selection->Some_0.source ==> game.after_move(target).stack(r)
            == game.stack(r),
{
    lemma_no_move_onto_source(game, target);
    let source = game.selection->Some_0.source;
    let between = game.with_stack(source, game.source_after());
    lemma_with_stack(game, source, game.source_after(), r);
    lemma_with_stack(game, source, game.source_after(), target);
    lemma_with_stack(between, target, game.target_after(target), r);
}

/// A move that the rules allow leaves a valid game with the same cards and
/// nothing selected.
pub proof fn lemma_after_move(game: GameView, target: StackRef)
    requires
        game.wf(),
        game.move_result(target) is Ok,
    ensures
        game.after_move(target).wf(),
        game.after_move(target).all_cards() == game.all_cards(),
        game.after_move(target).selection is None,
{
    let after = game.after_move(target);
    let source = game.selection->Some_0.source;
    lemma_no_move_onto_source(game, target);
    lemma_source_after(game);
    lemma_target_after(game, target);
    lemma_move_keeps_cards(game, target);
    assert forall|r: StackRef| after.has(r) implies (#[trigger] after.stack(r)).idle() && is_kind(
        after.stack(r),
        r,
    ) by {
        lemma_move_stacks(game, target, r);
        lemma_kinds(game, r);
        if r != source && r != target {
            assert(game.stack(r).idle());
        }
    }
    assert(is_kind(after.stack(StackRef::Stock), StackRef::Stock));
    assert(is_kind(after.stack(StackRef::Talon), StackRef::Talon));
    assert forall|k: int| 0 <= k < 4 implies #[trigger] after.foundation_wf(k) by {
        let r = StackRef::Foundation(Suit::spec_from_index(k));
        assert(is_kind(after.stack(r), r));
    }
    assert forall|c: int| 0 <= c < after.tableaux.len() implies #[trigger] after.tableau_wf(c) by {
        let r = StackRef::Tableau(c as u8);
        assert(is_kind(after.stack(r), r));
    }
}

impl Game {
    /// See `GameView::wf`.
    pub open spec fn wf(&self) -> bool {
        self@.wf()
    }

    /// A game dealt from `deck`, which is taken as it lies: see `deal`.
    pub fn new(settings: GameSettings, deck: &Vec<Card>) -> (r: Result<Game, GameError>)
        ensures
            deck@.len() < triangle(settings.tableaux_len as int) ==> r is Err && r->Err_0
                == GameError::InsufficientCards,
            deck@.len() >= triangle(settings.tableaux_len as int) ==> r is Ok && r->Ok_0.wf() && r->Ok_0@
                == dealt_game(settings, deck@),
            r is Ok ==> r->Ok_0@.all_cards() == ids(deck@),
    {
        let deck_len: usize = deck.len();
        match deal(deck, settings.tableaux_len) {
            Err(e) => Err(e),
            Ok(layout) => {
                let ghost dealt = layout;
                let game = Game {
                    settings,
                    stock: layout.stock,
                    talon: layout.talon,
                    foundation: layout.foundation,
                    tableaux: layout.tableaux,
                    selection: None,
                };
                proof {
                    let view = dealt_game(settings, deck@);
                    assert(game@.foundation =~= view.foundation) by {
                        assert forall|suit: int| 0 <= suit < 4 implies game@.foundation[suit]
                            == view.foundation[suit] by {
                            assert(dealt.foundation@[suit].wf());
                            assert(dealt.foundation@[suit]@.cards =~= Seq::<Card>::empty());
                        }
                    }
                    assert(game@.tableaux =~= view.tableaux) by {
                        assert forall|i: int| 0 <= i < view.tableaux.len() implies game@.tableaux[i]
                            == view.tableaux[i] by {
                            assert(dealt.tableaux@[i].wf());
                        }
                    }
                    assert(game@.talon.cards =~= Seq::<Card>::empty());
                    assert(game@ == view);
                    assert(cards_of(game@.foundation) =~= piles_of(dealt.foundation@));
                    assert(cards_of(game@.tableaux) =~= piles_of(dealt.tableaux@));
                    assert(game@.all_cards() == dealt.all_cards());
                    lemma_ids_len(deck@);
                    lemma_dealt_game_wf(settings, deck@);
                }
                Ok(game)
            },
        }
    }

    /// A game dealt from a new deck that was shuffled with `rng_seed`: the
    /// same seed gives the same game.
    pub fn with_seed(settings: GameSettings, rng_seed: u64) -> (r: Result<Game, GameError>)
        ensures
            triangle(settings.tableaux_len as int) > 52 ==> r is Err && r->Err_0
                == GameError::InsufficientCards,
            triangle(settings.tableaux_len as int) <= 52 ==> r is Ok && r->Ok_0.wf() && r->Ok_0@
                == dealt_game(settings, shuffled_deck(rng_seed)) && r->Ok_0@.is_full_deck(),
    {
        let deck = shuffle_new_deck(rng_seed);
        Game::new(settings, &deck)
    }

    /// Whether the game is won.
    pub fn is_won(&self) -> (won: bool)
        requires
            self.wf(),
        ensures
            won == self@.won(),
    {
        let mut suit: usize = 0;
        while suit < SUITS
            invariant
                suit <= SUITS,
                self.wf(),
                forall|k: int| 0 <= k < suit ==> (#[trigger] self@.foundation[k]).cards.len() == 13,
            decreases SUITS - suit,
        {
            proof {
                assert(self@.foundation_wf(suit as int));
            }
            if self.foundation[suit].len() != 13 {
                return false;
            }
            suit += 1;
        }
        true
    }

    pub fn settings(&self) -> (s: GameSettings)
        ensures
            s == self@.settings,
    {
        self.settings
    }

    pub fn stock(&self) -> (s: &Stack)
        ensures
            s@ == self@.stock,
    {
        &self.stock
    }

    pub fn talon(&self) -> (s: &Stack)
        ensures
            s@ == self@.talon,
    {
        &self.talon
    }

    /// The foundations, each with its suit, in the order of `Suit::index`.
    pub fn foundation(&self) -> (stacks: Vec<(Suit, &Stack)>)
        requires
            self.wf(),
        ensures
            stacks@.len() == 4,
            forall|i: int|
                0 <= i < 4 ==> (#[trigger] stacks@[i]).0 == Suit::spec_from_index(i) && stacks@[i].1@
                    == self@.foundation[i] && stacks@[i].1.wf(),
    {
        let mut stacks: Vec<(Suit, &Stack)> = Vec::new();
        let mut i: usize = 0;
        while i < SUITS
            invariant
                i <= SUITS,
                self.wf(),
                stacks@.len() == i,
                forall|k: int|
                    0 <= k < i ==> (#[trigger] stacks@[k]).0 == Suit::spec_from_index(k) && stacks@[k].1@
                        == self@.foundation[k] && stacks@[k].1.wf(),
            decreases SUITS - i,
        {
            proof {
                assert(self@.foundation_wf(i as int));
            }
            match Suit::from_index(i) {
                Some(suit) => {
                    stacks.push((suit, &self.foundation[i]));
                },
                None => {},
            }
            i += 1;
        }
        stacks
    }

    /// The tableau columns, left to right.
    pub fn tableaux(&self) -> (stacks: Vec<&Stack>)
        requires
            self.wf(),
        ensures
            stacks@.len() == self@.tableaux.len(),
            forall|i: int|
                0 <= i < stacks@.len() ==> (#[trigger] stacks@[i])@ == self@.tableaux[i] && stacks@[i].wf(),
    {
        let mut stacks: Vec<&Stack> = Vec::new();
        let mut i: usize = 0;
        let len: usize = self.tableaux.len();
        while i < len
            invariant
                i <= len,
                len == self@.tableaux.len(),
                self.wf(),
                stacks@.len() == i,
                forall|k: int| 0 <= k < i ==> (#[trigger] stacks@[k])@ == self@.tableaux[k] && stacks@[k].wf(),
            decreases len - i,
        {
            proof {
                assert(self@.tableau_wf(i as int));
            }
            stacks.push(&self.tableaux[i]);
            i += 1;
        }
        stacks
    }

    /// The selection that is held, if there is one.
    pub fn selection(&self) -> (s: Option<Selection>)
        ensures
            s == self@.selection,
    {
        self.selection
    }

    /// Picks up the run that begins at `index` of the stack `stack_ref`.
    ///
    /// Nothing may be taken from the stock, and from a foundation only where
    /// the settings allow it. From the talon and from a foundation only the
    /// top card can be picked up; from a tableau any run. While a selection
    /// is held no second one can be made.
    pub fn select_at(&mut self, stack_ref: StackRef, index: usize) -> (r: Result<(), GameError>)
        requires
            old(self).wf(),
        ensures
            final(self).wf(),
            r == old(self)@.select_result(stack_ref, index),
            r is Ok ==> final(self)@ == old(self)@.after_select(stack_ref, index),
            r is Err ==> final(self)@ == old(self)@,
            r is Ok && stack_ref is Tableau ==> is_run(old(self)@.stack(stack_ref).cards, index as int),
            final(self)@.all_cards() == old(self)@.all_cards(),
    {
        let ghost before = self@;
        match stack_ref {
            StackRef::Stock => {
                return Err(GameError::ForbiddenSource);
            },
            StackRef::Talon => {
                if self.selection.is_some() || index >= self.talon.len() || index + 1 != self.talon.len() {
                    return Err(GameError::InvalidSelection);
                }
                proof {
                    assert(before.stack(StackRef::Talon).idle());
                }
                let picked = self.talon.select(index);
                assert(picked is Ok);
            },
            StackRef::Foundation(suit) => {
                if !self.settings.take_from_foundation {
                    return Err(GameError::ForbiddenSource);
                }
                let place: usize = suit.index();
                proof {
                    assert(before.foundation_wf(place as int));
                    assert(before.stack(StackRef::Foundation(suit)).idle() || before.selection is Some);
                }
                if self.selection.is_some() || index >= self.foundation[place].len() || index + 1
                    != self.foundation[place].len() {
                    return Err(GameError::InvalidSelection);
                }
                let picked = self.foundation[place].select(index);
                assert(picked is Ok);
            },
            StackRef::Tableau(i) => {
                if i as usize >= self.tableaux.len() {
                    return Err(GameError::IndexOutOfRange);
                }
                proof {
                    assert(before.tableau_wf(i as int));
                    assert(before.stack(StackRef::Tableau(i)).idle() || before.selection is Some);
                }
                if self.selection.is_some() || index >= self.tableaux[i as usize].len() {
                    return Err(GameError::InvalidSelection);
                }
                if !self.tableaux[i as usize].holds_run(index) {
                    return Err(GameError::InvalidRun);
                }
                assert(before.tableaux[i as int].cards[index as int].face_up);
                let picked = self.tableaux[i as usize].select(index);
                assert(picked is Ok);
            },
        }
        self.selection = Some(Selection { source: stack_ref, index });
        proof {
            let after = before.after_select(stack_ref, index);
            assert(self@.foundation =~= after.foundation);
            assert(self@.tableaux =~= after.tableaux);
            assert(self@ == after);
            lemma_after_select(before, stack_ref, index);
        }
        Ok(())
    }

    /// Puts the selection back where it was. Nothing happens if nothing is
    /// selected.
    pub fn cancel_selection(&mut self)
        requires
            old(self).wf(),
        ensures
            final(self).wf(),
            final(self)@ == old(self)@.after_cancel(),
            final(self)@.selection is None,
            final(self)@.all_cards() == old(self)@.all_cards(),
    {
        let ghost before = self@;
        proof {
            lemma_after_cancel(before);
        }
        match self.selection {
            None => {},
            Some(sel) => {
                match sel.source {
                    StackRef::Stock => {},
                    StackRef::Talon => {
                        self.talon.deselect();
                    },
                    StackRef::Foundation(suit) => {
                        let place: usize = suit.index();
                        proof {
                            assert(before.foundation_wf(place as int));
                        }
                        self.foundation[place].deselect();
                    },
                    StackRef::Tableau(i) => {
                        proof {
                            assert(before.tableau_wf(i as int));
                        }
                        self.tableaux[i as usize].deselect();
                    },
                }
                self.selection = None;
                proof {
                    let after = before.after_cancel();
                    assert(self@.foundation =~= after.foundation);
                    assert(self@.tableaux =~= after.tableaux);
                }
            },
        }
    }

    /// Draws. Whatever is selected is put back first. If the stock holds
    /// cards, as many as the settings say, or as many as there are, go from
    /// its top to the talon, face up, the last one taken on top. If the
    /// stock is empty, the talon is turned over and becomes the stock.
    pub fn draw(&mut self) -> (r: Result<(), GameError>)
        requires
            old(self).wf(),
        ensures
            final(self).wf(),
            r == old(self)@.draw_result(),
            r is Ok ==> final(self)@ == old(self)@.after_draw(),
            r is Err ==> final(self)@ == old(self)@.after_cancel(),
            final(self)@.selection is None,
            final(self)@.all_cards() == old(self)@.all_cards(),
    {
        self.cancel_selection();
        let ghost game = self@;
        proof {
            lemma_counts(game);
        }
        if self.stock.is_empty() {
            if self.talon.is_empty() {
                return Err(GameError::NothingToRecycle);
            }
            proof {
                lemma_after_recycle(game);
            }
            let cards: Vec<Card> = match self.talon.pop_run(0) {
                Ok(cards) => cards,
                Err(_) => Vec::new(),
            };
            assert(cards@ =~= game.talon.cards);
            let turned: Vec<Card> = turn_over(&cards, false);
            self.stock.push_all(&turned);
        } else {
            proof {
                lemma_after_deal_out(game);
            }
            let len: usize = self.stock.len();
            let count: usize = if self.settings.draw_from_stock_len <= len {
                self.settings.draw_from_stock_len
            } else {
                len
            };
            let base: usize = self.talon.len();
            let cards: Vec<Card> = match self.stock.pop_run(len - count) {
                Ok(cards) => cards,
                Err(_) => Vec::new(),
            };
            let turned: Vec<Card> = turn_over(&cards, true);
            self.talon.push_all(&turned);
            let spread = self.talon.set_spread_index(base);
            proof {
                lemma_pushed_all_shown(game.talon, turned@);
                assert(spread is Ok);
            }
        }
        Ok(())
    }

    /// The stack that `stack_ref` names, if the game has it.
    pub fn stack(&self, stack_ref: StackRef) -> (s: Option<&Stack>)
        requires
            self.wf(),
        ensures
            self@.has(stack_ref) ==> s is Some && s->Some_0@ == self@.stack(stack_ref) && s->Some_0.wf(),
            !self@.has(stack_ref) ==> s is None,
    {
        proof {
            if self@.has(stack_ref) {
                lemma_kinds(self@, stack_ref);
            }
        }
        match stack_ref {
            StackRef::Stock => Some(&self.stock),
            StackRef::Talon => Some(&self.talon),
            StackRef::Foundation(suit) => Some(&self.foundation[suit.index()]),
            StackRef::Tableau(i) => if (i as usize) < self.tableaux.len() {
                Some(&self.tableaux[i as usize])
            } else {
                None
            },
        }
    }

    /// Whether the run that is held may be put on `target`.
    fn verdict(&self, sel: Selection, target: StackRef) -> (r: Result<(), GameError>)
        requires
            self.wf(),
            self@.selection == Some(sel),
        ensures
            r == self@.move_result(target),
    {
        proof {
            lemma_held_run_shown(self@);
            lemma_kinds(self@, sel.source);
        }
        let source: &Stack = match self.stack(sel.source) {
            Some(stack) => stack,
            None => &self.stock,
        };
        let bottom: Card = match source.get(sel.index) {
            Some(card) => *card,
            None => Card::new(Rank::Ace, Suit::Clubs),
        };
        let run_len: usize = source.len() - sel.index;
        assert(self@.held_run()[0] == bottom);
        assert(self@.held_run().len() == run_len);
        match target {
            StackRef::Stock => Err(GameError::ForbiddenTarget),
            StackRef::Talon => Err(GameError::ForbiddenTarget),
            StackRef::Foundation(suit) => {
                let pile: &Stack = &self.foundation[suit.index()];
                proof {
                    assert(self@.foundation_wf(suit.spec_index()));
                }
                if run_len != 1 {
                    Err(GameError::InvalidRunLength)
                } else if bottom.suit != suit {
                    Err(GameError::InvalidRun)
                } else {
                    match pile.top() {
                        None => if bottom.rank != Rank::Ace {
                            Err(GameError::InvalidRunLength)
                        } else {
                            Ok(())
                        },
                        Some(top) => if bottom.rank.value() != top.rank.value() + 1 {
                            Err(GameError::InvalidRunLength)
                        } else {
                            Ok(())
                        },
                    }
                }
            },
            StackRef::Tableau(i) => {
                if i as usize >= self.tableaux.len() {
                    return Err(GameError::IndexOutOfRange);
                }
                let pile: &Stack = &self.tableaux[i as usize];
                proof {
                    assert(self@.tableau_wf(i as int));
                }
                match pile.top() {
                    None => if bottom.rank == Rank::King {
                        Ok(())
                    } else {
                        Err(GameError::InvalidRun)
                    },
                    Some(top) => if top.face_up && bottom.follows(*top) {
                        Ok(())
                    } else {
                        Err(GameError::InvalidRun)
                    },
                }
            },
        }
    }

    /// Puts the run that is held on the stack `target`, if the rules allow
    /// it: see `GameView::move_result`. If they do not, the run goes back
    /// to where it was taken from. Either way nothing is selected
    /// afterwards, unless nothing was selected before.
    pub fn move_selection_to(&mut self, target: StackRef) -> (r: Result<(), GameError>)
        requires
            old(self).wf(),
        ensures
            final(self).wf(),
            r == old(self)@.move_result(target),
            r is Ok ==> final(self)@ == old(self)@.after_move(target),
            r is Err ==> final(self)@ == old(self)@.after_cancel(),
            final(self)@.selection is None,
            final(self)@.all_cards() == old(self)@.all_cards(),
    {
        let ghost game = self@;
        let sel: Selection = match self.selection {
            None => {
                return Err(GameError::NoActiveSelection);
            },
            Some(sel) => sel,
        };
        match self.verdict(sel, target) {
            Err(e) => {
                self.cancel_selection();
                return Err(e);
            },
            Ok(()) => {},
        }
        proof {
            lemma_after_move(game, target);
            lemma_no_move_onto_source(game, target);
            lemma_held_run_shown(game);
            lemma_kinds(game, sel.source);
            lemma_kinds(game, target);
            lemma_counts(game);
            lemma_source_after(game);
            lemma_target_after(game, target);
            assert(game.stack(sel.source).cards.len() + game.stack(target).cards.len() <= usize::MAX);
        }
        let run: Vec<Card> = match sel.source {
            StackRef::Stock => Vec::new(),
            StackRef::Talon => match self.talon.pop_run(sel.index) {
                Ok(run) => run,
                Err(_) => Vec::new(),
            },
            StackRef::Foundation(suit) => match self.foundation[suit.index()].pop_run(sel.index) {
                Ok(run) => run,
                Err(_) => Vec::new(),
            },
            StackRef::Tableau(i) => {
                let column: usize = i as usize;
                let run: Vec<Card> = match self.tableaux[column].pop_run(sel.index) {
                    Ok(run) => run,
                    Err(_) => Vec::new(),
                };
                self.tableaux[column].flip_top();
                let shown: usize = self.tableaux[column].details().visible_index;
                let spread = self.tableaux[column].set_spread_index(shown);
                assert(spread is Ok);
                run
            },
        };
        assert(run@ == game.held_run());
        let ghost between = self@;
        proof {
            assert(between.foundation =~= game.with_stack(sel.source, game.source_after()).foundation);
            assert(between.tableaux =~= game.with_stack(sel.source, game.source_after()).tableaux);
            assert(between == game.with_stack(sel.source, game.source_after()));
            lemma_with_stack(game, sel.source, game.source_after(), target);
        }
        match target {
            StackRef::Foundation(suit) => {
                let place: usize = suit.index();
                self.foundation[place].push_all(&run);
                let len: usize = self.foundation[place].len();
                let spread = self.foundation[place].set_spread_index(len);
                assert(spread is Ok);
            },
            StackRef::Tableau(i) => {
                self.tableaux[i as usize].push_all(&run);
            },
            _ => {},
        }
        self.selection = None;
        proof {
            let after = game.after_move(target);
            assert(self@.foundation =~= after.foundation);
            assert(self@.tableaux =~= after.tableaux);
            assert(self@ == after);
        }
        Ok(())
    }

    /// Does what `play` asks for, if the rules allow it.
    pub fn apply(&mut self, play: Play) -> (r: Result<(), GameError>)
        requires
            old(self).wf(),
        ensures
            final(self).wf(),
            r == old(self)@.play_result(play),
            final(self)@ == old(self)@.played(play),
            final(self)@.all_cards() == old(self)@.all_cards(),
    {
        match play {
            Play::Select(stack_ref, index) => self.select_at(stack_ref, index),
            Play::Cancel => {
                self.cancel_selection();
                Ok(())
            },
            Play::MoveTo(target) => self.move_selection_to(target),
            Play::Draw => self.draw(),
        }
    }
}

} // verus!
