//! The deck of fifty-two cards, its shuffle and the deal.

use crate::model::card::{Card, CardId, Rank, Suit, DECK_LEN, RANKS, SUITS};
use crate::model::error::GameError;
use crate::model::stack::{Orientation, Stack, StackDetails};
use crate::model::tally::{
    all_distinct, ids, lemma_ids_concat, lemma_ids_once, lemma_ids_same_cards, lemma_ids_swap, lemma_piles_all_empty,
    lemma_piles_push, piles_ids, same_cards,
};
use vstd::multiset::Multiset;
use vstd::prelude::*;

verus! {

/// The card at place `i` of a new deck: suit by suit, each from ace to king,
/// face down.
pub open spec fn standard_card(i: int) -> Card {
    Card { rank: Rank::spec_from_value(i % 13 + 1), suit: Suit::spec_from_index(i / 13), face_up: false }
}

/// A new deck, in order.
pub open spec fn standard_deck() -> Seq<Card> {
    Seq::new(52, |i: int| standard_card(i))
}

/// Every card has its place in a new deck.
pub proof fn lemma_standard_deck_complete(rank: Rank, suit: Suit)
    ensures
        0 <= suit.spec_index() * 13 + rank.spec_value() - 1 < 52,
        standard_deck()[suit.spec_index() * 13 + rank.spec_value() - 1].id() == (rank, suit),
{
}

/// No card lies at two places of a new deck.
pub proof fn lemma_standard_deck_distinct(i: int, j: int)
    requires
        0 <= i < 52,
        0 <= j < 52,
        i != j,
    ensures
        standard_deck()[i].id() != standard_deck()[j].id(),
{
    let a = standard_card(i);
    let b = standard_card(j);
    assert(a.suit.spec_index() == i / 13);
    assert(b.suit.spec_index() == j / 13);
    assert(a.rank.spec_value() == i % 13 + 1);
    assert(b.rank.spec_value() == j % 13 + 1);
}

/// A new deck holds each of the fifty-two cards once.
pub proof fn lemma_standard_deck_once(rank: Rank, suit: Suit)
    ensures
        ids(standard_deck()).count((rank, suit)) == 1,
{
    assert(all_distinct(standard_deck())) by {
        assert forall|i: int, j: int|
            0 <= i < standard_deck().len() && 0 <= j < standard_deck().len() && i != j implies (
        #[trigger] standard_deck()[i]).id() != (#[trigger] standard_deck()[j]).id() by {
            lemma_standard_deck_distinct(i, j);
        }
    }
    lemma_standard_deck_complete(rank, suit);
    lemma_ids_once(standard_deck(), suit.spec_index() * 13 + rank.spec_value() - 1);
}

/// A new deck, in order.
pub fn new_deck() -> (deck: Vec<Card>)
    ensures
        deck@ == standard_deck(),
{
    let mut deck: Vec<Card> = Vec::new();
    let mut i: usize = 0;
    while i < DECK_LEN
        invariant
            i <= DECK_LEN,
            deck@.len() == i,
            forall|k: int| 0 <= k < i ==> deck@[k] == standard_card(k),
        decreases DECK_LEN - i,
    {
        let value: u8 = (i % RANKS + 1) as u8;
        match (Rank::from_value(value), Suit::from_index(i / RANKS)) {
            (Some(rank), Some(suit)) => {
                deck.push(Card::new(rank, suit));
            },
            _ => {},
        }
        i += 1;
    }
    assert(deck@ =~= standard_deck());
    deck
}

/// The state of the generator that follows `state`.
pub open spec fn next_state(state: u64) -> u64 {
    state.wrapping_mul(6364136223846793005u64).wrapping_add(1442695040888963407u64)
}

/// The place from 0 to `top` that the generator in `state` picks: its high
/// half, reduced.
pub open spec fn pick(state: u64, top: int) -> int {
    (state / 0x1_0000_0000u64) as int % (top + 1)
}

/// `cards` with the cards at `i` and `j` in each other's place.
pub open spec fn swapped(cards: Seq<Card>, i: int, j: int) -> Seq<Card> {
    cards.update(i, cards[j]).update(j, cards[i])
}

/// `cards` after the places from `top` down to 1 were each swapped with a
/// place at or below it that the generator picked, starting from `state`.
pub open spec fn shuffled(cards: Seq<Card>, top: int, state: u64) -> Seq<Card>
    decreases top,
{
    if top <= 0 || top >= cards.len() {
        cards
    } else {
        let state = next_state(state);
        shuffled(swapped(cards, top, pick(state, top)), top - 1, state)
    }
}

/// The deck that `shuffle_new_deck` returns for a seed.
pub open spec fn shuffled_deck(seed: u64) -> Seq<Card> {
    shuffled(standard_deck(), 51, seed)
}

/// A shuffle keeps the cards: their number, which cards they are, and that
/// they lie face down where they all did.
pub proof fn lemma_shuffled_keeps_cards(cards: Seq<Card>, top: int, state: u64)
    ensures
        shuffled(cards, top, state).len() == cards.len(),
        ids(shuffled(cards, top, state)) == ids(cards),
        (forall|i: int| 0 <= i < cards.len() ==> !(#[trigger] cards[i]).face_up) ==> forall|i: int|
            0 <= i < cards.len() ==> !(#[trigger] shuffled(cards, top, state)[i]).face_up,
    decreases top,
{
    if top <= 0 || top >= cards.len() {
    } else {
        let next = next_state(state);
        let j = pick(next, top);
        lemma_ids_swap(cards, top, j);
        lemma_shuffled_keeps_cards(swapped(cards, top, j), top - 1, next);
    }
}

/// Whatever the seed, the shuffled deck holds the fifty-two cards of a new
/// deck, each once, all face down.
pub proof fn lemma_shuffled_deck_is_full(seed: u64)
    ensures
        shuffled_deck(seed).len() == 52,
        ids(shuffled_deck(seed)) == ids(standard_deck()),
        forall|i: int| 0 <= i < 52 ==> !(#[trigger] shuffled_deck(seed)[i]).face_up,
{
    lemma_shuffled_keeps_cards(standard_deck(), 51, seed);
}

/// A new deck, shuffled. The same seed gives the same deck.
pub fn shuffle_new_deck(rng_seed: u64) -> (deck: Vec<Card>)
    ensures
        deck@ == shuffled_deck(rng_seed),
        deck@.len() == 52,
        ids(deck@) == ids(standard_deck()),
        forall|i: int| 0 <= i < 52 ==> !(#[trigger] deck@[i]).face_up,
{
    let mut deck: Vec<Card> = new_deck();
    let mut state: u64 = rng_seed;
    let mut top: usize = DECK_LEN - 1;
    while top > 0
        invariant
            top < DECK_LEN,
            deck@.len() == DECK_LEN,
            shuffled(deck@, top as int, state) == shuffled_deck(rng_seed),
        decreases top,
    {
        state = state.wrapping_mul(6364136223846793005u64).wrapping_add(1442695040888963407u64);
        let high: u64 = state / 0x1_0000_0000u64;
        let j: usize = (high % (top as u64 + 1)) as usize;
        let upper: Card = deck[top];
        let lower: Card = deck[j];
        deck[top] = lower;
        deck[j] = upper;
        top -= 1;
    }
    proof {
        lemma_shuffled_deck_is_full(rng_seed);
    }
    deck
}

/// The stacks of a game that was just dealt.
#[derive(Debug)]
pub struct Layout {
    pub stock: Stack,
    pub talon: Stack,
    /// One stack for each suit, in the order of `Suit::index`.
    pub foundation: Vec<Stack>,
    /// The columns, left to right.
    pub tableaux: Vec<Stack>,
}

/// How many cards the first `n` columns take: 1 + 2 + ... + n.
pub open spec fn triangle(n: int) -> int {
    n * (n + 1) / 2
}

/// The next triangular number.
pub proof fn lemma_triangle_step(n: int)
    requires
        n >= 0,
    ensures
        triangle(n + 1) == triangle(n) + n + 1,
        triangle(n) >= 0,
        triangle(0) == 0,
{
    assert((n + 1) * (n + 2) == n * (n + 1) + 2 * (n + 1)) by (nonlinear_arith);
    assert(n * (n + 1) >= 0) by (nonlinear_arith)
        requires
            n >= 0,
    ;
}

/// The marks of a stack of `len` cards of which those from `shown` up are
/// visible and spread, with nothing selected.
pub open spec fn plain_details(orientation: Orientation, len: int, shown: int) -> StackDetails {
    StackDetails {
        orientation,
        len: len as usize,
        visible_index: shown as usize,
        spread_index: shown as usize,
        selection_index: None,
        held: false,
    }
}

/// The cards that the deal puts on column `column`, counted from 0: the
/// next `column + 1` cards of the deck, the last of them face up.
pub open spec fn column_cards(deck: Seq<Card>, column: int) -> Seq<Card> {
    Seq::new((column + 1) as nat, |k: int| deck[triangle(column) + k].facing(k == column))
}

/// The cards that the deal leaves for the stock when there are `columns`
/// columns: the rest of the deck, face down.
pub open spec fn stock_cards(deck: Seq<Card>, columns: int) -> Seq<Card> {
    Seq::new((deck.len() - triangle(columns)) as nat, |k: int| deck[triangle(columns) + k].facing(false))
}

/// The cards of each stack of a row.
pub open spec fn piles_of(stacks: Seq<Stack>) -> Seq<Seq<Card>> {
    Seq::new(stacks.len(), |i: int| stacks[i]@.cards)
}

impl Layout {
    /// Whether `self` is what the deal makes of `deck` with `columns`
    /// columns.
    pub open spec fn dealt_from(&self, deck: Seq<Card>, columns: int) -> bool {
        &&& self.stock.wf()
        &&& self.stock@.cards == stock_cards(deck, columns)
        &&& self.stock@.details == plain_details(
            Orientation::Horizontal,
            deck.len() - triangle(columns),
            deck.len() - triangle(columns),
        )
        &&& self.talon.wf()
        &&& self.talon@.cards.len() == 0
        &&& self.talon@.details == plain_details(Orientation::Horizontal, 0, 0)
        &&& self.foundation@.len() == 4
        &&& forall|i: int|
            0 <= i < 4 ==> {
                &&& (#[trigger] self.foundation@[i]).wf()
                &&& self.foundation@[i]@.cards.len() == 0
                &&& self.foundation@[i]@.details == plain_details(Orientation::Horizontal, 0, 0)
            }
        &&& self.tableaux@.len() == columns
        &&& forall|i: int|
            0 <= i < columns ==> {
                &&& (#[trigger] self.tableaux@[i]).wf()
                &&& self.tableaux@[i]@.cards == column_cards(deck, i)
                &&& self.tableaux@[i]@.details == plain_details(Orientation::Vertical, i + 1, i)
            }
    }

    /// The identities of all cards in the layout.
    pub open spec fn all_cards(&self) -> Multiset<CardId> {
        ids(self.stock@.cards).add(ids(self.talon@.cards)).add(
            piles_ids(piles_of(self.foundation@)),
        ).add(piles_ids(piles_of(self.tableaux@)))
    }
}

/// Puts the cards of `deck` from `from` up to `to` on a new stack, face
/// down, but for the last one where `show_last` is set.
fn lay_out(deck: &Vec<Card>, from: usize, to: usize, orientation: Orientation, show_last: bool) -> (stack:
    Stack)
    requires
        from <= to <= deck@.len(),
        show_last ==> from < to,
    ensures
        stack.wf(),
        stack@.cards == Seq::new(
            (to - from) as nat,
            |k: int| deck@[from + k].facing(show_last && k == to - from - 1),
        ),
        stack@.details == plain_details(
            orientation,
            to - from,
            if show_last {
                to - from - 1
            } else {
                to - from
            },
        ),
        same_cards(stack@.cards, deck@.subrange(from as int, to as int)),
{
    let mut stack = Stack::new(orientation);
    let mut i: usize = from;
    while i < to
        invariant
            from <= i <= to <= deck@.len(),
            show_last ==> from < to,
            stack.wf(),
            stack@.cards =~= Seq::new(
                (i - from) as nat,
                |k: int| deck@[from + k].facing(show_last && k == to - from - 1),
            ),
            stack@.details == plain_details(
                orientation,
                i - from,
                if show_last && i == to {
                    to - from - 1
                } else {
                    i - from
                },
            ),
        decreases to - i,
    {
        let card: Card = deck[i];
        let face_up: bool = show_last && i + 1 == to;
        stack.push(Card { rank: card.rank, suit: card.suit, face_up });
        i += 1;
    }
    stack
}

/// Deals `deck` for a game with `tableaux_len` columns: column `i`, counted
/// from 0, gets the next `i + 1` cards, the last of them face up; the rest
/// goes to the stock, face down, the end of the deck on top. Talon and
/// foundations stay empty.
pub fn deal(deck: &Vec<Card>, tableaux_len: u8) -> (r: Result<Layout, GameError>)
    ensures
        deck@.len() < triangle(tableaux_len as int) ==> r is Err && r->Err_0
            == GameError::InsufficientCards,
        deck@.len() >= triangle(tableaux_len as int) ==> r is Ok && r->Ok_0.dealt_from(
            deck@,
            tableaux_len as int,
        ) && r->Ok_0.all_cards() == ids(deck@),
{
    let ghost columns = tableaux_len as int;
    let mut tableaux: Vec<Stack> = Vec::new();
    let mut next: usize = 0;
    let mut i: u8 = 0;
    proof {
        lemma_triangle_step(0);
        assert(deck@.subrange(0, 0) =~= Seq::<Card>::empty());
    }
    while i < tableaux_len
        invariant
            i <= tableaux_len,
            next == triangle(i as int),
            next <= deck@.len() || deck@.len() < triangle(tableaux_len as int),
            next <= 32640,
            tableaux@.len() == i,
            forall|k: int|
                0 <= k < i ==> {
                    &&& (#[trigger] tableaux@[k]).wf()
                    &&& tableaux@[k]@.cards == column_cards(deck@, k)
                    &&& tableaux@[k]@.details == plain_details(Orientation::Vertical, k + 1, k)
                },
            next <= deck@.len() ==> piles_ids(piles_of(tableaux@)) == ids(deck@.subrange(0, next as int)),
        decreases tableaux_len - i,
    {
        proof {
            lemma_triangle_step(i as int);
            lemma_triangle_bound(i as int + 1, tableaux_len as int);
        }
        let to: usize = next + i as usize + 1;
        if to > deck.len() {
            return Err(GameError::InsufficientCards);
        }
        let column = lay_out(deck, next, to, Orientation::Vertical, true);
        proof {
            assert(column@.cards =~= column_cards(deck@, i as int));
            lemma_piles_push(piles_of(tableaux@), column@.cards);
            assert(piles_of(tableaux@.push(column)) =~= piles_of(tableaux@).push(column@.cards));
            lemma_ids_same_cards(column@.cards, deck@.subrange(next as int, to as int));
            lemma_ids_concat(deck@.subrange(0, next as int), deck@.subrange(next as int, to as int));
            assert(deck@.subrange(0, next as int) + deck@.subrange(next as int, to as int) =~= deck@.subrange(
                0,
                to as int,
            ));
        }
        tableaux.push(column);
        next = to;
        i += 1;
    }
    if next > deck.len() {
        return Err(GameError::InsufficientCards);
    }
    let stock = lay_out(deck, next, deck.len(), Orientation::Horizontal, false);
    let talon = Stack::new(Orientation::Horizontal);
    let mut foundation: Vec<Stack> = Vec::new();
    let mut suit: usize = 0;
    while suit < SUITS
        invariant
            suit <= SUITS,
            foundation@.len() == suit,
            forall|k: int|
                0 <= k < suit ==> {
                    &&& (#[trigger] foundation@[k]).wf()
                    &&& foundation@[k]@.cards.len() == 0
                    &&& foundation@[k]@.details == plain_details(Orientation::Horizontal, 0, 0)
                },
        decreases SUITS - suit,
    {
        foundation.push(Stack::new(Orientation::Horizontal));
        suit += 1;
    }
    let layout = Layout { stock, talon, foundation, tableaux };
    proof {
        assert(layout.stock@.cards =~= stock_cards(deck@, columns));
        lemma_piles_all_empty(piles_of(layout.foundation@));
        lemma_ids_same_cards(layout.stock@.cards, deck@.subrange(next as int, deck@.len() as int));
        lemma_ids_concat(deck@.subrange(0, next as int), deck@.subrange(next as int, deck@.len() as int));
        assert(deck@.subrange(0, next as int) + deck@.subrange(next as int, deck@.len() as int) =~= deck@);
        assert(layout.all_cards() =~= ids(deck@));
    }
    Ok(layout)
}

/// Triangular numbers grow.
pub proof fn lemma_triangle_bound(n: int, m: int)
    requires
        0 <= n <= m,
    ensures
        triangle(n) <= triangle(m),
        m <= 255 ==> triangle(m) <= 32640,
{
    assert(n * (n + 1) <= m * (m + 1)) by (nonlinear_arith)
        requires
            0 <= n <= m,
    ;
    if m <= 255 {
        assert(m * (m + 1) <= 255 * 256) by (nonlinear_arith)
            requires
                0 <= m <= 255,
        ;
    }
}

} // verus!
