//! What holds of every valid game, whatever was played.

use crate::model::card::{Rank, Suit};
use crate::model::deck::lemma_standard_deck_once;
use crate::model::game::{
    foundation_card, lemma_after_cancel, lemma_after_deal_out, lemma_after_move, lemma_after_recycle,
    lemma_after_select, lemma_kinds, GameView, Play, StackRef,
};
use crate::model::stack::turned_over;
use crate::model::tally::{ids, lemma_ids_len};
use vstd::prelude::*;

verus! {

/// At most one stack holds a selection: two stacks of a valid game that are
/// both marked as held are the same stack, and it is the one that the
/// game's selection names.
pub proof fn lemma_single_selection(game: GameView, a: StackRef, b: StackRef)
    requires
        game.wf(),
        game.has(a),
        game.has(b),
        game.stack(a).details.held,
        game.stack(b).details.held,
    ensures
        a == b,
        game.selection is Some,
        game.selection->Some_0.source == a,
{
    assert(!game.stack(a).idle());
    assert(!game.stack(b).idle());
}

/// While nothing is selected no stack is marked.
pub proof fn lemma_idle_game(game: GameView, r: StackRef)
    requires
        game.wf(),
        game.has(r),
        game.selection is None,
    ensures
        !game.stack(r).details.held,
        game.stack(r).details.selection_index is None,
{
    assert(game.stack(r).idle());
}

/// A foundation holds the cards of its suit in order: the card at place `k`
/// from the bottom has rank `k + 1`.
pub proof fn lemma_foundation_order(game: GameView, suit: Suit, k: int)
    requires
        game.wf(),
        0 <= k < game.stack(StackRef::Foundation(suit)).cards.len(),
    ensures
        game.stack(StackRef::Foundation(suit)).cards[k].rank.spec_value() == k + 1,
        game.stack(StackRef::Foundation(suit)).cards[k].suit == suit,
        game.stack(StackRef::Foundation(suit)).cards[k].face_up,
        game.stack(StackRef::Foundation(suit)).cards.len() <= 13,
{
    lemma_kinds(game, StackRef::Foundation(suit));
    assert(game.stack(StackRef::Foundation(suit)).cards[k] == foundation_card(suit.spec_index(), k));
}

/// A draw that is not refused leaves a valid game with the same cards, and
/// the stock and the talon together hold what they held.
pub proof fn lemma_after_draw(game: GameView)
    requires
        game.wf(),
        game.draw_result() is Ok,
    ensures
        game.after_draw().wf(),
        game.after_draw().selection is None,
        game.after_draw().all_cards() == game.all_cards(),
        ids(game.after_draw().stock.cards).add(ids(game.after_draw().talon.cards)) == ids(
            game.stock.cards,
        ).add(ids(game.talon.cards)),
        game.after_draw().draw_result() is Ok,
{
    lemma_after_cancel(game);
    let put_back = game.after_cancel();
    assert(put_back.stock == game.stock);
    assert(put_back.talon.cards == game.talon.cards);
    if put_back.stock.cards.len() > 0 {
        lemma_after_deal_out(put_back);
    } else {
        lemma_after_recycle(put_back);
        assert(ids(put_back.after_recycle().talon.cards).len() == 0);
        assert(ids(put_back.stock.cards).len() == 0);
        assert(ids(put_back.after_recycle().stock.cards).add(ids(put_back.after_recycle().talon.cards))
            =~= ids(put_back.stock.cards).add(ids(put_back.talon.cards)));
    }
    let after = game.after_draw();
    if after.stock.cards.len() == 0 && after.talon.cards.len() == 0 {
        assert(ids(after.stock.cards).add(ids(after.talon.cards)).len() == 0);
        lemma_ids_len(game.stock.cards);
        lemma_ids_len(game.talon.cards);
    }
}

/// The game after `times` draws.
pub open spec fn after_draws(game: GameView, times: nat) -> GameView
    decreases times,
{
    if times == 0 {
        game
    } else {
        after_draws(game, (times - 1) as nat).after_draw()
    }
}

/// However often one draws, the stock and the talon together hold the cards
/// that they held at first.
pub proof fn lemma_draws_keep_cards(game: GameView, times: nat)
    requires
        game.wf(),
        game.draw_result() is Ok,
    ensures
        after_draws(game, times).wf(),
        after_draws(game, times).draw_result() is Ok,
        after_draws(game, times).all_cards() == game.all_cards(),
        ids(after_draws(game, times).stock.cards).add(ids(after_draws(game, times).talon.cards)) == ids(
            game.stock.cards,
        ).add(ids(game.talon.cards)),
    decreases times,
{
    if times > 0 {
        lemma_draws_keep_cards(game, (times - 1) as nat);
        lemma_after_draw(after_draws(game, (times - 1) as nat));
    }
}

/// Drawing until the stock is empty and then once more gives back a stock
/// that holds all the cards that stock and talon held at first, every one
/// face down, and an empty talon.
pub proof fn lemma_recycle_round_trip(game: GameView, times: nat)
    requires
        game.wf(),
        game.draw_result() is Ok,
        after_draws(game, times).stock.cards.len() == 0,
    ensures
        ids(after_draws(game, times + 1).stock.cards) == ids(game.stock.cards).add(ids(game.talon.cards)),
        after_draws(game, times + 1).talon.cards.len() == 0,
        forall|k: int|
            0 <= k < after_draws(game, times + 1).stock.cards.len() ==> !(#[trigger] after_draws(
                game,
                times + 1,
            ).stock.cards[k]).face_up,
        after_draws(game, times + 1).stock.cards == turned_over(after_draws(game, times).talon.cards, false),
{
    lemma_draws_keep_cards(game, times);
    let emptied = after_draws(game, times);
    lemma_after_cancel(emptied);
    let put_back = emptied.after_cancel();
    assert(put_back.stock == emptied.stock);
    assert(put_back.talon.cards == emptied.talon.cards);
    lemma_after_recycle(put_back);
    assert(after_draws(game, times + 1) == emptied.after_draw());
    assert(ids(emptied.stock.cards).add(ids(emptied.talon.cards)) =~= ids(emptied.talon.cards));
}

/// A game is won exactly when no foundation lacks a card: a valid game in
/// which some foundation holds fewer than thirteen cards is not won.
pub proof fn lemma_won(game: GameView)
    requires
        game.wf(),
    ensures
        game.won() <==> forall|suit: Suit|
            (#[trigger] game.stack(StackRef::Foundation(suit))).cards.len() == 13,
{
    if game.won() {
        assert forall|suit: Suit| (#[trigger] game.stack(StackRef::Foundation(suit))).cards.len() == 13 by {
            assert(game.foundation[suit.spec_index()].cards.len() == 13);
        }
    }
    if forall|suit: Suit| (#[trigger] game.stack(StackRef::Foundation(suit))).cards.len() == 13 {
        assert forall|k: int| 0 <= k < 4 implies (#[trigger] game.foundation[k]).cards.len() == 13 by {
            let suit = Suit::spec_from_index(k);
            assert(game.stack(StackRef::Foundation(suit)).cards.len() == 13);
        }
    }
}

/// Whatever is asked of a valid game, done or refused, the game stays valid
/// and holds the same cards.
pub proof fn lemma_play(game: GameView, play: Play)
    requires
        game.wf(),
    ensures
        game.played(play).wf(),
        game.played(play).all_cards() == game.all_cards(),
{
    lemma_after_cancel(game);
    match play {
        Play::Select(r, index) => {
            if game.select_result(r, index) is Ok {
                lemma_after_select(game, r, index);
            }
        },
        Play::Cancel => {},
        Play::MoveTo(target) => {
            if game.move_result(target) is Ok {
                lemma_after_move(game, target);
            }
        },
        Play::Draw => {
            if game.draw_result() is Ok {
                lemma_after_draw(game);
            }
        },
    }
}

/// The game after each of `plays` was asked for in turn.
pub open spec fn played_all(game: GameView, plays: Seq<Play>) -> GameView
    decreases plays.len(),
{
    if plays.len() == 0 {
        game
    } else {
        played_all(game, plays.drop_last()).played(plays.last())
    }
}

/// However a valid game is played, it stays valid and no card is lost or
/// added. A game that began with a full deck holds a full deck for ever.
pub proof fn lemma_conservation(game: GameView, plays: Seq<Play>)
    requires
        game.wf(),
    ensures
        played_all(game, plays).wf(),
        played_all(game, plays).all_cards() == game.all_cards(),
        game.is_full_deck() ==> played_all(game, plays).is_full_deck(),
    decreases plays.len(),
{
    if plays.len() > 0 {
        lemma_conservation(game, plays.drop_last());
        lemma_play(played_all(game, plays.drop_last()), plays.last());
    }
}

/// A game that holds a full deck holds each card exactly once: none twice,
/// none missing.
pub proof fn lemma_each_card_once(game: GameView, rank: Rank, suit: Suit)
    requires
        game.is_full_deck(),
    ensures
        game.all_cards().count((rank, suit)) == 1,
{
    lemma_standard_deck_once(rank, suit);
}

} // verus!
