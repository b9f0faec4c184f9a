//! Counting cards by what they are: the multiset of identities that a
//! sequence of cards, or a row of piles, holds. Turning a card over or moving
//! it does not change the count.

use crate::model::card::{Card, CardId};
use vstd::multiset::Multiset;
use vstd::prelude::*;

verus! {

/// The identities of the cards in `cards`, each as often as it occurs.
pub open spec fn ids(cards: Seq<Card>) -> Multiset<CardId>
    decreases cards.len(),
{
    if cards.len() == 0 {
        Multiset::empty()
    } else {
        ids(cards.drop_last()).insert(cards.last().id())
    }
}

/// The identities of the cards in all of `piles`.
pub open spec fn piles_ids(piles: Seq<Seq<Card>>) -> Multiset<CardId>
    decreases piles.len(),
{
    if piles.len() == 0 {
        Multiset::empty()
    } else {
        piles_ids(piles.drop_last()).add(ids(piles.last()))
    }
}

/// Whether two sequences hold the same cards at the same places, whichever
/// side of each shows.
pub open spec fn same_cards(a: Seq<Card>, b: Seq<Card>) -> bool {
    &&& a.len() == b.len()
    &&& forall|i: int| 0 <= i < a.len() ==> (#[trigger] a[i]).id() == b[i].id()
}

/// A card put on top adds its identity.
pub proof fn lemma_ids_push(cards: Seq<Card>, card: Card)
    ensures
        ids(cards.push(card)) == ids(cards).insert(card.id()),
{
    assert(cards.push(card).drop_last() =~= cards);
}

/// The count of a sequence laid on another is the sum of the two counts.
pub proof fn lemma_ids_concat(a: Seq<Card>, b: Seq<Card>)
    ensures
        ids(a + b) == ids(a).add(ids(b)),
    decreases b.len(),
{
    if b.len() == 0 {
        assert(a + b =~= a);
        assert(ids(a).add(ids(b)) =~= ids(a));
    } else {
        lemma_ids_concat(a, b.drop_last());
        assert((a + b).drop_last() =~= a + b.drop_last());
        assert((a + b).last() == b.last());
        assert(ids(a + b) =~= ids(a).add(ids(b)));
    }
}

/// Cutting a sequence in two loses and adds nothing.
pub proof fn lemma_ids_split(cards: Seq<Card>, at: int)
    requires
        0 <= at <= cards.len(),
    ensures
        ids(cards) == ids(cards.subrange(0, at)).add(ids(cards.subrange(at, cards.len() as int))),
{
    lemma_ids_concat(cards.subrange(0, at), cards.subrange(at, cards.len() as int));
    assert(cards.subrange(0, at) + cards.subrange(at, cards.len() as int) =~= cards);
}

/// Turning cards over does not change which cards they are.
pub proof fn lemma_ids_same_cards(a: Seq<Card>, b: Seq<Card>)
    requires
        same_cards(a, b),
    ensures
        ids(a) == ids(b),
    decreases a.len(),
{
    if a.len() > 0 {
        assert(same_cards(a.drop_last(), b.drop_last())) by {
            assert forall|i: int| 0 <= i < a.drop_last().len() implies (#[trigger] a.drop_last()[i]).id()
                == b.drop_last()[i].id() by {
                assert(a[i].id() == b[i].id());
            }
        }
        lemma_ids_same_cards(a.drop_last(), b.drop_last());
        assert(a.last() == a[a.len() - 1]);
        assert(a[a.len() - 1].id() == b[a.len() - 1].id());
    }
}

/// Reversing a sequence does not change which cards it holds.
pub proof fn lemma_ids_reverse(cards: Seq<Card>)
    ensures
        ids(cards.reverse()) == ids(cards),
    decreases cards.len(),
{
    if cards.len() > 0 {
        let rest = cards.drop_last();
        let top = cards.last();
        lemma_ids_reverse(rest);
        assert(cards.reverse() =~= seq![top] + rest.reverse());
        lemma_ids_concat(seq![top], rest.reverse());
        lemma_ids_push(Seq::<Card>::empty(), top);
        assert(seq![top] =~= Seq::<Card>::empty().push(top));
        assert(ids(cards.reverse()) =~= ids(cards));
    } else {
        assert(cards.reverse() =~= cards);
    }
}

/// Two cards that change places stay in the sequence.
pub proof fn lemma_ids_swap(cards: Seq<Card>, i: int, j: int)
    requires
        0 <= i < cards.len(),
        0 <= j < cards.len(),
    ensures
        ids(cards.update(i, cards[j]).update(j, cards[i])) == ids(cards),
    decreases cards.len(),
{
    let swapped = cards.update(i, cards[j]).update(j, cards[i]);
    let last = cards.len() - 1;
    if i == j {
        assert(swapped =~= cards);
    } else if i < last && j < last {
        lemma_ids_swap(cards.drop_last(), i, j);
        assert(swapped.drop_last() =~= cards.drop_last().update(i, cards[j]).update(j, cards[i]));
    } else {
        // One of the two is the last card; `low` is the other.
        let low = if i == last { j } else { i };
        let rest = cards.drop_last();
        lemma_ids_update(rest, low, cards[last]);
        assert(swapped.drop_last() =~= rest.update(low, cards[last]));
        assert(swapped.last() == cards[low]);
        assert(ids(swapped) =~= ids(cards));
    }
}

/// A card replaced by another: the old identity leaves, the new one comes.
pub proof fn lemma_ids_update(cards: Seq<Card>, i: int, card: Card)
    requires
        0 <= i < cards.len(),
    ensures
        ids(cards.update(i, card)).insert(cards[i].id()) == ids(cards).insert(card.id()),
    decreases cards.len(),
{
    let last = cards.len() - 1;
    let rest = cards.drop_last();
    let updated = cards.update(i, card);
    let left = ids(updated).insert(cards[i].id());
    let right = ids(cards).insert(card.id());
    if i == last {
        assert(updated.drop_last() =~= rest);
        assert(updated.last() == card);
        assert(left =~= right);
    } else {
        lemma_ids_update(rest, i, card);
        assert(updated.drop_last() =~= rest.update(i, card));
        assert(updated.last() == cards.last());
        assert(rest[i] == cards[i]);
        let before = ids(rest.update(i, card)).insert(cards[i].id());
        let after = ids(rest).insert(card.id());
        assert forall|v: CardId| left.count(v) == right.count(v) by {
            assert(before.count(v) == after.count(v));
        }
        assert(left =~= right);
    }
}

/// A pile added to a row adds its cards.
pub proof fn lemma_piles_push(piles: Seq<Seq<Card>>, pile: Seq<Card>)
    ensures
        piles_ids(piles.push(pile)) == piles_ids(piles).add(ids(pile)),
{
    assert(piles.push(pile).drop_last() =~= piles);
}

/// A row of empty piles holds nothing.
pub proof fn lemma_piles_all_empty(piles: Seq<Seq<Card>>)
    requires
        forall|i: int| 0 <= i < piles.len() ==> (#[trigger] piles[i]).len() == 0,
    ensures
        piles_ids(piles) == Multiset::<CardId>::empty(),
    decreases piles.len(),
{
    if piles.len() > 0 {
        lemma_piles_all_empty(piles.drop_last());
        assert(piles.last() == piles[piles.len() - 1]);
        assert(piles_ids(piles) =~= Multiset::<CardId>::empty());
    }
}

/// One pile of a row replaced by another: its old cards leave, the new ones
/// come.
pub proof fn lemma_piles_update(piles: Seq<Seq<Card>>, i: int, pile: Seq<Card>)
    requires
        0 <= i < piles.len(),
    ensures
        piles_ids(piles.update(i, pile)).add(ids(piles[i])) == piles_ids(piles).add(ids(pile)),
    decreases piles.len(),
{
    let last = piles.len() - 1;
    let rest = piles.drop_last();
    let updated = piles.update(i, pile);
    let left = piles_ids(updated).add(ids(piles[i]));
    let right = piles_ids(piles).add(ids(pile));
    if i == last {
        assert(updated.drop_last() =~= rest);
        assert(updated.last() == pile);
        assert(left =~= right);
    } else {
        lemma_piles_update(rest, i, pile);
        assert(updated.drop_last() =~= rest.update(i, pile));
        assert(updated.last() == piles.last());
        assert(rest[i] == piles[i]);
        let before = piles_ids(rest.update(i, pile)).add(ids(piles[i]));
        let after = piles_ids(rest).add(ids(pile));
        assert forall|v: CardId| left.count(v) == right.count(v) by {
            assert(before.count(v) == after.count(v));
        }
        assert(left =~= right);
    }
}

/// A sequence holds as many identities as cards.
pub proof fn lemma_ids_len(cards: Seq<Card>)
    ensures
        ids(cards).len() == cards.len(),
    decreases cards.len(),
{
    if cards.len() > 0 {
        lemma_ids_len(cards.drop_last());
    }
}

/// A row of piles holds at least the cards of any one of its piles, and at
/// least those of any two.
pub proof fn lemma_piles_len(piles: Seq<Seq<Card>>, i: int, j: int)
    requires
        0 <= i < piles.len(),
        0 <= j < piles.len(),
    ensures
        piles_ids(piles).len() >= piles[i].len(),
        i != j ==> piles_ids(piles).len() >= piles[i].len() + piles[j].len(),
{
    let none = Seq::<Card>::empty();
    let without_i = piles.update(i, none);
    lemma_piles_update(piles, i, none);
    lemma_ids_len(piles[i]);
    lemma_ids_len(none);
    assert(piles_ids(without_i).add(ids(piles[i])).len() == piles_ids(piles).add(ids(none)).len());
    if i != j {
        lemma_piles_update(without_i, j, none);
        lemma_ids_len(piles[j]);
        assert(without_i[j] == piles[j]);
        assert(piles_ids(without_i.update(j, none)).add(ids(piles[j])).len() == piles_ids(without_i).add(
            ids(none),
        ).len());
    }
}

/// Whether no two cards of `cards` are the same card.
pub open spec fn all_distinct(cards: Seq<Card>) -> bool {
    forall|i: int, j: int|
        0 <= i < cards.len() && 0 <= j < cards.len() && i != j ==> (#[trigger] cards[i]).id() != (
        #[trigger] cards[j]).id()
}

/// A card that lies nowhere in a sequence is not counted.
pub proof fn lemma_ids_absent(cards: Seq<Card>, id: CardId)
    requires
        forall|i: int| 0 <= i < cards.len() ==> (#[trigger] cards[i]).id() != id,
    ensures
        ids(cards).count(id) == 0,
    decreases cards.len(),
{
    if cards.len() > 0 {
        let rest = cards.drop_last();
        assert forall|i: int| 0 <= i < rest.len() implies (#[trigger] rest[i]).id() != id by {
            assert(cards[i].id() != id);
        }
        lemma_ids_absent(rest, id);
        assert(cards[cards.len() - 1].id() != id);
    }
}

/// In a sequence without a card twice, each card is counted once.
pub proof fn lemma_ids_once(cards: Seq<Card>, at: int)
    requires
        all_distinct(cards),
        0 <= at < cards.len(),
    ensures
        ids(cards).count(cards[at].id()) == 1,
    decreases cards.len(),
{
    let rest = cards.drop_last();
    let last = cards.len() - 1;
    assert(all_distinct(rest)) by {
        assert forall|i: int, j: int| 0 <= i < rest.len() && 0 <= j < rest.len() && i != j implies (
        #[trigger] rest[i]).id() != (#[trigger] rest[j]).id() by {
            assert(cards[i].id() != cards[j].id());
        }
    }
    if at == last {
        assert forall|i: int| 0 <= i < rest.len() implies (#[trigger] rest[i]).id() != cards[at].id() by {
            assert(cards[i].id() != cards[at].id());
        }
        lemma_ids_absent(rest, cards[at].id());
    } else {
        lemma_ids_once(rest, at);
        assert(rest[at] == cards[at]);
        assert(cards[last].id() != cards[at].id());
    }
}

} // verus!
