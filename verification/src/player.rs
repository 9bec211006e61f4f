//! Per-player state: hand, collection, and point tokens.

use vstd::prelude::*;
use crate::card::CardId;
use crate::seqs::{remove_first, remove_first_id};

verus! {

/// One player's hand, collection, and point token count.
#[derive(Debug, Clone)]
pub struct Player {
    /// Cards currently in hand.
    pub hand: Vec<CardId>,
    /// Cards the player has collected.
    pub collection: Vec<CardId>,
    /// Point tokens currently held.
    pub point_tokens: u32,
}

impl Default for Player {
    fn default() -> (r: Player)
        ensures
            r.hand@ == Seq::<CardId>::empty(),
            r.collection@ == Seq::<CardId>::empty(),
            r.point_tokens == 0,
    {
        Player::new()
    }
}

impl Player {
    /// Builds an empty player.
    pub fn new() -> (r: Player)
        ensures
            r.hand@ == Seq::<CardId>::empty(),
            r.collection@ == Seq::<CardId>::empty(),
            r.point_tokens == 0,
    {
        Player { hand: Vec::new(), collection: Vec::new(), point_tokens: 0 }
    }

    /// Removes a card from hand; returns false if it wasn't there.
    pub fn remove_from_hand(&mut self, card: CardId) -> (r: bool)
        ensures
            r == old(self).hand@.contains(card),
            final(self).hand@ == remove_first(old(self).hand@, card),
            final(self).collection@ == old(self).collection@,
            final(self).point_tokens == old(self).point_tokens,
    {
        remove_first_id(&mut self.hand, card)
    }

    /// Removes a card from the collection; returns false if it wasn't there.
    pub fn remove_from_collection(&mut self, card: CardId) -> (r: bool)
        ensures
            r == old(self).collection@.contains(card),
            final(self).collection@ == remove_first(old(self).collection@, card),
            final(self).hand@ == old(self).hand@,
            final(self).point_tokens == old(self).point_tokens,
    {
        remove_first_id(&mut self.collection, card)
    }
}

/// Takes up to `n` point tokens from `from`; stealing from an empty target
/// fizzles silently. Returns the number actually removed, for the caller to
/// credit to the taker.
pub fn try_take_point_tokens(from: &mut Player, n: u32) -> (taken: u32)
    ensures
        taken == if n <= old(from).point_tokens { n } else { old(from).point_tokens },
        final(from).point_tokens == old(from).point_tokens - taken,
        final(from).hand@ == old(from).hand@,
        final(from).collection@ == old(from).collection@,
{
    let taken = if n <= from.point_tokens { n } else { from.point_tokens };
    from.point_tokens = from.point_tokens - taken;
    taken
}

/// Walks `cards` in order, removing each one still present in `coll`:
/// the collection left over and the ids actually taken.
pub open spec fn take_cards_spec(coll: Seq<CardId>, cards: Seq<CardId>) -> (Seq<CardId>, Seq<CardId>)
    decreases cards.len(),
{
    if cards.len() == 0 {
        (coll, Seq::empty())
    } else {
        let (rest, taken) = take_cards_spec(coll, cards.drop_last());
        let x = cards.last();
        if rest.contains(x) {
            (remove_first(rest, x), taken.push(x))
        } else {
            (rest, taken)
        }
    }
}

/// The first `n` entries of `cards` (all of them if there are fewer).
pub open spec fn first_n(cards: Seq<CardId>, n: int) -> Seq<CardId> {
    if n < cards.len() { cards.take(n) } else { cards }
}

/// Removes up to `n` specific cards (the first `n` of `cards`) from the
/// collection; ids not present are skipped as a fizzle. Returns the ids
/// actually removed, in order.
pub fn try_take_cards(from: &mut Player, cards: &[CardId], n: u32) -> (taken: Vec<CardId>)
    ensures
        (final(from).collection@, taken@) == take_cards_spec(
            old(from).collection@,
            first_n(cards@, n as int),
        ),
        final(from).hand@ == old(from).hand@,
        final(from).point_tokens == old(from).point_tokens,
{
    let mut taken: Vec<CardId> = Vec::new();
    let limit: usize = if (n as usize) < cards.len() { n as usize } else { cards.len() };
    let ghost todo = first_n(cards@, n as int);
    assert(todo.len() == limit);
    let mut i: usize = 0;
    while i < limit
        invariant
            limit <= cards@.len(),
            todo.len() == limit,
            forall|j: int| 0 <= j < limit ==> todo[j] == cards@[j],
            i <= limit,
            from.collection@ == take_cards_spec(old(from).collection@, todo.take(i as int)).0,
            taken@ == take_cards_spec(old(from).collection@, todo.take(i as int)).1,
            from.hand@ == old(from).hand@,
            from.point_tokens == old(from).point_tokens,
        decreases limit - i,
    {
        let card = cards[i];
        assert(todo.take(i as int + 1).drop_last() =~= todo.take(i as int));
        assert(todo.take(i as int + 1).last() == card);
        let ghost before = take_cards_spec(old(from).collection@, todo.take(i as int));
        let ghost after = take_cards_spec(old(from).collection@, todo.take(i as int + 1));
        assert(after == (if before.0.contains(card) {
            (remove_first(before.0, card), before.1.push(card))
        } else {
            before
        }));
        if from.remove_from_collection(card) {
            taken.push(card);
        }
        i += 1;
    }
    assert(todo.take(limit as int) =~= todo);
    taken
}

} // verus!

verus! {

/// Abstract value of a [`Player`].
pub struct PlayerView {
    /// Cards in hand, in order.
    pub hand: Seq<CardId>,
    /// Collected cards, in order.
    pub collection: Seq<CardId>,
    /// Point tokens held.
    pub point_tokens: u32,
}

impl View for Player {
    type V = PlayerView;

    open spec fn view(&self) -> PlayerView {
        PlayerView {
            hand: self.hand@,
            collection: self.collection@,
            point_tokens: self.point_tokens,
        }
    }
}

} // verus!
