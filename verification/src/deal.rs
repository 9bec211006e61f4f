//! In-progress deal state. A buyer-mode deal starts with exactly three
//! cards but can shrink via the repositioners and grow via the expander.

use vstd::prelude::*;
use crate::card::{CardId, PlayerId};
use crate::seqs::{lemma_first_index, lemma_no_index};

verus! {

/// One card sitting in a deal, and whether it has been flipped face up.
#[derive(Debug, Clone, Copy, PartialEq, Eq, Structural)]
pub struct DealCard {
    /// The card itself.
    pub card: CardId,
    /// Whether this card has been revealed.
    pub revealed: bool,
}

/// An offer a seller has put together.
#[derive(Debug, Clone)]
pub struct Deal {
    /// The player who made this deal.
    pub seller: PlayerId,
    /// The cards in the deal.
    pub cards: Vec<DealCard>,
}

/// Ids of the cards of a deal, in deal order.
pub open spec fn deal_ids(cards: Seq<DealCard>) -> Seq<CardId> {
    cards.map_values(|c: DealCard| c.card)
}

/// Ids of the still-hidden cards of a deal, in deal order.
pub open spec fn hidden_ids(cards: Seq<DealCard>) -> Seq<CardId>
    decreases cards.len(),
{
    if cards.len() == 0 {
        Seq::empty()
    } else if cards.last().revealed {
        hidden_ids(cards.drop_last())
    } else {
        hidden_ids(cards.drop_last()).push(cards.last().card)
    }
}

/// Ids of the face-up cards of a deal, in deal order.
pub open spec fn revealed_ids(cards: Seq<DealCard>) -> Seq<CardId>
    decreases cards.len(),
{
    if cards.len() == 0 {
        Seq::empty()
    } else if cards.last().revealed {
        revealed_ids(cards.drop_last()).push(cards.last().card)
    } else {
        revealed_ids(cards.drop_last())
    }
}

/// A pile of ids as face-down deal cards.
pub open spec fn hidden_pile(ids: Seq<CardId>) -> Seq<DealCard> {
    ids.map_values(|c: CardId| DealCard { card: c, revealed: false })
}

/// Hidden and revealed ids partition the deal's cards by count.
pub proof fn lemma_hidden_revealed_len(cards: Seq<DealCard>)
    ensures
        hidden_ids(cards).len() + revealed_ids(cards).len() == cards.len(),
    decreases cards.len(),
{
    if cards.len() > 0 {
        lemma_hidden_revealed_len(cards.drop_last());
    }
}

/// Every hidden id is the id of some face-down card of the deal, and back.
pub proof fn lemma_hidden_ids_member(cards: Seq<DealCard>, x: CardId)
    ensures
        hidden_ids(cards).contains(x) <==> exists|i: int|
            0 <= i < cards.len() && cards[i].card == x && !cards[i].revealed,
    decreases cards.len(),
{
    if cards.len() > 0 {
        lemma_hidden_ids_member(cards.drop_last(), x);
        let prev = cards.drop_last();
        if hidden_ids(cards).contains(x) {
            if hidden_ids(prev).contains(x) {
                let i = choose|i: int| 0 <= i < prev.len() && prev[i].card == x && !prev[i].revealed;
                assert(cards[i] == prev[i]);
            } else {
                let last = cards.len() - 1;
                let h = hidden_ids(cards);
                let j = choose|j: int| 0 <= j < h.len() && h[j] == x;
                if cards.last().revealed {
                    assert(h == hidden_ids(prev));
                    assert(hidden_ids(prev)[j] == x);
                } else {
                    assert(h == hidden_ids(prev).push(cards.last().card));
                    if j < hidden_ids(prev).len() {
                        assert(hidden_ids(prev)[j] == x);
                    }
                }
                assert(cards[last].card == x && !cards[last].revealed);
            }
        }
        if exists|i: int| 0 <= i < cards.len() && cards[i].card == x && !cards[i].revealed {
            let i = choose|i: int| 0 <= i < cards.len() && cards[i].card == x && !cards[i].revealed;
            if i < cards.len() - 1 {
                assert(prev[i] == cards[i]);
                assert(hidden_ids(prev).contains(x));
                let k = choose|k: int| 0 <= k < hidden_ids(prev).len() && hidden_ids(prev)[k] == x;
                if cards.last().revealed {
                    assert(hidden_ids(cards) == hidden_ids(prev));
                } else {
                    assert(hidden_ids(cards) == hidden_ids(prev).push(cards.last().card));
                }
                assert(hidden_ids(cards)[k] == x);
            } else {
                assert(hidden_ids(cards) == hidden_ids(prev).push(x));
                assert(hidden_ids(cards)[hidden_ids(prev).len() as int] == x);
            }
        }
    }
}

/// Hidden ids of an all-face-down pile are the pile's ids.
pub proof fn lemma_hidden_pile(ids: Seq<CardId>)
    ensures
        hidden_ids(hidden_pile(ids)) == ids,
        revealed_ids(hidden_pile(ids)) == Seq::<CardId>::empty(),
        deal_ids(hidden_pile(ids)) == ids,
    decreases ids.len(),
{
    if ids.len() > 0 {
        lemma_hidden_pile(ids.drop_last());
        assert(hidden_pile(ids).drop_last() =~= hidden_pile(ids.drop_last()));
        assert(ids.drop_last().push(ids.last()) =~= ids);
    }
    assert(deal_ids(hidden_pile(ids)) =~= ids);
}

impl Deal {
    /// Builds a deal from exactly three cards, all hidden.
    pub fn new(seller: PlayerId, cards: [CardId; 3]) -> (r: Deal)
        ensures
            r.seller == seller,
            r.cards@ == hidden_pile(seq![cards[0], cards[1], cards[2]]),
    {
        let mut v: Vec<DealCard> = Vec::new();
        v.push(DealCard { card: cards[0], revealed: false });
        v.push(DealCard { card: cards[1], revealed: false });
        v.push(DealCard { card: cards[2], revealed: false });
        assert(v@ =~= hidden_pile(seq![cards[0], cards[1], cards[2]]));
        Deal { seller, cards: v }
    }

    /// Builds a deal from a pile of any length, all hidden.
    pub fn from_pile(seller: PlayerId, cards: Vec<CardId>) -> (r: Deal)
        ensures
            r.seller == seller,
            r.cards@ == hidden_pile(cards@),
    {
        let mut v: Vec<DealCard> = Vec::new();
        let mut i: usize = 0;
        while i < cards.len()
            invariant
                i <= cards@.len(),
                v@ == hidden_pile(cards@.take(i as int)),
            decreases cards@.len() - i,
        {
            v.push(DealCard { card: cards[i], revealed: false });
            i += 1;
            assert(v@ =~= hidden_pile(cards@.take(i as int)));
        }
        assert(cards@.take(i as int) =~= cards@);
        Deal { seller, cards: v }
    }

    /// Ids of the cards still hidden.
    pub fn hidden_cards(&self) -> (r: Vec<CardId>)
        ensures
            r@ == hidden_ids(self.cards@),
    {
        let mut out: Vec<CardId> = Vec::new();
        let mut i: usize = 0;
        while i < self.cards.len()
            invariant
                i <= self.cards@.len(),
                out@ == hidden_ids(self.cards@.take(i as int)),
            decreases self.cards@.len() - i,
        {
            assert(self.cards@.take(i as int + 1).drop_last() =~= self.cards@.take(i as int));
            if !self.cards[i].revealed {
                out.push(self.cards[i].card);
            }
            i += 1;
        }
        assert(self.cards@.take(i as int) =~= self.cards@);
        out
    }

    /// Position of `card` in this deal, if present.
    pub fn position(&self, card: CardId) -> (r: Option<usize>)
        ensures
            r is None <==> deal_ids(self.cards@).index_of_first(card) is None,
            r matches Some(i) ==> deal_ids(self.cards@).index_of_first(card) == Some(i as int)
                && i < self.cards@.len(),
    {
        let ghost ids = deal_ids(self.cards@);
        proof {
            ids.index_of_first_ensures(card);
        }
        let mut i: usize = 0;
        while i < self.cards.len()
            invariant
                ids == deal_ids(self.cards@),
                i <= self.cards@.len(),
                forall|j: int| 0 <= j < i ==> ids[j] != card,
            decreases self.cards@.len() - i,
        {
            if self.cards[i].card == card {
                proof {
                    lemma_first_index(ids, card, i as int);
                }
                return Some(i);
            }
            i += 1;
        }
        proof {
            lemma_no_index(ids, card);
        }
        None
    }

    /// Flips a card face up; returns false if the card isn't in this deal.
    pub fn reveal_card(&mut self, card: CardId) -> (r: bool)
        ensures
            r == deal_ids(old(self).cards@).contains(card),
            final(self).seller == old(self).seller,
            match deal_ids(old(self).cards@).index_of_first(card) {
                Some(i) => final(self).cards@ == old(self).cards@.update(
                    i,
                    DealCard { card, revealed: true },
                ),
                None => final(self).cards@ == old(self).cards@,
            },
    {
        proof {
            deal_ids(self.cards@).index_of_first_ensures(card);
        }
        match self.position(card) {
            Some(i) => {
                self.cards[i] = DealCard { card, revealed: true };
                true
            },
            None => false,
        }
    }

    /// Removes a card from the deal; returns false if it wasn't there.
    pub fn remove_card(&mut self, card: CardId) -> (r: bool)
        ensures
            r == deal_ids(old(self).cards@).contains(card),
            final(self).seller == old(self).seller,
            match deal_ids(old(self).cards@).index_of_first(card) {
                Some(i) => final(self).cards@ == old(self).cards@.remove(i),
                None => final(self).cards@ == old(self).cards@,
            },
    {
        proof {
            deal_ids(self.cards@).index_of_first_ensures(card);
        }
        match self.position(card) {
            Some(i) => {
                self.cards.remove(i);
                true
            },
            None => false,
        }
    }

    /// Adds a new hidden card to the deal.
    pub fn add_hidden_card(&mut self, card: CardId)
        ensures
            final(self).seller == old(self).seller,
            final(self).cards@ == old(self).cards@.push(DealCard { card, revealed: false }),
    {
        self.cards.push(DealCard { card, revealed: false });
    }

    /// Ids of every card currently in the deal, hidden or revealed.
    pub fn all_card_ids(&self) -> (r: Vec<CardId>)
        ensures
            r@ == deal_ids(self.cards@),
    {
        let mut out: Vec<CardId> = Vec::new();
        let mut i: usize = 0;
        while i < self.cards.len()
            invariant
                i <= self.cards@.len(),
                out@ == deal_ids(self.cards@.take(i as int)),
            decreases self.cards@.len() - i,
        {
            out.push(self.cards[i].card);
            i += 1;
            assert(out@ =~= deal_ids(self.cards@.take(i as int)));
        }
        assert(self.cards@.take(i as int) =~= self.cards@);
        out
    }
}


/// Face-up card ids of a deal, in deal order.
pub fn revealed_cards_of(d: &Deal) -> (r: Vec<CardId>)
    ensures
        r@ == revealed_ids(d.cards@),
{
    let mut out: Vec<CardId> = Vec::new();
    let mut i: usize = 0;
    while i < d.cards.len()
        invariant
            i <= d.cards@.len(),
            out@ == revealed_ids(d.cards@.take(i as int)),
        decreases d.cards@.len() - i,
    {
        assert(d.cards@.take(i as int + 1).drop_last() =~= d.cards@.take(i as int));
        if d.cards[i].revealed {
            out.push(d.cards[i].card);
        }
        i += 1;
    }
    assert(d.cards@.take(i as int) =~= d.cards@);
    out
}

} // verus!

verus! {

/// Abstract value of a [`Deal`].
pub struct DealView {
    /// The seller who made the deal.
    pub seller: PlayerId,
    /// The deal's cards, in order.
    pub cards: Seq<DealCard>,
}

impl View for Deal {
    type V = DealView;

    open spec fn view(&self) -> DealView {
        DealView { seller: self.seller, cards: self.cards@ }
    }
}

} // verus!
