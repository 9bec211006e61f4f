//! Reading the game: table facts, each seat's holdings, the filtered
//! per-player observation, and live-tracking a physical game by pinning
//! cards to the kinds actually revealed.

use vstd::prelude::*;
use crate::card::{
    CardId, CardKind, NastyKind, PlayerId, ThingamabobKind, Tier, class_index_spec, kind_of_class_spec,
    nasty_name_spec, thingamabob_name_spec, tier_name_spec,
};
use crate::deal::{DealView, hidden_ids, revealed_ids};
use crate::events::{GameMode, PinError};
use crate::game::{GameState, GameView, ObservedDeal, Observation, deal_index, deals_cards, find_deal, players_cards};
use crate::phase::{Phase, PhaseView, phase_view_name};

verus! {

/// The kind in class position `i`.
pub fn kind_of_class(i: usize) -> (k: CardKind)
    requires
        i < 12,
    ensures
        k == kind_of_class_spec(i as int),
{
    if i == 0 {
        CardKind::Creature(Tier::Giant)
    } else if i == 1 {
        CardKind::Creature(Tier::Big)
    } else if i == 2 {
        CardKind::Creature(Tier::Medium)
    } else if i == 3 {
        CardKind::Creature(Tier::Tiny)
    } else if i == 4 {
        CardKind::Nasty(NastyKind::PoisonPillBug)
    } else if i == 5 {
        CardKind::Nasty(NastyKind::LoanShark)
    } else if i == 6 {
        CardKind::Nasty(NastyKind::TrojanHorse)
    } else if i == 7 {
        CardKind::Thingamabob(ThingamabobKind::PlatonicIsolator)
    } else if i == 8 {
        CardKind::Thingamabob(ThingamabobKind::DetritalRepositioner)
    } else if i == 9 {
        CardKind::Thingamabob(ThingamabobKind::SuperDetritalRepositioner)
    } else if i == 10 {
        CardKind::Thingamabob(ThingamabobKind::CryptozooticExpander)
    } else {
        CardKind::Thingamabob(ThingamabobKind::SpectroelectricOptimeter)
    }
}

/// The display name a card takes once pinned to `kind`: the tier for a
/// creature, the kind's own name otherwise.
pub open spec fn pinned_name(kind: CardKind) -> Seq<char> {
    match kind {
        CardKind::Creature(t) => tier_name_spec(t),
        CardKind::Nasty(k) => nasty_name_spec(k),
        CardKind::Thingamabob(k) => thingamabob_name_spec(k),
    }
}

/// Why pinning `card` to `kind` is refused, if it is.
pub open spec fn pin_reject(v: GameView, card: CardId, kind: CardKind) -> Option<PinError> {
    if card >= v.kinds.len() {
        Some(PinError::UnknownCard(card))
    } else if v.pinned[card as int] {
        Some(PinError::AlreadyPinned(card))
    } else if v.kind_supply[class_index_spec(kind)] == 0 {
        Some(PinError::NoSupplyRemaining)
    } else {
        None
    }
}

/// The game once `card` is pinned to `kind`.
pub open spec fn pin_result(v: GameView, card: CardId, kind: CardKind) -> GameView {
    let c = class_index_spec(kind);
    GameView {
        kinds: v.kinds.update(card as int, kind),
        kind_supply: v.kind_supply.update(c, (v.kind_supply[c] - 1) as u32),
        pinned: v.pinned.update(card as int, true),
        ..v
    }
}

/// A deal as seen from outside.
pub open spec fn observed(d: DealView) -> (PlayerId, Seq<CardId>, int) {
    (d.seller, revealed_ids(d.cards), hidden_ids(d.cards).len() as int)
}

impl GameState {
    /// Number of players at the table.
    pub fn num_players(&self) -> (r: usize)
        ensures
            r == self@.num_players,
    {
        self.num_players
    }

    /// The table-size variant in effect.
    pub fn mode(&self) -> (r: GameMode)
        ensures
            r == self@.mode,
    {
        self.mode
    }

    /// Current turn leader (the buyer in buyer mode).
    pub fn turn_leader(&self) -> (r: PlayerId)
        ensures
            r == self@.turn_leader,
    {
        self.turn_leader
    }

    /// Point tokens needed to win.
    pub fn win_threshold(&self) -> (r: u32)
        ensures
            r == self@.win_threshold,
    {
        self.win_threshold
    }

    /// The winning player, if the game has ended.
    pub fn winner(&self) -> (r: Option<PlayerId>)
        ensures
            r == match self@.phase {
                PhaseView::GameOver { winner } => Some(winner),
                _ => None::<PlayerId>,
            },
    {
        match &self.phase {
            Phase::GameOver { winner } => Some(*winner),
            _ => None,
        }
    }

    /// Whether the game has ended.
    pub fn is_game_over(&self) -> (r: bool)
        ensures
            r == self@.phase is GameOver,
    {
        match &self.phase {
            Phase::GameOver { .. } => true,
            _ => false,
        }
    }

    /// Stable name of the current phase.
    pub fn current_phase(&self) -> (r: &'static str)
        ensures
            r@ == phase_view_name(self@.phase),
    {
        proof {
            crate::phase::lemma_phase_name_view(self.phase);
        }
        self.phase.name()
    }

    /// The mechanical kind of a card, or `None` if the id is not a card of
    /// this game.
    pub fn card_kind(&self, id: CardId) -> (r: Option<CardKind>)
        ensures
            r == if id < self@.kinds.len() { Some(self@.kinds[id as int]) } else { None::<CardKind> },
    {
        if (id as usize) < self.kinds.len() {
            Some(self.kinds[id as usize])
        } else {
            None
        }
    }

    /// A card's display name, or `None` if the id is not a card of this game.
    pub fn card_name(&self, id: CardId) -> (r: Option<&str>)
        ensures
            r is Some <==> id < self@.names.len(),
            r matches Some(s) ==> s@ == self@.names[id as int]@,
    {
        if (id as usize) < self.names.len() {
            Some(self.names[id as usize].as_str())
        } else {
            None
        }
    }

    /// True composition of the deck per card class.
    pub fn deck_counts(&self) -> (r: &[u32; 12])
        ensures
            r@ == self@.deck_counts,
    {
        &self.deck_counts
    }

    /// Turns completed so far.
    pub fn turn_index(&self) -> (r: u32)
        ensures
            r == self@.turn_index,
    {
        self.turn_index
    }

    /// Exact upper bound on the number of legal actions for this deck and
    /// table size, fixed when the game was set up.
    pub fn max_legal_actions(&self) -> (r: usize)
        ensures
            r == self@.max_legal_actions,
    {
        self.max_legal_actions
    }

    /// A player's current hand.
    pub fn player_hand(&self, player: PlayerId) -> (r: &[CardId])
        requires
            player < self@.players.len(),
        ensures
            r@ == self@.hand(player),
    {
        self.players[player].hand.as_slice()
    }

    /// A player's current collection.
    pub fn player_collection(&self, player: PlayerId) -> (r: &[CardId])
        requires
            player < self@.players.len(),
        ensures
            r@ == self@.collection(player),
    {
        self.players[player].collection.as_slice()
    }

    /// A player's current point token count.
    pub fn player_point_tokens(&self, player: PlayerId) -> (r: u32)
        requires
            player < self@.players.len(),
        ensures
            r == self@.tokens(player),
    {
        self.players[player].point_tokens
    }

    /// Still-hidden card ids in `seller`'s deal, empty if there is no such
    /// deal. Meant for a live-tracking caller, not for an in-game player.
    pub fn hidden_cards_in_deal(&self, seller: PlayerId) -> (r: Vec<CardId>)
        ensures
            r@ == match deal_index(self@.deals, seller) {
                Some(i) => hidden_ids(self@.deals[i].cards),
                None => Seq::<CardId>::empty(),
            },
    {
        match find_deal(&self.deals, seller) {
            Some(i) => self.deals[i].hidden_cards(),
            None => Vec::new(),
        }
    }

    /// Whether a card has already been pinned.
    pub fn is_pinned(&self, card: CardId) -> (r: bool)
        ensures
            r == (card < self@.pinned.len() && self@.pinned[card as int]),
    {
        if (card as usize) < self.pinned.len() {
            self.pinned[card as usize]
        } else {
            false
        }
    }

    /// Remaining not-yet-pinned supply of every kind, in class order.
    pub fn kind_supply(&self) -> (r: Vec<(CardKind, u32)>)
        requires
            self@.wf(),
        ensures
            r@ == Seq::new(12, |i: int| (kind_of_class_spec(i), self@.kind_supply[i])),
    {
        let mut out: Vec<(CardKind, u32)> = Vec::new();
        let mut i: usize = 0;
        while i < 12
            invariant
                self@.wf(),
                i <= 12,
                out@ == Seq::new(i as nat, |j: int| (kind_of_class_spec(j), self@.kind_supply[j])),
            decreases 12 - i,
        {
            out.push((kind_of_class(i), self.kind_supply[i]));
            i += 1;
            assert(out@ =~= Seq::new(i as nat, |j: int| (kind_of_class_spec(j), self@.kind_supply[j])));
        }
        out
    }

    /// For live-tracking a physical game: sets `card`'s kind to what was
    /// actually revealed at the table, using up one of that kind's remaining
    /// supply so the deck's true composition is never exceeded, and renames
    /// the card to match. Every later rule reads the new kind.
    pub fn pin_kind(&mut self, card: CardId, kind: CardKind) -> (r: Result<(), PinError>)
        requires
            old(self)@.wf(),
        ensures
            final(self)@.wf(),
            match r {
                Err(e) => pin_reject(old(self)@, card, kind) == Some(e) && final(self)@ == old(self)@,
                Ok(()) => pin_reject(old(self)@, card, kind) is None
                    && final(self)@ == GameView {
                        names: final(self)@.names,
                        ..pin_result(old(self)@, card, kind)
                    }
                    && final(self)@.names == old(self)@.names.update(card as int, final(self)@.names[card as int])
                    && final(self)@.names[card as int]@ == pinned_name(kind),
            },
    {
        let ghost v0 = self@;
        let id = card as usize;
        if id >= self.kinds.len() {
            return Err(PinError::UnknownCard(card));
        }
        if self.pinned[id] {
            return Err(PinError::AlreadyPinned(card));
        }
        let c = kind.class_index();
        if self.kind_supply[c] == 0 {
            return Err(PinError::NoSupplyRemaining);
        }
        let remaining = self.kind_supply[c] - 1;
        self.kind_supply.set(c, remaining);
        self.kinds.set(id, kind);
        let name = match kind {
            CardKind::Creature(t) => String::from_str(t.name()),
            CardKind::Nasty(k) => String::from_str(k.name()),
            CardKind::Thingamabob(k) => String::from_str(k.name()),
        };
        self.names.set(id, name);
        self.pinned.set(id, true);
        proof {
            let w = self@;
            assert(w == GameView { names: w.names, ..pin_result(v0, card, kind) });
            assert forall|x: int| 0 <= x < w.kinds.len() implies (#[trigger] w.kinds[x] matches CardKind::Thingamabob(k)
                ==> w.catalog.has_thingamabob(k)) by {
                if x == id {
                    assert(v0.kind_supply[class_index_spec(kind)] > 0);
                    crate::card::lemma_class_index_bijection(kind);
                } else {
                    assert(w.kinds[x] == v0.kinds[x]);
                }
            };
            assert forall|i: int| 0 <= i < 12 && #[trigger] w.kind_supply[i] > 0 implies (
                kind_of_class_spec(i) matches CardKind::Thingamabob(k) ==> w.catalog.has_thingamabob(k)) by {
                assert(v0.kind_supply[i] > 0);
            };
        }
        Ok(())
    }

    /// Total number of cards across hands, collections, deals and both
    /// piles.
    pub fn total_card_count(&self) -> (r: usize)
        requires
            self@.wf(),
        ensures
            r == self@.card_count(),
    {
        let ghost v = self@;
        proof {
            crate::trade::lemma_players_within_count(v);
            crate::trade::lemma_deals_cards_nonneg(v.deals);
        }
        let mut n: usize = self.draw_pile.len() + self.discard_pile.len();
        let mut p: usize = 0;
        while p < self.players.len()
            invariant
                v == self@,
                v.wf(),
                v.card_count() <= v.kinds.len(),
                v.kinds.len() <= u32::MAX,
                p <= v.players.len(),
                players_cards(v.players) + deals_cards(v.deals) + v.draw_pile.len() + v.discard_pile.len() <= v.kinds.len(),
                n == players_cards(v.players.take(p as int)) + v.draw_pile.len() + v.discard_pile.len(),
            decreases v.players.len() - p,
        {
            proof {
                assert(v.players.take(p as int + 1).drop_last() =~= v.players.take(p as int));
                crate::trade::lemma_players_prefix(v.players, p as int + 1);
                crate::trade::lemma_deals_cards_nonneg(v.deals);
            }
            n = n + self.players[p].hand.len() + self.players[p].collection.len();
            p += 1;
        }
        assert(v.players.take(p as int) =~= v.players);
        let mut d: usize = 0;
        while d < self.deals.len()
            invariant
                v == self@,
                v.wf(),
                v.kinds.len() <= u32::MAX,
                d <= v.deals.len(),
                players_cards(v.players) + deals_cards(v.deals) + v.draw_pile.len() + v.discard_pile.len() <= v.kinds.len(),
                n == players_cards(v.players) + deals_cards(v.deals.take(d as int)) + v.draw_pile.len() + v.discard_pile.len(),
            decreases v.deals.len() - d,
        {
            proof {
                assert(v.deals.take(d as int + 1).drop_last() =~= v.deals.take(d as int));
                crate::trade::lemma_deals_prefix(v.deals, d as int + 1);
            }
            n = n + self.deals[d].cards.len();
            d += 1;
        }
        assert(v.deals.take(d as int) =~= v.deals);
        n
    }

    /// `player`'s filtered view of the game: their own hand, every public
    /// zone, and each deal with its hidden cards collapsed to a count.
    pub fn observation_for(&self, player: PlayerId) -> (r: Observation)
        requires
            self@.wf(),
            player < self@.num_players,
        ensures
            r.player == player,
            r.phase@ == phase_view_name(self@.phase),
            r.turn_leader == self@.turn_leader,
            r.own_hand@ == self@.hand(player),
            r.collections@.len() == self@.players.len(),
            forall|q: int| 0 <= q < self@.players.len() ==> (#[trigger] r.collections@[q])@ == self@.players[q].collection,
            r.point_tokens@ == self@.players.map_values(|p: crate::player::PlayerView| p.point_tokens),
            r.deals@.len() == self@.deals.len(),
            forall|i: int| 0 <= i < self@.deals.len() ==> ((#[trigger] r.deals@[i]).seller, r.deals@[i].revealed_cards@,
                r.deals@[i].num_hidden as int) == observed(self@.deals[i]),
            r.draw_pile_len == self@.draw_pile.len(),
            r.discard_pile_len == self@.discard_pile.len(),
            r.winner == match self@.phase {
                PhaseView::GameOver { winner } => Some(winner),
                _ => None::<PlayerId>,
            },
    {
        let ghost v = self@;
        let mut deals: Vec<ObservedDeal> = Vec::new();
        let mut i: usize = 0;
        while i < self.deals.len()
            invariant
                v == self@,
                i <= v.deals.len(),
                deals@.len() == i,
                forall|j: int| 0 <= j < i ==> ((#[trigger] deals@[j]).seller, deals@[j].revealed_cards@,
                    deals@[j].num_hidden as int) == observed(v.deals[j]),
            decreases v.deals.len() - i,
        {
            let d = &self.deals[i];
            let hidden = d.hidden_cards();
            let revealed = crate::deal::revealed_cards_of(d);
            deals.push(ObservedDeal { seller: d.seller, revealed_cards: revealed, num_hidden: hidden.len() });
            i += 1;
        }
        let mut collections: Vec<Vec<CardId>> = Vec::new();
        let mut tokens: Vec<u32> = Vec::new();
        let mut p: usize = 0;
        while p < self.players.len()
            invariant
                v == self@,
                p <= v.players.len(),
                collections@.len() == p,
                forall|q: int| 0 <= q < p ==> (#[trigger] collections@[q])@ == v.players[q].collection,
                tokens@ == v.players.map_values(|x: crate::player::PlayerView| x.point_tokens).take(p as int),
            decreases v.players.len() - p,
        {
            collections.push(copy_ids(&self.players[p].collection));
            tokens.push(self.players[p].point_tokens);
            p += 1;
            assert(tokens@ =~= v.players.map_values(|x: crate::player::PlayerView| x.point_tokens).take(p as int));
        }
        assert(tokens@ =~= v.players.map_values(|x: crate::player::PlayerView| x.point_tokens));
        proof {
            crate::phase::lemma_phase_name_view(self.phase);
        }
        Observation {
            player,
            phase: self.phase.name(),
            turn_leader: self.turn_leader,
            own_hand: copy_ids(&self.players[player].hand),
            collections,
            point_tokens: tokens,
            deals,
            draw_pile_len: self.draw_pile.len(),
            discard_pile_len: self.discard_pile.len(),
            winner: self.winner(),
        }
    }
}

/// A copy of a list of card ids.
pub fn copy_ids(v: &Vec<CardId>) -> (r: Vec<CardId>)
    ensures
        r@ == v@,
{
    let mut out: Vec<CardId> = Vec::new();
    let mut i: usize = 0;
    while i < v.len()
        invariant
            i <= v@.len(),
            out@ == v@.take(i as int),
        decreases v@.len() - i,
    {
        out.push(v[i]);
        i += 1;
        assert(out@ =~= v@.take(i as int));
    }
    assert(v@.take(i as int) =~= v@);
    out
}

} // verus!
