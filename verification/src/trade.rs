//! The mandatory end-of-turn sequence: nasty and creature set trade-ins,
//! refilling hands, and the win check.

use vstd::prelude::*;
use crate::card::{CardId, CardKind, NastyEffect, NastyKind, PlayerId, Tier};
use crate::deck::{nasty_index_spec, tier_index_spec};
use crate::events::{Event, EventView, GameMode, events_view};
use crate::deal::deal_ids;
use crate::game::{deal_offer_entries, new_turn_phase, table_order_after};
use crate::phase::{DealOfferEntry, DealOfferState, DealOfferStep, NastyResolutionState, PendingNasty, Phase, PhaseView, TwoPlayerDealState, TwoPlayerDealStep};
use crate::game::{GameState, GameView, kind_in, deals_view, deals_cards, lemma_players_cards_nonneg, players_view, player_cards, players_cards};
use crate::player::PlayerView;
use crate::rules::{
    count_kind, creatures_settled, hands_full, holdings_only, nasty_settled, settled, tokens_room, traded_in, wins,
    with_collection, with_discard, with_player, with_phase, with_deals, award_all, recipients, handout_events,
    active_player_spec, choose_reject, respond_reject, awarded, bought_by, responded_to, chosen_events, responded_events,
    first_missing, remove_all, resolve_reject, stolen, stolen_events, no_nasty_trade_ins, no_creature_trade_ins,
    nasties_first,
};
use crate::events::RulesError;
use crate::turn::{lemma_count_with_player, lemma_players_view_update};
use crate::places::game_ids;
use crate::turn_end::{seats_from, tiers_from, creature_sets, sets_held, nasty_trade, nasty_set};


verus! {

/// Counting a kind after one card is taken out.
pub proof fn lemma_count_kind_remove(v: GameView, s: Seq<CardId>, i: int, k: CardKind)
    requires
        0 <= i < s.len(),
    ensures
        count_kind(v.kinds, s.remove(i), k) == count_kind(v.kinds, s, k) - if kind_in(v.kinds, s[i]) == k { 1int } else { 0int },
    decreases s.len(),
{
    if i == s.len() - 1 {
        assert(s.remove(i) =~= s.drop_last());
    } else {
        lemma_count_kind_remove(v, s.drop_last(), i, k);
        assert(s.remove(i).drop_last() =~= s.drop_last().remove(i));
        assert(s.remove(i).last() == s.last());
    }
}


impl GameState {
    /// Number of cards of `kind` in seat `p`'s collection.
    pub(crate) fn count_of_kind(&self, p: PlayerId, kind: CardKind) -> (r: usize)
        requires
            p < self.players@.len(),
        ensures
            r == count_kind(self@.kinds, self@.collection(p), kind),
    {
        let ghost coll = self@.collection(p);
        assert(coll == self.players@[p as int].collection@);
        let mut count: usize = 0;
        let mut i: usize = 0;
        while i < self.players[p].collection.len()
            invariant
                p < self.players@.len(),
                coll == self@.collection(p),
                coll == self.players@[p as int].collection@,
                i <= coll.len(),
                count == count_kind(self@.kinds, coll.take(i as int), kind),
                count <= i,
            decreases coll.len() - i,
        {
            proof {
                assert(coll.take(i as int + 1).drop_last() =~= coll.take(i as int));
                assert(coll.take(i as int + 1).last() == coll[i as int]);
            }
            if self.kind_of(self.players[p].collection[i]) == kind {
                count = count + 1;
            }
            i += 1;
        }
        assert(coll.take(i as int) =~= coll);
        count
    }

    /// Index of the first card of `kind` in seat `p`'s collection, if any.
    fn first_of_kind(&self, p: PlayerId, kind: CardKind) -> (r: Option<usize>)
        requires
            p < self.players@.len(),
        ensures
            r matches Some(i) ==> i < self@.collection(p).len() && self@.kind(self@.collection(p)[i as int]) == kind
                && i == crate::turn_end::first_kind_index(self@.kinds, self@.collection(p), kind),
            r is None ==> count_kind(self@.kinds, self@.collection(p), kind) == 0,
    {
        let ghost coll = self@.collection(p);
        assert(coll == self.players@[p as int].collection@);
        let mut i: usize = 0;
        while i < self.players[p].collection.len()
            invariant
                p < self.players@.len(),
                coll == self@.collection(p),
                coll == self.players@[p as int].collection@,
                i <= coll.len(),
                count_kind(self@.kinds, coll.take(i as int), kind) == 0,
                forall|j: int| 0 <= j < i ==> kind_in(self@.kinds, #[trigger] coll[j]) != kind,
            decreases coll.len() - i,
        {
            proof {
                assert(coll.take(i as int + 1).drop_last() =~= coll.take(i as int));
                assert(coll.take(i as int + 1).last() == coll[i as int]);
            }
            if self.kind_of(self.players[p].collection[i]) == kind {
                proof {
                    crate::turn_end::lemma_first_kind_index(self@.kinds, coll, kind, i as int);
                }
                return Some(i);
            }
            i += 1;
        }
        assert(coll.take(i as int) =~= coll);
        None
    }

    /// Moves the `i`-th card of seat `p`'s collection to the discard pile.
    fn discard_at(&mut self, p: PlayerId, i: usize)
        requires
            p < old(self).players@.len(),
            i < old(self)@.collection(p).len(),
        ensures
            final(self)@ == with_discard(
                with_collection(old(self)@, p, old(self)@.collection(p).remove(i as int)),
                old(self)@.discard_pile.push(old(self)@.collection(p)[i as int]),
            ),
            final(self).players@.len() == old(self).players@.len(),
            game_ids(final(self)@) == game_ids(old(self)@),
    {
        proof {
            crate::places::lemma_discard_at_ids(self@, p, i as int);
        }
        let ghost before = self.players@;
        proof {
            assert(players_view(before)[p as int] == before[p as int]@);
        }
        let c = self.players[p].collection.remove(i);
        proof {
            lemma_players_view_update(before, p as int, self.players@[p as int]);
            assert(self.players@ == before.update(p as int, self.players@[p as int]));
            assert(self@.players =~= with_collection(old(self)@, p, old(self)@.collection(p).remove(i as int)).players);
        }
        self.discard_pile.push(c);
    }

    /// Trades in `size` cards of `kind` from seat `p`'s collection: the
    /// first ones in collection order go to the discard pile.
    pub(crate) fn discard_set(&mut self, p: PlayerId, kind: CardKind, size: u32)
        requires
            p < old(self).players@.len(),
            count_kind(old(self)@.kinds, old(self)@.collection(p), kind) >= size,
        ensures
            holdings_only(old(self)@, final(self)@),
            final(self)@.phase == old(self)@.phase,
            final(self)@.draw_pile == old(self)@.draw_pile,
            final(self).players@.len() == old(self).players@.len(),
            forall|q: int| 0 <= q < final(self)@.players.len() && q != p ==> #[trigger] final(self)@.players[q] == old(self)@.players[q],
            final(self)@.hand(p) == old(self)@.hand(p),
            final(self)@.tokens(p) == old(self)@.tokens(p),
            count_kind(final(self)@.kinds, final(self)@.collection(p), kind) == count_kind(old(self)@.kinds, old(self)@.collection(p), kind) - size,
            forall|k: CardKind| k != kind ==> #[trigger] count_kind(final(self)@.kinds, final(self)@.collection(p), k)
                == count_kind(old(self)@.kinds, old(self)@.collection(p), k),
            players_cards(final(self)@.players) == players_cards(old(self)@.players) - size,
            final(self)@.card_count() == old(self)@.card_count(),
            game_ids(final(self)@) == game_ids(old(self)@),
            final(self)@ == crate::turn_end::discard_kind(old(self)@, p, kind, size as nat),
    {
        let ghost v0 = self@;
        let mut removed: u32 = 0;
        while removed < size
            invariant
                p < self.players@.len(),
                p < v0.players.len(),
                removed <= size,
                holdings_only(v0, self@),
                self@.phase == v0.phase,
                self@.draw_pile == v0.draw_pile,
                self.players@.len() == v0.players.len(),
                forall|q: int| 0 <= q < self@.players.len() && q != p ==> #[trigger] self@.players[q] == v0.players[q],
                self@.hand(p) == v0.hand(p),
                self@.tokens(p) == v0.tokens(p),
                count_kind(v0.kinds, v0.collection(p), kind) >= size,
                count_kind(self@.kinds, self@.collection(p), kind) == count_kind(v0.kinds, v0.collection(p), kind) - removed,
                forall|k: CardKind| k != kind ==> #[trigger] count_kind(self@.kinds, self@.collection(p), k)
                    == count_kind(v0.kinds, v0.collection(p), k),
                players_cards(self@.players) == players_cards(v0.players) - removed,
                self@.card_count() == v0.card_count(),
                game_ids(self@) == game_ids(v0),
                self@ == crate::turn_end::discard_kind(v0, p, kind, removed as nat),
            decreases size - removed,
        {
            let ghost w = self@;
            let i = match self.first_of_kind(p, kind) {
                Some(i) => i,
                None => {
                    proof {
                        assert(false);
                    }
                    return;
                },
            };
            self.discard_at(p, i);
            proof {
                let c = w.collection(p);
                lemma_count_kind_remove(w, c, i as int, kind);
                assert forall|k: CardKind| k != kind implies #[trigger] count_kind(self@.kinds, self@.collection(p), k)
                    == count_kind(v0.kinds, v0.collection(p), k) by {
                    lemma_count_kind_remove(w, c, i as int, k);
                };
                let x = PlayerView { collection: c.remove(i as int), ..w.players[p as int] };
                lemma_count_with_player(w, p, x);
                crate::game::lemma_players_cards_update(w.players, p as int, x);
            }
            removed = removed + 1;
        }
    }
}


/// The nasty kind in class position `i`.
fn nasty_at(i: usize) -> (k: NastyKind)
    requires
        i < 3,
    ensures
        nasty_index_spec(k) == i,
        k == crate::turn_end::nasty_of(i as int),
{
    if i == 0 {
        NastyKind::PoisonPillBug
    } else if i == 1 {
        NastyKind::LoanShark
    } else {
        NastyKind::TrojanHorse
    }
}

/// The creature tier in class position `i`.
fn tier_at(i: usize) -> (t: Tier)
    requires
        i < 4,
    ensures
        tier_index_spec(t) == i,
        t == crate::turn_end::tier_of(i as int),
{
    if i == 0 {
        Tier::Giant
    } else if i == 1 {
        Tier::Big
    } else if i == 2 {
        Tier::Medium
    } else {
        Tier::Tiny
    }
}

/// Deals never hold a negative number of cards.
pub proof fn lemma_deals_cards_nonneg(ds: Seq<crate::deal::DealView>)
    ensures
        deals_cards(ds) >= 0,
    decreases ds.len(),
{
    if ds.len() > 0 {
        lemma_deals_cards_nonneg(ds.drop_last());
    }
}

/// The seats never hold more cards than the whole game.
pub proof fn lemma_players_within_count(v: GameView)
    ensures
        0 <= players_cards(v.players) <= v.card_count(),
{
    lemma_players_cards_nonneg(v.players);
    lemma_deals_cards_nonneg(v.deals);
}

/// Point tokens grew by at most the cards the seats gave up since `v0`.
pub open spec fn tokens_within(v0: GameView, v: GameView) -> bool {
    &&& players_cards(v.players) <= players_cards(v0.players)
    &&& forall|q: PlayerId| q < v.num_players ==>
        #[trigger] v.tokens(q) <= v0.tokens(q) + (players_cards(v0.players) - players_cards(v.players))
}

impl GameState {
    /// The first seat (in seat order) and nasty kind (in class order) with
    /// a complete set, if any.
    fn find_nasty_set(&self) -> (r: Option<(PlayerId, NastyKind)>)
        requires
            self@.wf(),
        ensures
            r matches Some((p, k)) ==> p < self@.num_players && self@.catalog.has_nasty(k)
                && count_kind(self@.kinds, self@.collection(p), CardKind::Nasty(k)) >= self@.catalog.nasty_size(k),
            r is None ==> crate::rules::nasty_settled(self@),
            r == crate::turn_end::first_nasty(self@),
    {
        let n = self.num_players;
        let mut p: usize = 0;
        while p < n
            invariant
                self@.wf(),
                n == self@.num_players,
                p <= n,
                forall|q: PlayerId, k: NastyKind| q < p && self@.catalog.has_nasty(k) ==>
                    #[trigger] count_kind(self@.kinds, self@.collection(q), CardKind::Nasty(k)) < self@.catalog.nasty_size(k),
                crate::turn_end::first_nasty_from(self@, p as int, 0, n as int) == crate::turn_end::first_nasty(self@),
            decreases n - p,
        {
            let mut i: usize = 0;
            while i < 3
                invariant
                    self@.wf(),
                    n == self@.num_players,
                    p < n,
                    i <= 3,
                    forall|q: PlayerId, k: NastyKind| q < p && self@.catalog.has_nasty(k) ==>
                        #[trigger] count_kind(self@.kinds, self@.collection(q), CardKind::Nasty(k)) < self@.catalog.nasty_size(k),
                    forall|k: NastyKind| nasty_index_spec(k) < i && self@.catalog.has_nasty(k) ==>
                        #[trigger] count_kind(self@.kinds, self@.collection(p), CardKind::Nasty(k)) < self@.catalog.nasty_size(k),
                    crate::turn_end::first_nasty_from(self@, p as int, i as int, n as int) == crate::turn_end::first_nasty(self@),
                decreases 3 - i,
            {
                let k = nasty_at(i);
                match self.catalog.nasty_set_size[i] {
                    Some(size) => {
                        let cnt = self.count_of_kind(p, CardKind::Nasty(k));
                        if cnt as u64 >= size as u64 {
                            return Some((p, k));
                        }
                    },
                    None => {},
                }
                i += 1;
            }
            p += 1;
        }
        None
    }

    /// Seat `p`'s point tokens, then `t` more or fewer.
    fn tokens_of(&self, p: PlayerId) -> (t: u32)
        requires
            p < self@.players.len(),
        ensures
            t == self@.tokens(p),
    {
        self.players[p].point_tokens
    }
}

impl GameState {
    /// Trades in every complete creature set, seat by seat and tier by
    /// tier, one point token per set.
    fn creature_trade_in(&mut self, Ghost(v0): Ghost<GameView>) -> (evs: Vec<Event>)
        requires
            old(self)@.wf(),
            tokens_room(v0),
            holdings_only(v0, old(self)@),
            old(self)@.card_count() == v0.card_count(),
            tokens_within(v0, old(self)@),
            nasty_settled(old(self)@),
            game_ids(old(self)@) == game_ids(v0),
        ensures
            final(self)@.wf(),
            holdings_only(v0, final(self)@),
            final(self)@.card_count() == v0.card_count(),
            game_ids(final(self)@) == game_ids(v0),
            tokens_within(v0, final(self)@),
            nasty_settled(final(self)@),
            creatures_settled(final(self)@),
            no_nasty_trade_ins(events_view(evs@)),
            final(self)@.phase == old(self)@.phase,
            final(self)@.draw_pile == old(self)@.draw_pile,
            forall|q: int| 0 <= q < final(self)@.players.len() ==> #[trigger] final(self)@.players[q].hand == old(self)@.players[q].hand,
            final(self)@ == crate::turn_end::creature_trade(old(self)@).0,
            events_view(evs@) == crate::turn_end::creature_trade(old(self)@).1,
    {
        let ghost v1 = self@;
        proof {
            lemma_players_within_count(v0);
        }
        let n = self.num_players;
        let mut evs: Vec<Event> = Vec::new();
        let mut p: usize = 0;
        while p < n
            invariant
                self@.wf(),
                n == self@.num_players,
                p <= n,
                tokens_room(v0),
                players_cards(v0.players) <= v0.card_count(),
                holdings_only(v0, self@),
                self@.card_count() == v0.card_count(),
                tokens_within(v0, self@),
                nasty_settled(self@),
                self@.phase == v1.phase,
                self@.draw_pile == v1.draw_pile,
                no_nasty_trade_ins(events_view(evs@)),
                game_ids(self@) == game_ids(v0),
                self@.players.len() == v1.players.len(),
                forall|q: int| 0 <= q < self@.players.len() ==> #[trigger] self@.players[q].hand == v1.players[q].hand,
                forall|q: PlayerId, t: Tier| q < p && self@.catalog.has_tier(t) ==>
                    #[trigger] count_kind(self@.kinds, self@.collection(q), CardKind::Creature(t)) < self@.catalog.tier_size(t),
                seats_from(self@, p as int, n as int).0 == seats_from(v1, 0, n as int).0,
                events_view(evs@) + seats_from(self@, p as int, n as int).1 == seats_from(v1, 0, n as int).1,
            decreases n - p,
        {
            let ghost s0 = self@;
            let ghost e0 = events_view(evs@);
            let mut ti: usize = 0;
            while ti < 4
                invariant
                    self@.wf(),
                    n == self@.num_players,
                    p < n,
                    ti <= 4,
                    tokens_room(v0),
                    players_cards(v0.players) <= v0.card_count(),
                    holdings_only(v0, self@),
                    self@.card_count() == v0.card_count(),
                    tokens_within(v0, self@),
                    nasty_settled(self@),
                    self@.phase == v1.phase,
                    self@.draw_pile == v1.draw_pile,
                    no_nasty_trade_ins(events_view(evs@)),
                    game_ids(self@) == game_ids(v0),
                    self@.players.len() == v1.players.len(),
                    forall|q: int| 0 <= q < self@.players.len() ==> #[trigger] self@.players[q].hand == v1.players[q].hand,
                    forall|q: PlayerId, t: Tier| q < p && self@.catalog.has_tier(t) ==>
                        #[trigger] count_kind(self@.kinds, self@.collection(q), CardKind::Creature(t)) < self@.catalog.tier_size(t),
                    forall|t: Tier| tier_index_spec(t) < ti && self@.catalog.has_tier(t) ==>
                        #[trigger] count_kind(self@.kinds, self@.collection(p), CardKind::Creature(t)) < self@.catalog.tier_size(t),
                    seats_from(s0, p as int, n as int).0 == seats_from(v1, 0, n as int).0,
                    e0 + seats_from(s0, p as int, n as int).1 == seats_from(v1, 0, n as int).1,
                    tiers_from(self@, p, ti as int).0 == tiers_from(s0, p, 0).0,
                    events_view(evs@) + tiers_from(self@, p, ti as int).1 == e0 + tiers_from(s0, p, 0).1,
                decreases 4 - ti,
            {
                let t = tier_at(ti);
                match self.catalog.creature_set_size[ti] {
                    None => {
                        proof {
                            assert(!self@.catalog.has_tier(t));
                            assert(tiers_from(self@, p, ti as int) == (tiers_from(self@, p, ti as int + 1).0,
                                Seq::<EventView>::empty() + tiers_from(self@, p, ti as int + 1).1));
                            assert(Seq::<EventView>::empty() + tiers_from(self@, p, ti as int + 1).1 =~= tiers_from(self@, p, ti as int + 1).1);
                        }
                    },
                    Some(size) => {
                        proof {
                            assert(self@.catalog.creature_set_size@[ti as int] matches Some(z) ==> z >= 1);
                        }
                        let mut cnt = self.count_of_kind(p, CardKind::Creature(t));
                        let ghost w0 = self@;
                        let ghost ee = events_view(evs@);
                        while cnt as u64 >= size as u64
                            invariant
                                self@.wf(),
                                n == self@.num_players,
                                p < n,
                                ti < 4,
                                tier_index_spec(t) == ti,
                                size >= 1,
                                self@.catalog.has_tier(t),
                                size == self@.catalog.tier_size(t),
                                cnt == count_kind(self@.kinds, self@.collection(p), CardKind::Creature(t)),
                                tokens_room(v0),
                                players_cards(v0.players) <= v0.card_count(),
                                holdings_only(v0, self@),
                                self@.card_count() == v0.card_count(),
                                tokens_within(v0, self@),
                                nasty_settled(self@),
                                self@.phase == v1.phase,
                                self@.draw_pile == v1.draw_pile,
                                no_nasty_trade_ins(events_view(evs@)),
                                game_ids(self@) == game_ids(v0),
                                self@.players.len() == v1.players.len(),
                                forall|q: int| 0 <= q < self@.players.len() ==> #[trigger] self@.players[q].hand == v1.players[q].hand,
                                forall|q: PlayerId, t2: Tier| q < p && self@.catalog.has_tier(t2) ==>
                                    #[trigger] count_kind(self@.kinds, self@.collection(q), CardKind::Creature(t2)) < self@.catalog.tier_size(t2),
                                forall|t2: Tier| tier_index_spec(t2) < ti && self@.catalog.has_tier(t2) ==>
                                    #[trigger] count_kind(self@.kinds, self@.collection(p), CardKind::Creature(t2)) < self@.catalog.tier_size(t2),
                                seats_from(s0, p as int, n as int).0 == seats_from(v1, 0, n as int).0,
                                e0 + seats_from(s0, p as int, n as int).1 == seats_from(v1, 0, n as int).1,
                                tiers_from(w0, p, ti as int).0 == tiers_from(s0, p, 0).0,
                                ee + tiers_from(w0, p, ti as int).1 == e0 + tiers_from(s0, p, 0).1,
                                w0.catalog == self@.catalog,
                                creature_sets(self@, p, t, (cnt as int / size as int) as nat).0 == creature_sets(w0, p, t, sets_held(w0, p, t) as nat).0,
                                events_view(evs@) + creature_sets(self@, p, t, (cnt as int / size as int) as nat).1
                                    == ee + creature_sets(w0, p, t, sets_held(w0, p, t) as nat).1,
                            decreases cnt,
                        {
                            let ghost w = self@;
                            let ghost c_old = cnt as int;
                            let ghost e_old = events_view(evs@);
                            self.discard_set(p, CardKind::Creature(t), size);
                            let ghost w2 = self@;
                            let tp = self.tokens_of(p);
                            proof {
                                lemma_players_cards_nonneg(w2.players);
                                assert(w.tokens(p) <= v0.tokens(p) + (players_cards(v0.players) - players_cards(w.players)));
                                assert(v0.tokens(p) + v0.card_count() < u32::MAX);
                                assert(w2.tokens(p) == w.tokens(p));
                                assert(players_cards(w2.players) == players_cards(w.players) - size);
                            }
                            self.set_tokens(p, tp + 1);
                            proof {
                                crate::places::lemma_tokens_ids(w2, p, (tp + 1) as u32);
                                let x = PlayerView { point_tokens: (tp + 1) as u32, ..w2.players[p as int] };
                                crate::game::lemma_players_cards_update(w2.players, p as int, x);
                                lemma_count_with_player(w2, p, x);
                                assert(players_cards(self@.players) == players_cards(w2.players));
                                assert forall|q: PlayerId| q < self@.num_players implies
                                    #[trigger] self@.tokens(q) <= v0.tokens(q) + (players_cards(v0.players) - players_cards(self@.players)) by {
                                    assert(w.tokens(q) <= v0.tokens(q) + (players_cards(v0.players) - players_cards(w.players)));
                                    if q != p {
                                        assert(self@.players[q as int] == w.players[q as int]);
                                    }
                                };
                                assert(self@.collection(p) == w2.collection(p));
                                assert forall|q: PlayerId, k: NastyKind| q < self@.num_players && self@.catalog.has_nasty(k) implies
                                    #[trigger] count_kind(self@.kinds, self@.collection(q), CardKind::Nasty(k)) < self@.catalog.nasty_size(k) by {
                                    assert(count_kind(w.kinds, w.collection(q), CardKind::Nasty(k)) < w.catalog.nasty_size(k));
                                    if q != p {
                                        assert(self@.players[q as int] == w.players[q as int]);
                                    } else {
                                        assert(CardKind::Nasty(k) != CardKind::Creature(t));
                                        assert(count_kind(w2.kinds, w2.collection(p), CardKind::Nasty(k)) == count_kind(w.kinds, w.collection(p), CardKind::Nasty(k)));
                                    }
                                };
                                assert forall|q: PlayerId, t2: Tier| q < p && self@.catalog.has_tier(t2) implies
                                    #[trigger] count_kind(self@.kinds, self@.collection(q), CardKind::Creature(t2)) < self@.catalog.tier_size(t2) by {
                                    assert(count_kind(w.kinds, w.collection(q), CardKind::Creature(t2)) < w.catalog.tier_size(t2));
                                    assert(self@.players[q as int] == w.players[q as int]);
                                };
                                assert forall|t2: Tier| tier_index_spec(t2) < ti && self@.catalog.has_tier(t2) implies
                                    #[trigger] count_kind(self@.kinds, self@.collection(p), CardKind::Creature(t2)) < self@.catalog.tier_size(t2) by {
                                    assert(CardKind::Creature(t2) != CardKind::Creature(t));
                                    assert(count_kind(w.kinds, w.collection(p), CardKind::Creature(t2)) < w.catalog.tier_size(t2));
                                    assert(count_kind(w2.kinds, w2.collection(p), CardKind::Creature(t2)) == count_kind(w.kinds, w.collection(p), CardKind::Creature(t2)));
                                };
                                assert forall|q: int| 0 <= q < self@.players.len() implies #[trigger] self@.players[q].hand == v1.players[q].hand by {
                                    if q != p {
                                        assert(self@.players[q] == w.players[q]);
                                    }
                                };
                                crate::turn::lemma_wf_frame(w, self@);
                            }
                            let ghost e0 = evs@;
                            evs.push(Event::CreatureSetTradedIn { player: p, tier: t, tokens_gained: 1 });
                            proof {
                                lemma_events_push(e0, Event::CreatureSetTradedIn { player: p, tier: t, tokens_gained: 1 });
                            }
                            cnt = self.count_of_kind(p, CardKind::Creature(t));
                            proof {
                                assert(self@ == crate::turn_end::creature_set(w, p, t));
                                let sz = size as int;
                                assert(cnt == c_old - sz);
                                assert((c_old - sz) / sz == c_old / sz - 1) by (nonlinear_arith)
                                    requires
                                        c_old >= sz,
                                        sz >= 1;
                                let m = (c_old / sz) as nat;
                                assert(m >= 1);
                                let r = creature_sets(self@, p, t, (m - 1) as nat);
                                assert(creature_sets(w, p, t, m) == (r.0,
                                    seq![EventView::CreatureSetTradedIn { player: p, tier: t, tokens_gained: 1 }] + r.1));
                                assert(((cnt as int / size as int) as nat) == (m - 1) as nat);
                                assert(events_view(evs@) =~= e_old.push(EventView::CreatureSetTradedIn { player: p, tier: t, tokens_gained: 1 }));
                                assert(events_view(evs@) + r.1 =~= e_old + (seq![EventView::CreatureSetTradedIn { player: p, tier: t, tokens_gained: 1 }] + r.1));
                            }
                        }
                        proof {
                            assert(cnt as int / size as int == 0) by (nonlinear_arith)
                                requires
                                    0 <= cnt < size;
                            assert(creature_sets(self@, p, t, 0) == (self@, Seq::<EventView>::empty()));
                            assert(events_view(evs@) + Seq::<EventView>::empty() =~= events_view(evs@));
                            let a0 = creature_sets(w0, p, t, sets_held(w0, p, t) as nat);
                            assert(tiers_from(w0, p, ti as int) == (tiers_from(a0.0, p, ti as int + 1).0, a0.1 + tiers_from(a0.0, p, ti as int + 1).1));
                            assert(ee + (a0.1 + tiers_from(self@, p, ti as int + 1).1) =~= (ee + a0.1) + tiers_from(self@, p, ti as int + 1).1);
                        }
                    },
                }
                ti += 1;
            }
            proof {
                assert(tiers_from(self@, p, 4) == (self@, Seq::<EventView>::empty()));
                assert(events_view(evs@) + Seq::<EventView>::empty() =~= events_view(evs@));
                let a0 = tiers_from(s0, p, 0);
                assert(seats_from(s0, p as int, n as int) == (seats_from(a0.0, p as int + 1, n as int).0,
                    a0.1 + seats_from(a0.0, p as int + 1, n as int).1));
                assert(e0 + (a0.1 + seats_from(self@, p as int + 1, n as int).1) =~= (e0 + a0.1) + seats_from(self@, p as int + 1, n as int).1);
                assert forall|q: PlayerId, t: Tier| q < p + 1 && self@.catalog.has_tier(t) implies
                    #[trigger] count_kind(self@.kinds, self@.collection(q), CardKind::Creature(t)) < self@.catalog.tier_size(t) by {
                    if q == p {
                        assert(tier_index_spec(t) < 4);
                    }
                };
            }
            p += 1;
        }
        proof {
            assert(seats_from(self@, p as int, n as int) == (self@, Seq::<EventView>::empty()));
            assert(events_view(evs@) + Seq::<EventView>::empty() =~= events_view(evs@));
        }
        evs
    }
}

impl GameState {
    /// Refills every hand to five cards from the draw pile, reshuffling the
    /// discard pile into a new draw pile when the draw pile runs out; stops
    /// early only when both piles are empty.
    fn refill(&mut self) -> (evs: Vec<Event>)
        requires
            old(self)@.wf(),
        ensures
            final(self)@.wf(),
            holdings_only(old(self)@, final(self)@),
            final(self)@.card_count() == old(self)@.card_count(),
            final(self)@.phase == old(self)@.phase,
            forall|q: int| 0 <= q < final(self)@.players.len() ==> (#[trigger] final(self)@.players[q]).collection
                == old(self)@.players[q].collection && final(self)@.players[q].point_tokens == old(self)@.players[q].point_tokens,
            hands_full(final(self)@),
            no_nasty_trade_ins(events_view(evs@)),
            game_ids(final(self)@) == game_ids(old(self)@),
            crate::rules::hands_small(old(self)@) ==> crate::rules::hands_small(final(self)@),
            crate::turn_end::hands_grew(old(self)@, final(self)@),
            forall|i: int| 0 <= i < evs@.len() ==> crate::turn_end::refill_report(#[trigger] events_view(evs@)[i]),
            crate::turn_end::drawn_from_top(old(self)@, final(self)@, events_view(evs@)),
            exists|sh: Seq<CardId>| crate::turn_end::refill_result(old(self)@, final(self)@, sh),
            events_view(evs@) == crate::turn_end::refill_events(old(self)@, old(self)@.players.len() as int),
    {
        let ghost v0 = self@;
        let ghost mut sh: Seq<CardId> = v0.discard_pile;
        proof {
            crate::turn_end::lemma_progress_start(v0);
            assert(crate::turn_end::refill_taken(v0, 0) == 0);
        }
        let n = self.num_players;
        let mut evs: Vec<Event> = Vec::new();
        assert(events_view(evs@) =~= Seq::<EventView>::empty());
        assert(v0.draw_pile.take(v0.draw_pile.len() as int) =~= v0.draw_pile);
        assert forall|q: int| 0 <= q < v0.players.len() implies (#[trigger] v0.players[q]).hand.take(v0.players[q].hand.len() as int)
            == v0.players[q].hand by {
            assert(v0.players[q].hand.take(v0.players[q].hand.len() as int) =~= v0.players[q].hand);
        };
        let mut p: usize = 0;
        while p < n
            invariant
                self@.wf(),
                n == self@.num_players,
                p <= n,
                holdings_only(v0, self@),
                self@.card_count() == v0.card_count(),
                self@.phase == v0.phase,
                no_nasty_trade_ins(events_view(evs@)),
                game_ids(self@) == game_ids(v0),
                forall|q: int| 0 <= q < self@.players.len() ==> (#[trigger] self@.players[q]).collection
                    == v0.players[q].collection && self@.players[q].point_tokens == v0.players[q].point_tokens,
                forall|q: PlayerId| q < p ==> #[trigger] self@.hand(q).len() >= 5
                    || (self@.draw_pile.len() == 0 && self@.discard_pile.len() == 0),
                crate::rules::hands_small(v0) ==> crate::rules::hands_small(self@),
                crate::turn_end::hands_grew(v0, self@),
                forall|i: int| 0 <= i < evs@.len() ==> crate::turn_end::refill_report(#[trigger] events_view(evs@)[i]),
                crate::turn_end::drawn_from_top(v0, self@, events_view(evs@)),
                crate::turn_end::refill_progress(v0, self@, events_view(evs@), p as int,
                    crate::turn_end::refill_taken(v0, p as int), sh),
            decreases n - p,
        {
            let mut drawn: usize = 0;
            proof {
                assert(events_view(evs@) + Seq::<EventView>::empty() =~= events_view(evs@));
            }
            while self.players[p].hand.len() < 5 && (self.draw_pile.len() > 0 || self.discard_pile.len() > 0)
                invariant
                    self@.wf(),
                    n == self@.num_players,
                    p < n,
                    holdings_only(v0, self@),
                    self@.card_count() == v0.card_count(),
                    self@.phase == v0.phase,
                    no_nasty_trade_ins(events_view(evs@)),
                    game_ids(self@) == game_ids(v0),
                    drawn <= self@.hand(p).len(),
                    forall|q: int| 0 <= q < self@.players.len() ==> (#[trigger] self@.players[q]).collection
                        == v0.players[q].collection && self@.players[q].point_tokens == v0.players[q].point_tokens,
                    forall|q: PlayerId| q < p ==> #[trigger] self@.hand(q).len() >= 5
                        || (self@.draw_pile.len() == 0 && self@.discard_pile.len() == 0),
                    crate::rules::hands_small(v0) ==> crate::rules::hands_small(self@),
                    crate::turn_end::hands_grew(v0, self@),
                    forall|i: int| 0 <= i < evs@.len() ==> crate::turn_end::refill_report(#[trigger] events_view(evs@)[i]),
                    crate::turn_end::refill_part(v0, self@, events_view(evs@), drawn as int),
                    crate::turn_end::refill_progress(v0, self@, events_view(evs@), p as int,
                        crate::turn_end::refill_taken(v0, p as int) + drawn, sh),
                decreases self@.draw_pile.len() + 2 * self@.discard_pile.len(),
            {
                let ghost w = self@;
                let ghost ev_w = events_view(evs@);
                let ghost mut shuffled_g: Seq<CardId> = Seq::empty();
                let ghost sh_w = sh;
                if self.draw_pile.len() == 0 {
                    let mut pile: Vec<CardId> = Vec::new();
                    std::mem::swap(&mut pile, &mut self.discard_pile);
                    let ghost unshuffled = pile@;
                    self.rng.shuffle(&mut pile);
                    let ghost shuffled = pile@;
                    proof {
                        shuffled_g = shuffled;
                        sh = shuffled;
                        assert(unshuffled == w.discard_pile);
                        crate::places::lemma_reshuffle_ids(w, shuffled);
                    }
                    self.draw_pile = pile;
                    proof {
                        assert(self@ == crate::rules::with_draw(crate::rules::with_discard(w, Seq::empty()), shuffled));
                    }
                    let ghost e0 = evs@;
                    evs.push(Event::DrawPileReshuffledFromDiscard);
                    proof {
                        lemma_events_push(e0, Event::DrawPileReshuffledFromDiscard);
                        crate::turn_end::lemma_reported_push(events_view(e0), EventView::DrawPileReshuffledFromDiscard);
                        crate::turn_end::lemma_refilled_push(events_view(e0), EventView::DrawPileReshuffledFromDiscard);
                    }
                }
                let ghost w1 = self@;
                proof {
                    assert(w1.card_count() == w.card_count());
                    assert(w1.draw_pile.len() > 0);
                }
                let c = match self.draw_pile.pop() {
                    Some(c) => c,
                    None => {
                        proof {
                            assert(false);
                        }
                        0
                    },
                };
                let ghost before = self.players@;
                proof {
                    assert(players_view(before)[p as int] == before[p as int]@);
                }
                self.players[p].hand.push(c);
                proof {
                    lemma_players_view_update(before, p as int, self.players@[p as int]);
                    assert(self.players@ == before.update(p as int, self.players@[p as int]));
                    let x = self.players@[p as int]@;
                    let w2 = crate::rules::with_draw(w1, w1.draw_pile.drop_last());
                    lemma_count_with_player(w2, p, x);
                    assert(self@ == with_player(w2, p, x));
                    crate::places::lemma_draw_ids(w1, p);
                    crate::turn_end::lemma_hand_cards_update(w2.players, p as int, x);
                    assert(crate::turn_end::hand_cards(self@.players) == crate::turn_end::hand_cards(w.players) + 1);
                    if !crate::turn_end::reshuffle_reported(events_view(evs@)) {
                        assert(w1 == w);
                        let len0 = v0.draw_pile.len() as int;
                        let g = crate::turn_end::hand_cards(w.players) - crate::turn_end::hand_cards(v0.players);
                        assert(w.draw_pile == v0.draw_pile.take(len0 - g));
                        assert(0 <= g <= len0);
                        assert(w1.draw_pile.len() == len0 - g);
                        assert(self@.draw_pile == w1.draw_pile.drop_last());
                        assert(self@.draw_pile =~= v0.draw_pile.take(len0 - (g + 1)));
                    } else if !crate::turn_end::reshuffle_reported(ev_w) {
                        let len0 = v0.draw_pile.len() as int;
                        let g = crate::turn_end::hand_cards(w.players) - crate::turn_end::hand_cards(v0.players);
                        assert(w.draw_pile == v0.draw_pile.take(len0 - g));
                        assert(w.draw_pile.len() == 0);
                        assert(g == len0);
                    }
                    assert(x == PlayerView { hand: w1.hand(p).push(w1.draw_pile.last()), ..w1.players[p as int] });
                    assert forall|q: int| 0 <= q < self@.players.len() implies (#[trigger] self@.players[q]).collection
                        == v0.players[q].collection && self@.players[q].point_tokens == v0.players[q].point_tokens by {
                        assert(w.players[q].collection == v0.players[q].collection);
                    };
                    assert forall|q: PlayerId| q < p implies #[trigger] self@.hand(q).len() >= 5
                        || (self@.draw_pile.len() == 0 && self@.discard_pile.len() == 0) by {
                        assert(w.hand(q).len() >= 5 || (w.draw_pile.len() == 0 && w.discard_pile.len() == 0));
                    };
                    crate::turn::lemma_wf_frame(w, self@);
                    assert forall|q: int| 0 <= q < self@.players.len() implies (#[trigger] self@.players[q]).hand.len() >= v0.players[q].hand.len()
                        && self@.players[q].hand.take(v0.players[q].hand.len() as int) == v0.players[q].hand by {
                        if q != p {
                            assert(self@.players[q] == w.players[q]);
                        } else {
                            assert(w.players[q].hand.take(v0.players[q].hand.len() as int) == v0.players[q].hand);
                            assert(self@.players[q].hand =~= w.players[q].hand.push(w1.draw_pile.last()));
                            assert(self@.players[q].hand.take(v0.players[q].hand.len() as int)
                                =~= w.players[q].hand.take(v0.players[q].hand.len() as int));
                        }
                    };
                    if crate::rules::hands_small(v0) {
                        assert forall|q: int| 0 <= q < self@.players.len() implies (#[trigger] self@.players[q]).hand.len() <= 5 by {
                            if q != p {
                                assert(self@.players[q] == w.players[q]);
                            }
                        };
                    }
                }
                proof {
                    crate::turn_end::lemma_progress_draw(v0, w, ev_w, p as int,
                        crate::turn_end::refill_taken(v0, p as int) + drawn, sh_w, shuffled_g, self@, events_view(evs@), sh);
                }
                drawn = drawn + 1;
            }
            let ghost e_seat = events_view(evs@);
            proof {
                crate::turn_end::lemma_progress_seat_done(v0, self@, e_seat, p as int,
                    crate::turn_end::refill_taken(v0, p as int) + drawn, sh);
            }
            if drawn > 0 {
                let ghost e0 = evs@;
                evs.push(Event::HandRefilled { player: p, drawn });
                proof {
                    lemma_events_push(e0, Event::HandRefilled { player: p, drawn });
                    crate::turn_end::lemma_reported_push(events_view(e0), EventView::HandRefilled { player: p, drawn });
                    crate::turn_end::lemma_refilled_push(events_view(e0), EventView::HandRefilled { player: p, drawn });
                    assert(events_view(evs@) =~= e_seat + seq![EventView::HandRefilled { player: p, drawn }]);
                }
            } else {
                proof {
                    assert(e_seat + Seq::<EventView>::empty() =~= e_seat);
                }
            }
            p += 1;
        }
        proof {
            crate::turn_end::lemma_progress_done(v0, self@, events_view(evs@), crate::turn_end::refill_taken(v0, p as int), sh);
        }
        evs
    }

    /// The seat that has won now, if any: the unique leader in point tokens,
    /// at or above the threshold.
    fn winner_now(&self) -> (r: Option<PlayerId>)
        requires
            self@.wf(),
        ensures
            r matches Some(w) ==> wins(self@, w),
            r is None ==> forall|w: PlayerId| !wins(self@, w),
    {
        let n = self.num_players;
        let mut best: usize = 0;
        let mut q: usize = 1;
        while q < n
            invariant
                self@.wf(),
                n == self@.num_players,
                1 <= q <= n,
                best < q,
                forall|x: PlayerId| x < q ==> #[trigger] self@.tokens(x) <= self@.tokens(best),
            decreases n - q,
        {
            if self.players[q].point_tokens > self.players[best].point_tokens {
                best = q;
            }
            q += 1;
        }
        if self.players[best].point_tokens < self.win_threshold {
            return None;
        }
        let mut x: usize = 0;
        while x < n
            invariant
                self@.wf(),
                n == self@.num_players,
                x <= n,
                best < n,
                forall|y: PlayerId| y < n ==> #[trigger] self@.tokens(y) <= self@.tokens(best),
                forall|y: PlayerId| y < x && y != best ==> #[trigger] self@.tokens(y) < self@.tokens(best),
            decreases n - x,
        {
            if x != best && self.players[x].point_tokens >= self.players[best].point_tokens {
                proof {
                    assert forall|w: PlayerId| !wins(self@, w) by {
                        if wins(self@, w) {
                            if w == best {
                                assert(self@.tokens(x) < self@.tokens(w));
                            } else {
                                assert(self@.tokens(best) < self@.tokens(w));
                            }
                        }
                    };
                }
                return None;
            }
            x += 1;
        }
        Some(best)
    }
}

impl GameState {
    /// The first phase of a new turn under the current leader.
    pub(crate) fn new_turn(&self) -> (ph: Phase)
        requires
            self@.wf(),
            self@.deals.len() == 0,
        ensures
            ph@ == new_turn_phase(self@.mode, self@.turn_leader, self@.num_players),
            with_phase(self@, ph@).wf(),
    {
        let ph = match self.mode {
            GameMode::Buyer => Phase::DealOffer(DealOfferState {
                entries: deal_offer_entries(self.turn_leader, self.num_players),
                idx: 0,
                step: DealOfferStep::AwaitingSubmit,
            }),
            GameMode::TwoPlayer => Phase::TwoPlayerDealOffer(TwoPlayerDealState { step: TwoPlayerDealStep::AwaitingSplit }),
        };
        proof {
            let v = self@;
            let n = v.num_players;
            if v.mode == GameMode::Buyer {
                let e1 = ph@->DealOffer_entries;
                let e2 = table_order_after(v.turn_leader, n).map_values(
                    |p: PlayerId| DealOfferEntry { player: p, needs_reveal: true },
                );
                assert(e1 =~= e2);
                assert forall|i: int| 0 <= i < (n - 1) implies #[trigger] table_order_after(v.turn_leader, n)[i] < n by {};
                assert forall|i: int| 0 <= i < e1.len() implies #[trigger] e1[i].player < n by {
                    assert(e1[i].player == table_order_after(v.turn_leader, n)[i]);
                };
                crate::game::lemma_table_order_distinct(v.turn_leader, n);
                assert forall|i: int, j: int| 0 <= i < j < e1.len() implies #[trigger] e1[i].player != #[trigger] e1[j].player by {
                    assert(e1[i].player == table_order_after(v.turn_leader, n)[i]);
                    assert(e1[j].player == table_order_after(v.turn_leader, n)[j]);
                };
            }
            crate::turn::lemma_wf_frame(v, with_phase(v, ph@));
        }
        ph
    }

    /// Creature trade-ins, refilling, then the win check: the game ends
    /// with the winner or a new turn starts.
    #[verifier::spinoff_prover]
    #[verifier::rlimit(40)]
    fn finish_turn(&mut self, Ghost(v0): Ghost<GameView>) -> (evs: Vec<Event>)
        requires
            old(self)@.wf(),
            v0.deals.len() == 0,
            tokens_room(v0),
            holdings_only(v0, old(self)@),
            old(self)@.card_count() == v0.card_count(),
            tokens_within(v0, old(self)@),
            nasty_settled(old(self)@),
            game_ids(old(self)@) == game_ids(v0),
            forall|q: int| 0 <= q < v0.players.len() ==> #[trigger] old(self)@.players[q].hand == v0.players[q].hand,
        ensures
            final(self)@.wf(),
            traded_in(v0, final(self)@),
            !(final(self)@.phase is NastyResolution),
            no_nasty_trade_ins(events_view(evs@)),
            crate::turn_end::creatures_then_refill(old(self)@, final(self)@, events_view(evs@)),
    {
        let ghost v_in = self@;
        let mut evs = self.creature_trade_in(Ghost(v0));
        let ghost w = self@;
        let mut more = self.refill();
        let ghost e0 = evs@;
        let ghost e1 = more@;
        evs.append(&mut more);
        proof {
            lemma_events_append(e0, e1);
            assert(evs@ == e0 + e1);
        }
        proof {
            let u = self@;
            assert forall|q: PlayerId, k: NastyKind| q < u.num_players && u.catalog.has_nasty(k) implies
                #[trigger] count_kind(u.kinds, u.collection(q), CardKind::Nasty(k)) < u.catalog.nasty_size(k) by {
                assert(count_kind(w.kinds, w.collection(q), CardKind::Nasty(k)) < w.catalog.nasty_size(k));
                assert(u.players[q as int].collection == w.players[q as int].collection);
            };
            assert forall|q: PlayerId, t: Tier| q < u.num_players && u.catalog.has_tier(t) implies
                #[trigger] count_kind(u.kinds, u.collection(q), CardKind::Creature(t)) < u.catalog.tier_size(t) by {
                assert(count_kind(w.kinds, w.collection(q), CardKind::Creature(t)) < w.catalog.tier_size(t));
                assert(u.players[q as int].collection == w.players[q as int].collection);
            };
        }
        let ghost u = self@;
        let ghost e_refilled = events_view(evs@);
        proof {
            assert(settled(u));
        }
        match self.winner_now() {
            Some(winner) => {
                self.phase = Phase::GameOver { winner };
                let ghost e2 = evs@;
                evs.push(Event::GameOver { winner });
                proof {
                    lemma_events_push(e2, Event::GameOver { winner });
                }
                proof {
                    assert(self@ == with_phase(u, self@.phase));
                    lemma_wins_same(u, self@, winner);
                }
            },
            None => {
                let ph = self.new_turn();
                self.phase = ph;
                proof {
                    assert(self@ == with_phase(u, self@.phase));
                    assert forall|x: PlayerId| !wins(self@, x) by {
                        lemma_wins_same(u, self@, x);
                    };
                }
            },
        }
        proof {
            lemma_settled_phase(u, self@.phase);
            assert(self@ == with_phase(u, self@.phase));
            assert(holdings_only(v0, self@));
            let ct = crate::turn_end::creature_trade(v_in);
            let fv = self@;
            let ev = events_view(evs@);
            assert(w == ct.0);
            assert(events_view(e0) == ct.1);
            assert(events_view(e0 + e1) =~= events_view(e0) + events_view(e1));
            assert(ev.take(ct.1.len() as int) =~= ct.1);
            assert forall|i: int| ct.1.len() <= i < ev.len() implies crate::turn_end::refill_report(#[trigger] ev[i]) by {
                if i < ct.1.len() + e1.len() {
                    assert(ev[i] == events_view(e1)[i - ct.1.len()]);
                }
            };
            assert forall|q: int| 0 <= q < fv.players.len() implies (#[trigger] fv.players[q]).collection == ct.0.players[q].collection
                && fv.players[q].point_tokens == ct.0.players[q].point_tokens by {
                assert(fv.players[q] == u.players[q]);
            };
            let sk = ev.skip(ct.1.len() as int);
            assert(e_refilled.skip(ct.1.len() as int) =~= events_view(e1));
            let rs = crate::turn_end::refill_events(ct.0, ct.0.players.len() as int);
            assert(events_view(e1) == rs);
            if ev.len() > e_refilled.len() {
                assert(ev =~= e_refilled.push(ev.last()));
                assert(sk =~= events_view(e1).push(ev.last()));
                crate::turn_end::lemma_reported_push(events_view(e1), ev.last());
                crate::turn_end::lemma_refilled_push(events_view(e1), ev.last());
                assert(ev.last() is GameOver);
                assert(fv.phase == PhaseView::GameOver { winner: ev.last()->GameOver_winner });
                assert(sk =~= rs + seq![ev.last()]);
            } else {
                assert(ev =~= e_refilled);
                assert(sk =~= events_view(e1));
                assert(!(fv.phase is GameOver));
                assert(sk =~= rs + Seq::<EventView>::empty());
            }
            let sh = choose|sh: Seq<CardId>| crate::turn_end::refill_result(w, u, sh);
            assert(crate::turn_end::refill_result(ct.0, fv, sh));
            assert(fv.players == u.players);
            assert(crate::turn_end::hands_grew(ct.0, fv)) by {
                assert forall|q: int| 0 <= q < fv.players.len() implies (#[trigger] fv.players[q]).hand.len() >= ct.0.players[q].hand.len()
                    && fv.players[q].hand.take(ct.0.players[q].hand.len() as int) == ct.0.players[q].hand by {
                    assert(fv.players[q] == u.players[q]);
                };
            };
        }
        evs
    }
}


/// The events of one action grow by the view of the event pushed.
pub proof fn lemma_events_push(evs: Seq<Event>, e: Event)
    ensures
        events_view(evs.push(e)) == events_view(evs).push(e@),
{
    assert(events_view(evs.push(e)) =~= events_view(evs).push(e@));
}

/// The events of one action, appended, are the views appended.
pub proof fn lemma_events_append(a: Seq<Event>, b: Seq<Event>)
    ensures
        events_view(a + b) == events_view(a) + events_view(b),
{
    assert(events_view(a + b) =~= events_view(a) + events_view(b));
}

/// Nasty trade-ins reported before any creature trade-in come first.
pub proof fn lemma_nasties_first_concat(a: Seq<EventView>, b: Seq<EventView>)
    requires
        no_creature_trade_ins(a),
        nasties_first(b) || no_nasty_trade_ins(b),
    ensures
        nasties_first(a + b),
{
    let c = a + b;
    assert forall|i: int, j: int| 0 <= i < j < c.len() implies
        !((#[trigger] c[i]) is CreatureSetTradedIn && (#[trigger] c[j]) is NastySetTradedIn) by {
        if i < a.len() {
            assert(c[i] == a[i]);
        } else {
            assert(c[i] == b[i - a.len()]);
            assert(c[j] == b[j - a.len()]);
        }
    };
}

/// Winning only looks at the seats, their number and the threshold.
pub proof fn lemma_wins_same(a: GameView, b: GameView, w: PlayerId)
    requires
        a.players == b.players,
        a.num_players == b.num_players,
        a.win_threshold == b.win_threshold,
    ensures
        wins(a, w) == wins(b, w),
{
    if wins(a, w) {
        assert forall|q: PlayerId| q < b.num_players && q != w implies #[trigger] b.tokens(q) < b.tokens(w) by {
            assert(a.tokens(q) < a.tokens(w));
        };
    }
    if wins(b, w) {
        assert forall|q: PlayerId| q < a.num_players && q != w implies #[trigger] a.tokens(q) < a.tokens(w) by {
            assert(b.tokens(q) < b.tokens(w));
        };
    }
}

/// Being settled does not depend on the phase.
pub proof fn lemma_settled_phase(u: GameView, ph: PhaseView)
    requires
        settled(u),
    ensures
        settled(with_phase(u, ph)),
{
    let v = with_phase(u, ph);
    assert forall|q: PlayerId, k: NastyKind| q < v.num_players && v.catalog.has_nasty(k) implies
        #[trigger] count_kind(v.kinds, v.collection(q), CardKind::Nasty(k)) < v.catalog.nasty_size(k) by {
        assert(count_kind(u.kinds, u.collection(q), CardKind::Nasty(k)) < u.catalog.nasty_size(k));
    };
    assert forall|q: PlayerId, t: Tier| q < v.num_players && v.catalog.has_tier(t) implies
        #[trigger] count_kind(v.kinds, v.collection(q), CardKind::Creature(t)) < v.catalog.tier_size(t) by {
        assert(count_kind(u.kinds, u.collection(q), CardKind::Creature(t)) < u.catalog.tier_size(t));
    };
    assert forall|q: PlayerId| q < v.num_players implies #[trigger] v.hand(q).len() >= 5
        || (v.draw_pile.len() == 0 && v.discard_pile.len() == 0) by {
        assert(u.hand(q).len() >= 5 || (u.draw_pile.len() == 0 && u.discard_pile.len() == 0));
    };
}

impl GameState {
    /// The mandatory trade-in from the current state: completed nasty sets
    /// are traded in first, seat by seat, one at a time (a stolen point
    /// token resolves at once; a card steal waits for its beneficiary's
    /// choice), then creatures, refill and the win check.
    pub(crate) fn advance_nasty_resolution(&mut self) -> (evs: Vec<Event>)
        requires
            old(self)@.wf(),
            tokens_room(old(self)@),
            old(self)@.deals.len() == 0,
        ensures
            final(self)@.wf(),
            traded_in(old(self)@, final(self)@),
            nasties_first(events_view(evs@)),
            crate::turn_end::turn_end_exact(old(self)@, final(self)@, events_view(evs@)),
    {
        let ghost v0 = self@;
        proof {
            lemma_players_within_count(v0);
            lemma_players_cards_nonneg(v0.players);
        }
        let mut evs: Vec<Event> = Vec::new();
        loop
            invariant
                v0 == old(self)@,
                v0.deals.len() == 0,
                self@.wf(),
                tokens_room(v0),
                players_cards(v0.players) <= v0.card_count(),
                holdings_only(v0, self@),
                self@.card_count() == v0.card_count(),
                tokens_within(v0, self@),
                self@.phase == v0.phase,
                no_creature_trade_ins(events_view(evs@)),
                game_ids(self@) == game_ids(v0),
                forall|q: int| 0 <= q < v0.players.len() ==> #[trigger] self@.players[q].hand == v0.players[q].hand,
                nasty_trade(self@).0 == nasty_trade(v0).0,
                nasty_trade(self@).2 == nasty_trade(v0).2,
                events_view(evs@) + nasty_trade(self@).1 == nasty_trade(v0).1,
            ensures
                nasty_settled(self@),
                no_creature_trade_ins(events_view(evs@)),
                self@ == nasty_trade(v0).0,
                events_view(evs@) == nasty_trade(v0).1,
                !nasty_trade(v0).2,
            decreases players_cards(self@.players),
        {
            proof {
                lemma_players_cards_nonneg(self@.players);
            }
            let found = self.find_nasty_set();
            match found {
                None => {
                    proof {
                        assert(events_view(evs@) + Seq::<EventView>::empty() =~= events_view(evs@));
                    }
                    break;
                },
                Some((p, k)) => {
                    let ghost w = self@;
                    let ghost ev_w = events_view(evs@);
                    let size = self.catalog.nasty_set_size(k);
                    proof {
                        assert(w.catalog.nasty_set_size@[nasty_index_spec(k)] matches Some(z) ==> z >= 1);
                        assert(w.catalog.nasty_effect@[nasty_index_spec(k)] is Some);
                    }
                    self.discard_set(p, CardKind::Nasty(k), size);
                    let ghost e0 = evs@;
                    evs.push(Event::NastySetTradedIn { player: p, kind: k });
                    proof {
                        lemma_events_push(e0, Event::NastySetTradedIn { player: p, kind: k });
                    }
                    let ghost w2 = self@;
                    proof {
                        lemma_players_cards_nonneg(w2.players);
                        crate::turn::lemma_wf_frame(w, w2);
                    }
                    match self.catalog.nasty_effect(k) {
                        NastyEffect::BuyerStealsOnePointToken => {
                            let b = match self.mode {
                                GameMode::TwoPlayer => 1 - p,
                                GameMode::Buyer => self.turn_leader,
                            };
                            let tp = self.tokens_of(p);
                            let taken: u32 = if tp >= 1 { 1 } else { 0 };
                            self.set_tokens(p, tp - taken);
                            let ghost w3 = self@;
                            let tb = self.tokens_of(b);
                            proof {
                                assert(w.tokens(b) <= v0.tokens(b) + (players_cards(v0.players) - players_cards(w.players)));
                                assert(v0.tokens(b) + v0.card_count() < u32::MAX);
                                let x = PlayerView { point_tokens: (tp - taken) as u32, ..w2.players[p as int] };
                                crate::game::lemma_players_cards_update(w2.players, p as int, x);
                                lemma_count_with_player(w2, p, x);
                                crate::places::lemma_tokens_ids(w2, p, (tp - taken) as u32);
                                if b != p {
                                    assert(w3.players[b as int] == w.players[b as int]);
                                }
                            }
                            self.set_tokens(b, tb + taken);
                            proof {
                                let y = PlayerView { point_tokens: (tb + taken) as u32, ..w3.players[b as int] };
                                crate::game::lemma_players_cards_update(w3.players, b as int, y);
                                lemma_count_with_player(w3, b, y);
                                crate::places::lemma_tokens_ids(w3, b, (tb + taken) as u32);
                                assert forall|q: PlayerId| q < self@.num_players implies
                                    #[trigger] self@.tokens(q) <= v0.tokens(q) + (players_cards(v0.players) - players_cards(self@.players)) by {
                                    assert(w.tokens(q) <= v0.tokens(q) + (players_cards(v0.players) - players_cards(w.players)));
                                    if q != p && q != b {
                                        assert(self@.players[q as int] == w.players[q as int]);
                                    }
                                };
                                crate::turn::lemma_wf_frame(w, self@);
                            }
                            if taken > 0 {
                                let ghost e0 = evs@;
                                evs.push(Event::PointTokenStolen { from: p, to: b, amount: taken });
                                proof {
                                    lemma_events_push(e0, Event::PointTokenStolen { from: p, to: b, amount: taken });
                                }
                            }
                            proof {
                                let st = nasty_set(w, p, k);
                                assert(b == crate::rules::beneficiary(w, p));
                                assert(self@ == st.0);
                                assert(events_view(evs@) =~= ev_w + st.1);
                                lemma_players_cards_nonneg(self@.players);
                                assert(0 <= players_cards(st.0.players) < players_cards(w.players));
                                assert(nasty_trade(w) == (nasty_trade(st.0).0, st.1 + nasty_trade(st.0).1, nasty_trade(st.0).2));
                                assert(ev_w + (st.1 + nasty_trade(self@).1) =~= (ev_w + st.1) + nasty_trade(self@).1);
                            }
                        },
                        NastyEffect::BuyerMayStealUpToNCards(_) => {
                            self.phase = Phase::NastyResolution(NastyResolutionState {
                                pending: PendingNasty { player: p, kind: k },
                            });
                            proof {
                                crate::turn::lemma_wf_frame(w, self@);
                                assert(self@ == with_phase(w2, self@.phase));
                                assert(holdings_only(v0, self@));
                                assert(self@.card_count() == v0.card_count());
                                assert(self@.catalog.nasty_effect_of(k) is BuyerMayStealUpToNCards);
                                lemma_nasties_first_concat(events_view(evs@), Seq::empty());
                                assert(events_view(evs@) + Seq::<EventView>::empty() =~= events_view(evs@));
                                let st = nasty_set(w, p, k);
                                assert(self@ == st.0);
                                assert(events_view(evs@) =~= ev_w + st.1);
                                assert(nasty_trade(w) == st);
                            }
                            return evs;
                        },
                    }
                },
            }
        }
        let ghost e0 = evs@;
        let mut more = self.finish_turn(Ghost(v0));
        let ghost e1 = more@;
        evs.append(&mut more);
        proof {
            lemma_events_append(e0, e1);
            assert(evs@ == e0 + e1);
            lemma_nasties_first_concat(events_view(e0), events_view(e1));
            let ev = events_view(evs@);
            let n1 = events_view(e0).len() as int;
            assert(ev =~= events_view(e0) + events_view(e1));
            assert(ev.take(n1) =~= events_view(e0));
            assert(ev.skip(n1) =~= events_view(e1));
        }
        evs
    }
}

/// Handing deals to seats moves their cards into the seats' collections.
pub proof fn lemma_award_all(ps: Seq<PlayerView>, ds: Seq<crate::deal::DealView>, to: spec_fn(crate::deal::DealView) -> PlayerId)
    requires
        forall|i: int| 0 <= i < ds.len() ==> (#[trigger] to(ds[i])) < ps.len(),
    ensures
        award_all(ps, ds, to).len() == ps.len(),
        players_cards(award_all(ps, ds, to)) == players_cards(ps) + deals_cards(ds),
        forall|q: int| 0 <= q < ps.len() ==> (#[trigger] award_all(ps, ds, to)[q]).hand == ps[q].hand
            && award_all(ps, ds, to)[q].point_tokens == ps[q].point_tokens,
    decreases ds.len(),
{
    if ds.len() > 0 {
        let init = ds.drop_last();
        assert forall|i: int| 0 <= i < init.len() implies (#[trigger] to(init[i])) < ps.len() by {
            assert(init[i] == ds[i]);
        };
        lemma_award_all(ps, init, to);
        let a = award_all(ps, init, to);
        let d = ds.last();
        let r = to(d);
        assert(to(ds[ds.len() - 1]) < ps.len());
        let x = PlayerView { collection: a[r as int].collection.add(deal_ids(d.cards)), ..a[r as int] };
        crate::game::lemma_players_cards_update(a, r as int, x);
    }
}

impl GameState {
    /// Hands every deal out under the rule in force, reporting each award.
    fn hand_out(&mut self, chosen: Option<PlayerId>, buyer: PlayerId, reverse: bool) -> (evs: Vec<Event>)
        requires
            old(self)@.wf(),
            buyer < old(self)@.num_players,
            chosen is None ==> old(self)@.mode == GameMode::TwoPlayer,
            old(self)@.phase is BuyerChoosesDeal || old(self)@.phase is RespondToDeal,
        ensures
            final(self)@ == with_deals(
                crate::rules::with_players(old(self)@, award_all(old(self)@.players, old(self)@.deals, recipients(chosen, buyer, reverse))),
                Seq::empty(),
            ),
            events_view(evs@) == handout_events(old(self)@.deals, recipients(chosen, buyer, reverse)),
            final(self)@.card_count() == old(self)@.card_count(),
            final(self)@.wf(),
    {
        let ghost v0 = self@;
        let ghost to = recipients(chosen, buyer, reverse);
        let ghost d0 = v0.deals;
        proof {
            assert forall|i: int| 0 <= i < d0.len() implies (#[trigger] to(d0[i])) < v0.players.len() by {
                assert(d0[i].seller < v0.num_players);
            };
            lemma_award_all(v0.players, d0, to);
        }
        let mut deals: Vec<crate::deal::Deal> = Vec::new();
        std::mem::swap(&mut deals, &mut self.deals);
        let mut evs: Vec<Event> = Vec::new();
        let mut k: usize = 0;
        proof {
            assert(d0.take(0) =~= Seq::<crate::deal::DealView>::empty());
            assert(award_all(v0.players, d0.take(0), to) == v0.players);
            assert(self@.players == v0.players);
            assert(self@.deals =~= Seq::<crate::deal::DealView>::empty());
            assert(handout_events(d0.take(0), to) =~= Seq::<EventView>::empty());
            assert(events_view(evs@) =~= Seq::<EventView>::empty());
        }
        while k < deals.len()
            invariant
                v0.wf(),
                deals_view(deals@) == d0,
                k <= deals@.len(),
                forall|i: int| 0 <= i < d0.len() ==> (#[trigger] to(d0[i])) < v0.players.len(),
                to == recipients(chosen, buyer, reverse),
                buyer < v0.num_players,
                chosen is None ==> v0.mode == GameMode::TwoPlayer,
                forall|i: int| 0 <= i < d0.len() ==> (#[trigger] d0[i]).seller < v0.num_players,
                self@ == with_deals(crate::rules::with_players(v0, award_all(v0.players, d0.take(k as int), to)), Seq::empty()),
                events_view(evs@) == handout_events(d0.take(k as int), to),
                self.players@.len() == v0.players.len(),
            decreases deals@.len() - k,
        {
            let seller = deals[k].seller;
            proof {
                assert(d0[k as int] == deals@[k as int]@);
                assert(seller < v0.num_players);
            }
            let recipient = match chosen {
                Some(s) => if seller == s { buyer } else { seller },
                None => if reverse { 1 - seller } else { seller },
            };
            let cards = deals[k].all_card_ids();
            proof {
                assert(d0[k as int] == deals@[k as int]@);
                assert(recipient == to(d0[k as int]));
                lemma_award_all(v0.players, d0.take(k as int), to);
                assert(d0.take(k as int + 1).drop_last() =~= d0.take(k as int));
                assert(d0.take(k as int + 1).last() == d0[k as int]);
            }
            self.add_to_collection(recipient, &cards);
            evs.push(Event::CardsAwarded { player: recipient, cards });
            proof {
                assert(self@.players =~= award_all(v0.players, d0.take(k as int + 1), to));
                assert(handout_events(d0.take(k as int + 1), to) =~= handout_events(d0.take(k as int), to).push(
                    EventView::CardsAwarded { player: recipient, cards: deal_ids(d0[k as int].cards) },
                ));
                assert(events_view(evs@) =~= handout_events(d0.take(k as int + 1), to));
            }
            k += 1;
        }
        proof {
            assert(d0.take(k as int) =~= d0);
            let w = self@;
            lemma_deals_cards_nonneg(d0);
            assert(w.card_count() == v0.card_count());
            crate::turn::lemma_wf_frame(v0, w);
        }
        evs
    }
}

impl GameState {
    /// Buyer mode: the buyer takes `seller`'s deal, every other seller gets
    /// their own deal back, `seller` becomes the next buyer, and the
    /// trade-in runs.
    pub(crate) fn apply_choose_deal(&mut self, player: PlayerId, seller: PlayerId) -> (r: Result<Vec<Event>, RulesError>)
        requires
            old(self)@.wf(),
            active_player_spec(old(self)@) == Some(player),
            tokens_room(old(self)@),
        ensures
            final(self)@.stats == old(self)@.stats,
            final(self)@.turn_index == old(self)@.turn_index,
            final(self)@.wf(),
            final(self)@.card_count() == old(self)@.card_count(),
            match r {
                Err(e) => choose_reject(old(self)@, seller) == Some(e@) && final(self)@ == old(self)@,
                Ok(es) => choose_reject(old(self)@, seller) is None
                    && traded_in(awarded(old(self)@, bought_by(old(self)@.turn_leader, seller), seller), final(self)@)
                    && events_view(es@).take(chosen_events(old(self)@, seller).len() as int) == chosen_events(old(self)@, seller)
                    && crate::turn_end::turn_end_exact(awarded(old(self)@, bought_by(old(self)@.turn_leader, seller), seller), final(self)@,
                        events_view(es@).skip(chosen_events(old(self)@, seller).len() as int))
                    && nasties_first(events_view(es@)),
            },
    {
        let ghost v0 = self@;
        let in_phase = match &self.phase {
            Phase::BuyerChoosesDeal => true,
            _ => false,
        };
        if !in_phase {
            return Err(self.wrong_phase_error());
        }
        if crate::game::find_deal(&self.deals, seller).is_none() {
            return Err(RulesError::NoSuchDeal(seller));
        }
        proof {
            crate::turn::lemma_deal_index(v0.deals, seller);
        }
        let buyer = self.turn_leader;
        let mut evs = vec![Event::DealChosen { buyer, seller }];
        let mut handed = self.hand_out(Some(seller), buyer, false);
        let ghost h = handed@;
        evs.append(&mut handed);
        self.turn_leader = seller;
        evs.push(Event::TurnLeaderPassed { new_leader: seller });
        let ghost pre = evs@;
        proof {
            let mid = awarded(v0, bought_by(v0.turn_leader, seller), seller);
            assert(recipients(Some(seller), buyer, false) == bought_by(v0.turn_leader, seller));
            assert(self@ == mid);
            crate::turn::lemma_wf_frame(v0, self@);
            assert forall|i: int| 0 <= i < v0.deals.len() implies (#[trigger] bought_by(v0.turn_leader, seller)(v0.deals[i])) < v0.players.len() by {
                assert(v0.deals[i].seller < v0.num_players);
            };
            lemma_tokens_room_awarded(v0, self@, bought_by(v0.turn_leader, seller));
            assert(events_view(pre) =~= chosen_events(v0, seller));
        }
        let mut more = self.advance_nasty_resolution();
        let ghost e1 = more@;
        evs.append(&mut more);
        proof {
            assert(events_view(evs@).take(events_view(pre).len() as int) =~= events_view(pre));
            lemma_events_append(pre, e1);
            assert(evs@ == pre + e1);
            assert(no_creature_trade_ins(events_view(pre)));
            lemma_nasties_first_concat(events_view(pre), events_view(e1));
            assert(events_view(evs@) =~= events_view(pre) + events_view(e1));
            assert(events_view(evs@).skip(events_view(pre).len() as int) =~= events_view(e1));
        }
        Ok(evs)
    }

    /// Two-player mode: the responder accepts (each pile goes where it was
    /// placed) or reverses (the piles swap owners), becomes the next turn
    /// leader, and the trade-in runs.
    pub(crate) fn apply_respond_to_deal(&mut self, player: PlayerId, reverse: bool) -> (r: Result<Vec<Event>, RulesError>)
        requires
            old(self)@.wf(),
            active_player_spec(old(self)@) == Some(player),
            tokens_room(old(self)@),
        ensures
            final(self)@.stats == old(self)@.stats,
            final(self)@.turn_index == old(self)@.turn_index,
            final(self)@.wf(),
            final(self)@.card_count() == old(self)@.card_count(),
            match r {
                Err(e) => respond_reject(old(self)@) == Some(e@) && final(self)@ == old(self)@,
                Ok(es) => respond_reject(old(self)@) is None
                    && traded_in(awarded(old(self)@, responded_to(reverse), (1 - old(self)@.turn_leader) as PlayerId), final(self)@)
                    && events_view(es@).take(responded_events(old(self)@, reverse).len() as int) == responded_events(old(self)@, reverse)
                    && crate::turn_end::turn_end_exact(awarded(old(self)@, responded_to(reverse), (1 - old(self)@.turn_leader) as PlayerId),
                        final(self)@, events_view(es@).skip(responded_events(old(self)@, reverse).len() as int))
                    && nasties_first(events_view(es@)),
            },
    {
        let ghost v0 = self@;
        let in_phase = match &self.phase {
            Phase::RespondToDeal => true,
            _ => false,
        };
        if !in_phase {
            return Err(self.wrong_phase_error());
        }
        let active = self.turn_leader;
        let responder = 1 - active;
        let mut evs = vec![Event::DealResponded { active, reverse }];
        let mut handed = self.hand_out(None, active, reverse);
        evs.append(&mut handed);
        self.turn_leader = responder;
        evs.push(Event::TurnLeaderPassed { new_leader: responder });
        let ghost pre = evs@;
        proof {
            let mid = awarded(v0, responded_to(reverse), (1 - v0.turn_leader) as PlayerId);
            assert(self@ == mid);
            crate::turn::lemma_wf_frame(v0, self@);
            assert forall|i: int| 0 <= i < v0.deals.len() implies (#[trigger] responded_to(reverse)(v0.deals[i])) < v0.players.len() by {
                assert(v0.deals[i].seller < v0.num_players);
            };
            lemma_tokens_room_awarded(v0, self@, responded_to(reverse));
            assert(events_view(pre) =~= responded_events(v0, reverse));
        }
        let mut more = self.advance_nasty_resolution();
        let ghost e1 = more@;
        evs.append(&mut more);
        proof {
            assert(events_view(evs@).take(events_view(pre).len() as int) =~= events_view(pre));
            lemma_events_append(pre, e1);
            assert(evs@ == pre + e1);
            assert(no_creature_trade_ins(events_view(pre)));
            lemma_nasties_first_concat(events_view(pre), events_view(e1));
            assert(events_view(evs@) =~= events_view(pre) + events_view(e1));
            assert(events_view(evs@).skip(events_view(pre).len() as int) =~= events_view(e1));
        }
        Ok(evs)
    }
}

/// Handing out deals leaves every seat's point tokens as they were.
pub proof fn lemma_tokens_room_awarded(v: GameView, w: GameView, to: spec_fn(crate::deal::DealView) -> PlayerId)
    requires
        tokens_room(v),
        v.players.len() == v.num_players,
        forall|i: int| 0 <= i < v.deals.len() ==> (#[trigger] to(v.deals[i])) < v.players.len(),
        w.players == award_all(v.players, v.deals, to),
        w.num_players == v.num_players,
        w.card_count() == v.card_count(),
    ensures
        tokens_room(w),
{
    lemma_award_all(v.players, v.deals, to);
    assert forall|p: PlayerId| p < w.num_players implies #[trigger] w.tokens(p) + w.card_count() < u32::MAX by {
        if p < v.players.len() {
            assert(w.players[p as int].point_tokens == v.players[p as int].point_tokens);
        }
        assert(v.tokens(p) + v.card_count() < u32::MAX);
    };
}

/// The first of `cards` that `pool` does not hold, if any.
fn first_missing_in(pool: &Vec<CardId>, cards: &Vec<CardId>) -> (r: Option<CardId>)
    ensures
        r == first_missing(cards@, pool@),
{
    let mut i: usize = 0;
    while i < cards.len()
        invariant
            i <= cards@.len(),
            first_missing(cards@.take(i as int), pool@) is None,
        decreases cards@.len() - i,
    {
        assert(cards@.take(i as int + 1).drop_last() =~= cards@.take(i as int));
        if !crate::seqs::contains_id(pool, cards[i]) {
            assert(cards@.take(i as int + 1).last() == cards@[i as int]);
            proof {
                crate::turn::lemma_first_missing_prefix(cards@, pool@, i as int);
            }
            return Some(cards[i]);
        }
        i += 1;
    }
    assert(cards@.take(i as int) =~= cards@);
    None
}

impl GameState {
    /// Takes the first occurrence of each of `cards` out of seat `p`'s collection.
    fn take_all_from_collection(&mut self, p: PlayerId, cards: &Vec<CardId>)
        requires
            p < old(self).players@.len(),
        ensures
            final(self)@ == with_collection(old(self)@, p, remove_all(old(self)@.collection(p), cards@)),
            final(self).players@.len() == old(self).players@.len(),
    {
        let ghost v0 = self@;
        proof {
            assert(cards@.take(0) =~= Seq::<CardId>::empty());
            assert(with_collection(v0, p, v0.collection(p)).players =~= v0.players);
        }
        let mut i: usize = 0;
        while i < cards.len()
            invariant
                p < self.players@.len(),
                p < v0.players.len(),
                self.players@.len() == v0.players.len(),
                i <= cards@.len(),
                self@ == with_collection(v0, p, remove_all(v0.collection(p), cards@.take(i as int))),
            decreases cards@.len() - i,
        {
            let ghost w = self@;
            self.take_from_collection(p, cards[i]);
            proof {
                assert(cards@.take(i as int + 1).drop_last() =~= cards@.take(i as int));
                assert(cards@.take(i as int + 1).last() == cards@[i as int]);
                assert(self@.players =~= with_collection(v0, p, remove_all(v0.collection(p), cards@.take(i as int + 1))).players);
            }
            i += 1;
        }
        assert(cards@.take(i as int) =~= cards@);
    }

    /// The beneficiary of a pending nasty trade-in takes the chosen cards
    /// from the loser's collection into their own, and the trade-in scan
    /// resumes.
    pub(crate) fn apply_resolve_nasty_penalty(&mut self, player: PlayerId, taken: Vec<CardId>) -> (r: Result<Vec<Event>, RulesError>)
        requires
            old(self)@.wf(),
            active_player_spec(old(self)@) == Some(player),
            tokens_room(old(self)@),
        ensures
            final(self)@.stats == old(self)@.stats,
            final(self)@.turn_index == old(self)@.turn_index,
            final(self)@.wf(),
            final(self)@.card_count() == old(self)@.card_count(),
            match r {
                Err(e) => resolve_reject(old(self)@, taken@) == Some(e@) && final(self)@ == old(self)@,
                Ok(es) => resolve_reject(old(self)@, taken@) is None
                    && traded_in(stolen(old(self)@, player, taken@), final(self)@)
                    && events_view(es@).take(stolen_events(old(self)@, player, taken@).len() as int)
                        == stolen_events(old(self)@, player, taken@)
                    && crate::turn_end::turn_end_exact(stolen(old(self)@, player, taken@), final(self)@,
                        events_view(es@).skip(stolen_events(old(self)@, player, taken@).len() as int))
                    && nasties_first(events_view(es@)),
            },
    {
        let ghost v0 = self@;
        let pending = match &self.phase {
            Phase::NastyResolution(s) => s.pending,
            _ => {
                return Err(self.wrong_phase_error());
            },
        };
        let max: usize = match self.catalog.nasty_effect(pending.kind) {
            NastyEffect::BuyerMayStealUpToNCards(m) => m as usize,
            NastyEffect::BuyerStealsOnePointToken => 0,
        };
        if taken.len() > max {
            return Err(RulesError::TooManyCardsTaken);
        }
        if !crate::seqs::ids_distinct(&taken) {
            return Err(RulesError::DuplicateCardTaken);
        }
        let loser = pending.player;
        match first_missing_in(&self.players[loser].collection, &taken) {
            Some(c) => {
                return Err(RulesError::CardNotInCollection(c));
            },
            None => {},
        }
        self.take_all_from_collection(loser, &taken);
        let ghost w1 = self@;
        self.add_to_collection(player, &taken);
        let mut evs: Vec<Event> = Vec::new();
        if taken.len() > 0 {
            evs.push(Event::CardsStolen { from: loser, to: player, cards: taken });
        }
        let ghost pre = evs@;
        proof {
            assert(self@ == stolen(v0, player, taken@));
            crate::turn::lemma_remove_all_len(v0.collection(loser), taken@);
            let x1 = PlayerView { collection: remove_all(v0.collection(loser), taken@), ..v0.players[loser as int] };
            lemma_count_with_player(v0, loser, x1);
            let x2 = PlayerView { collection: w1.collection(player).add(taken@), ..w1.players[player as int] };
            lemma_count_with_player(w1, player, x2);
            crate::turn::lemma_wf_frame(v0, self@);
            assert forall|p: PlayerId| p < self@.num_players implies #[trigger] self@.tokens(p) + self@.card_count() < u32::MAX by {
                assert(v0.tokens(p) + v0.card_count() < u32::MAX);
                assert(self@.players[p as int].point_tokens == v0.players[p as int].point_tokens);
            };
            assert(events_view(pre) =~= stolen_events(v0, player, taken@));
        }
        let mut more = self.advance_nasty_resolution();
        let ghost e1 = more@;
        evs.append(&mut more);
        proof {
            assert(events_view(evs@).take(events_view(pre).len() as int) =~= events_view(pre));
            lemma_events_append(pre, e1);
            assert(evs@ == pre + e1);
            assert(no_creature_trade_ins(events_view(pre)));
            lemma_nasties_first_concat(events_view(pre), events_view(e1));
            assert(events_view(evs@) =~= events_view(pre) + events_view(e1));
            assert(events_view(evs@).skip(events_view(pre).len() as int) =~= events_view(e1));
        }
        Ok(evs)
    }
}

/// Cards of the first `k` seats: one more seat adds its cards, and a prefix
/// holds no more than all the seats.
pub proof fn lemma_players_prefix(ps: Seq<PlayerView>, k: int)
    requires
        1 <= k <= ps.len(),
    ensures
        players_cards(ps.take(k)) == players_cards(ps.take(k - 1)) + player_cards(ps[k - 1]),
        players_cards(ps.take(k)) <= players_cards(ps),
    decreases ps.len(),
{
    assert(ps.take(k).drop_last() =~= ps.take(k - 1));
    if k < ps.len() {
        assert(ps.drop_last().take(k) =~= ps.take(k));
        lemma_players_prefix(ps.drop_last(), k);
    } else {
        assert(ps.take(k) =~= ps);
    }
}

/// Cards of the first `k` deals: one more deal adds its cards, and a
/// prefix holds no more than all the deals.
pub proof fn lemma_deals_prefix(ds: Seq<crate::deal::DealView>, k: int)
    requires
        1 <= k <= ds.len(),
    ensures
        deals_cards(ds.take(k)) == deals_cards(ds.take(k - 1)) + ds[k - 1].cards.len(),
        deals_cards(ds.take(k)) <= deals_cards(ds),
    decreases ds.len(),
{
    assert(ds.take(k).drop_last() =~= ds.take(k - 1));
    if k < ds.len() {
        assert(ds.drop_last().take(k) =~= ds.take(k));
        lemma_deals_prefix(ds.drop_last(), k);
    } else {
        assert(ds.take(k) =~= ds);
    }
}
} // verus!
