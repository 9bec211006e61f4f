//! Applying actions: the deal offers, the buyer's peek and the response
//! window, each checked against the rules before anything changes.

use vstd::prelude::*;
use crate::action::{ParamsView, ThingamabobParams};
use crate::card::{CardId, CardKind, PlayerId, ThingamabobEffect, Tier};
use crate::deal::{Deal, DealView, DealCard, deal_ids, hidden_ids, hidden_pile, lemma_hidden_pile};
use crate::events::{Event, EventView, GameMode, RulesError, events_view};
use crate::game::{
    GameState, GameView, deal_index, players_view, deals_view, deals_cards, find_deal, lemma_deals_cards_push, lemma_deals_cards_update,
    lemma_players_cards_update, placeholder_kind, player_cards, players_cards, table_order_after,
    table_order_after_exec, offer_deals_ok,
};
use crate::phase::{DealOfferState, DealOfferStep, Phase, PhaseView, ThingamabobWindowState, TwoPlayerDealState, TwoPlayerDealStep};
use crate::player::{Player, PlayerView};
use crate::rules::{
    active_player_spec, first_missing, remove_all, with_hand, with_collection, with_tokens, with_player,
    submit_reject, submit_result, split_reject, split_result, split_deals, both_piles, reveal_reject,
    reveal_result, reveal_in, deal_holding, offer_at, window_order, window_phase, peek_reject, peek_result,
    peeked_card, pass_result, pass_closes, wrong_phase, with_deals, add_in, with_phase, with_discard, remove_in, removals_result, removal_cards,
    removal_sellers, bad_removal, distinct_count, effect_reject, effect_result, effect_events, play_reject,
    play_result, played_kind, params_in_range, beneficiary, with_memory, remember_stats, remember_turns, reject,
    transition, action_ok, nasties_first, no_creature_trade_ins,
};
use crate::action::{Action, ActionView};
use crate::seqs::{all_distinct, contains_id, lemma_remove_first, remove_first};
use crate::deal::lemma_hidden_ids_member;

verus! {

/// Viewing the seats after one seat changed.
pub proof fn lemma_players_view_update(ps: Seq<Player>, i: int, x: Player)
    requires
        0 <= i < ps.len(),
    ensures
        players_view(ps.update(i, x)) == players_view(ps).update(i, x@),
{
    assert(players_view(ps.update(i, x)) =~= players_view(ps).update(i, x@));
}

/// Viewing the deals after one deal changed.
pub proof fn lemma_deals_view_update(ds: Seq<Deal>, i: int, x: Deal)
    requires
        0 <= i < ds.len(),
    ensures
        deals_view(ds.update(i, x)) == deals_view(ds).update(i, x@),
{
    assert(deals_view(ds.update(i, x)) =~= deals_view(ds).update(i, x@));
}

/// Viewing the deals after one more was laid down.
pub proof fn lemma_deals_view_push(ds: Seq<Deal>, x: Deal)
    ensures
        deals_view(ds.push(x)) == deals_view(ds).push(x@),
{
    assert(deals_view(ds.push(x)) =~= deals_view(ds).push(x@));
}

/// Taking out cards that are all there, once each, shortens by their
/// number.
pub proof fn lemma_remove_all_len(s: Seq<CardId>, cards: Seq<CardId>)
    requires
        first_missing(cards, s) is None,
        all_distinct(cards),
    ensures
        remove_all(s, cards).len() == s.len() - cards.len(),
        forall|x: CardId| !cards.contains(x) ==> (#[trigger] remove_all(s, cards).contains(x) <==> s.contains(x)),
    decreases cards.len(),
{
    if cards.len() > 0 {
        let init = cards.drop_last();
        assert forall|i: int, j: int| 0 <= i < j < init.len() implies init[i] != init[j] by {
            assert(init[i] == cards[i] && init[j] == cards[j]);
        };
        lemma_remove_all_len(s, init);
        let r = remove_all(s, init);
        let x = cards.last();
        assert(!init.contains(x)) by {
            if init.contains(x) {
                let k = choose|k: int| 0 <= k < init.len() && init[k] == x;
                assert(cards[k] == cards[cards.len() - 1]);
            }
        };
        assert(s.contains(x));
        assert(r.contains(x));
        lemma_remove_first(r, x);
        assert forall|y: CardId| !cards.contains(y) implies (#[trigger] remove_all(s, cards).contains(y) <==> s.contains(y)) by {
            assert(!init.contains(y)) by {
                if init.contains(y) {
                    let k = choose|k: int| 0 <= k < init.len() && init[k] == y;
                    assert(cards[k] == y);
                }
            };
            assert(y != x) by {
                assert(cards[cards.len() - 1] == x);
            };
            vstd::seq_lib::to_multiset_contains(r, y);
            vstd::seq_lib::to_multiset_contains(remove_first(r, x), y);
            assert(remove_first(r, x).to_multiset().count(y) == r.to_multiset().count(y));
        };
    }
}

impl GameState {
    /// Kind of a card, the placeholder kind for an id beyond the deck.
    pub fn kind_of(&self, id: CardId) -> (r: CardKind)
        ensures
            r == self@.kind(id),
    {
        if (id as usize) < self.kinds.len() {
            self.kinds[id as usize]
        } else {
            CardKind::Creature(Tier::Giant)
        }
    }

    /// Takes the first occurrence of each of `cards` out of seat `p`'s hand.
    pub(crate) fn take_from_hand(&mut self, p: PlayerId, cards: &Vec<CardId>)
        requires
            p < old(self).players@.len(),
        ensures
            final(self)@ == with_hand(old(self)@, p, remove_all(old(self)@.hand(p), cards@)),
            final(self).rng == old(self).rng,
    {
        let ghost v0 = self@;
        proof {
            assert(cards@.take(0) =~= Seq::<CardId>::empty());
            assert(with_hand(v0, p, v0.hand(p)).players =~= v0.players);
        }
        let mut i: usize = 0;
        while i < cards.len()
            invariant
                p < self.players@.len(),
                p < v0.players.len(),
                i <= cards@.len(),
                self@ == with_hand(v0, p, remove_all(v0.hand(p), cards@.take(i as int))),
                self.rng == old(self).rng,
            decreases cards@.len() - i,
        {
            let ghost before = self.players@;
            self.players[p].remove_from_hand(cards[i]);
            proof {
                assert(cards@.take(i as int + 1).drop_last() =~= cards@.take(i as int));
                assert(cards@.take(i as int + 1).last() == cards@[i as int]);
                lemma_players_view_update(before, p as int, self.players@[p as int]);
                assert(self.players@ == before.update(p as int, self.players@[p as int]));
                assert(self.players@[p as int].hand@ == remove_first(before[p as int].hand@, cards@[i as int]));
                assert(before[p as int]@ == players_view(before)[p as int]);
                assert(players_view(before)[p as int].hand == remove_all(v0.hand(p), cards@.take(i as int)));
                assert(self@.players =~= with_hand(v0, p, remove_all(v0.hand(p), cards@.take(i as int + 1))).players);
            }
            i += 1;
        }
        assert(cards@.take(i as int) =~= cards@);
    }

    /// The first of `cards` not in seat `p`'s hand, if any.
    pub(crate) fn missing_from_hand(&self, p: PlayerId, cards: &Vec<CardId>) -> (r: Option<CardId>)
        requires
            p < self.players@.len(),
        ensures
            r == first_missing(cards@, self@.hand(p)),
    {
        let mut i: usize = 0;
        while i < cards.len()
            invariant
                p < self.players@.len(),
                i <= cards@.len(),
                first_missing(cards@.take(i as int), self@.hand(p)) is None,
            decreases cards@.len() - i,
        {
            assert(cards@.take(i as int + 1).drop_last() =~= cards@.take(i as int));
            if !contains_id(&self.players[p].hand, cards[i]) {
                assert(cards@.take(i as int + 1).last() == cards@[i as int]);
                proof {
                    lemma_first_missing_prefix(cards@, self@.hand(p), i as int);
                }
                return Some(cards[i]);
            }
            i += 1;
        }
        assert(cards@.take(i as int) =~= cards@);
        None
    }
}

/// When a prefix has nothing missing and the next card is missing, that
/// card is the first missing one.
pub proof fn lemma_first_missing_prefix(cards: Seq<CardId>, pool: Seq<CardId>, i: int)
    requires
        0 <= i < cards.len(),
        first_missing(cards.take(i), pool) is None,
        !pool.contains(cards[i]),
    ensures
        first_missing(cards, pool) == Some(cards[i]),
    decreases cards.len(),
{
    if i == cards.len() - 1 {
        assert(cards.drop_last() =~= cards.take(i));
    } else {
        assert(cards.drop_last().take(i) =~= cards.take(i));
        lemma_first_missing_prefix(cards.drop_last(), pool, i);
    }
}


/// What a step that either refuses with the state untouched or does
/// exactly `res` and reports `evs` ends with.
pub open spec fn exact_step(
    v0: GameView,
    v1: GameView,
    r: Result<Vec<Event>, RulesError>,
    rej: Option<crate::events::RulesErrorView>,
    res: GameView,
    evs: Seq<EventView>,
) -> bool {
    match r {
        Err(e) => rej == Some(e@) && v1 == v0,
        Ok(es) => rej is None && v1 == res && events_view(es@) == evs,
    }
}

/// Card count after one seat's holdings change.
pub proof fn lemma_count_with_player(v: GameView, p: PlayerId, x: PlayerView)
    requires
        p < v.players.len(),
    ensures
        with_player(v, p, x).card_count() == v.card_count() - player_cards(v.players[p as int]) + player_cards(x),
{
    lemma_players_cards_update(v.players, p as int, x);
}


/// A deal found by seller is a deal of that seller.
pub proof fn lemma_deal_index(deals: Seq<DealView>, s: PlayerId)
    ensures
        deal_index(deals, s) matches Some(i) ==> 0 <= i < deals.len() && deals[i].seller == s,
        deal_index(deals, s) is None ==> forall|i: int| 0 <= i < deals.len() ==> #[trigger] deals[i].seller != s,
        (exists|i: int| 0 <= i < deals.len() && #[trigger] deals[i].seller == s) ==> deal_index(deals, s) is Some,
{
    let sellers = deals.map_values(|d: DealView| d.seller);
    sellers.index_of_first_ensures(s);
    if deal_index(deals, s) is None {
        assert forall|i: int| 0 <= i < deals.len() implies #[trigger] deals[i].seller != s by {
            assert(sellers[i] == deals[i].seller);
        };
    }
    if exists|i: int| 0 <= i < deals.len() && #[trigger] deals[i].seller == s {
        let i = choose|i: int| 0 <= i < deals.len() && #[trigger] deals[i].seller == s;
        assert(sellers[i] == s);
        assert(sellers.contains(s));
    }
}

impl GameState {
    /// The error for an action the current phase does not expect.
    pub(crate) fn wrong_phase_error(&self) -> (e: RulesError)
        ensures
            e@ == wrong_phase(self@),
    {
        proof {
            crate::phase::lemma_phase_name_view(self.phase);
        }
        RulesError::WrongPhaseAction(self.phase.name())
    }

    /// Lays down one more deal.
    pub(crate) fn push_deal(&mut self, d: Deal)
        ensures
            final(self)@ == with_deals(old(self)@, old(self)@.deals.push(d@)),
            final(self).rng == old(self).rng,
    {
        let ghost before = self.deals@;
        self.deals.push(d);
        proof {
            lemma_deals_view_push(before, d);
        }
    }

    /// Turns up the first card `card` of deal `i`.
    pub(crate) fn reveal_in_deal(&mut self, i: usize, card: CardId)
        requires
            i < old(self).deals@.len(),
            deal_ids(old(self)@.deals[i as int].cards).contains(card),
        ensures
            final(self)@ == with_deals(old(self)@, old(self)@.deals.update(i as int, reveal_in(old(self)@.deals[i as int], card))),
            final(self)@.card_count() == old(self)@.card_count(),
            final(self).rng == old(self).rng,
    {
        let ghost before = self.deals@;
        let ghost d0 = self.deals@[i as int]@;
        proof {
            assert(deals_view(before)[i as int] == before[i as int]@);
        }
        self.deals[i].reveal_card(card);
        proof {
            lemma_deals_view_update(before, i as int, self.deals@[i as int]);
            assert(self.deals@ == before.update(i as int, self.deals@[i as int]));
            deal_ids(d0.cards).index_of_first_ensures(card);
            crate::menus::lemma_deals_cards_update(deals_view(before), i as int, self.deals@[i as int]@);
        }
    }

    /// Takes the first card `card` out of deal `i`.
    pub(crate) fn remove_in_deal(&mut self, i: usize, card: CardId)
        requires
            i < old(self).deals@.len(),
            deal_ids(old(self)@.deals[i as int].cards).contains(card),
        ensures
            final(self)@ == with_deals(old(self)@, old(self)@.deals.update(i as int, crate::rules::remove_in(old(self)@.deals[i as int], card))),
            final(self).rng == old(self).rng,
    {
        let ghost before = self.deals@;
        let ghost d0 = self.deals@[i as int]@;
        proof {
            assert(deals_view(before)[i as int] == before[i as int]@);
        }
        self.deals[i].remove_card(card);
        proof {
            lemma_deals_view_update(before, i as int, self.deals@[i as int]);
            assert(self.deals@ == before.update(i as int, self.deals@[i as int]));
            deal_ids(d0.cards).index_of_first_ensures(card);
            crate::menus::lemma_deals_cards_update(deals_view(before), i as int, self.deals@[i as int]@);
        }
    }

    /// Adds a face-down card to deal `i`.
    pub(crate) fn add_to_deal(&mut self, i: usize, card: CardId)
        requires
            i < old(self).deals@.len(),
        ensures
            final(self)@ == with_deals(old(self)@, old(self)@.deals.update(i as int, add_in(old(self)@.deals[i as int], card))),
            final(self).rng == old(self).rng,
    {
        let ghost before = self.deals@;
        proof {
            assert(deals_view(before)[i as int] == before[i as int]@);
        }
        self.deals[i].add_hidden_card(card);
        proof {
            lemma_deals_view_update(before, i as int, self.deals@[i as int]);
            assert(self.deals@ == before.update(i as int, self.deals@[i as int]));
        }
    }

    /// Takes the first `card` out of seat `p`'s collection.
    pub(crate) fn take_from_collection(&mut self, p: PlayerId, card: CardId)
        requires
            p < old(self).players@.len(),
        ensures
            final(self)@ == with_collection(old(self)@, p, remove_first(old(self)@.collection(p), card)),
            final(self).rng == old(self).rng,
    {
        let ghost before = self.players@;
        proof {
            assert(players_view(before)[p as int] == before[p as int]@);
        }
        self.players[p].remove_from_collection(card);
        proof {
            lemma_players_view_update(before, p as int, self.players@[p as int]);
            assert(self.players@ == before.update(p as int, self.players@[p as int]));
            assert(self@.players =~= with_collection(old(self)@, p, remove_first(old(self)@.collection(p), card)).players);
        }
    }

    /// Takes the first `card` out of seat `p`'s hand.
    pub(crate) fn take_one_from_hand(&mut self, p: PlayerId, card: CardId)
        requires
            p < old(self).players@.len(),
        ensures
            final(self)@ == with_hand(old(self)@, p, remove_first(old(self)@.hand(p), card)),
            final(self).rng == old(self).rng,
    {
        let ghost before = self.players@;
        proof {
            assert(players_view(before)[p as int] == before[p as int]@);
        }
        self.players[p].remove_from_hand(card);
        proof {
            lemma_players_view_update(before, p as int, self.players@[p as int]);
            assert(self.players@ == before.update(p as int, self.players@[p as int]));
            assert(self@.players =~= with_hand(old(self)@, p, remove_first(old(self)@.hand(p), card)).players);
        }
    }

    /// Adds `cards` to the end of seat `p`'s collection.
    pub(crate) fn add_to_collection(&mut self, p: PlayerId, cards: &Vec<CardId>)
        requires
            p < old(self).players@.len(),
        ensures
            final(self)@ == with_collection(old(self)@, p, old(self)@.collection(p).add(cards@)),
            final(self).rng == old(self).rng,
    {
        let ghost v0 = self@;
        proof {
            assert(cards@.take(0) =~= Seq::<CardId>::empty());
            assert(v0.collection(p).add(cards@.take(0)) =~= v0.collection(p));
            assert(with_collection(v0, p, v0.collection(p)).players =~= v0.players);
        }
        let mut i: usize = 0;
        while i < cards.len()
            invariant
                p < self.players@.len(),
                p < v0.players.len(),
                i <= cards@.len(),
                self@ == with_collection(v0, p, v0.collection(p).add(cards@.take(i as int))),
                self.rng == old(self).rng,
            decreases cards@.len() - i,
        {
            let ghost before = self.players@;
            self.players[p].collection.push(cards[i]);
            proof {
                lemma_players_view_update(before, p as int, self.players@[p as int]);
                assert(self.players@ == before.update(p as int, self.players@[p as int]));
                assert(before[p as int]@ == players_view(before)[p as int]);
                assert(v0.collection(p).add(cards@.take(i as int + 1)) =~= v0.collection(p).add(cards@.take(i as int)).push(cards@[i as int]));
                assert(self@.players =~= with_collection(v0, p, v0.collection(p).add(cards@.take(i as int + 1))).players);
            }
            i += 1;
        }
        assert(cards@.take(i as int) =~= cards@);
    }

    /// Sets seat `p`'s point tokens.
    pub(crate) fn set_tokens(&mut self, p: PlayerId, t: u32)
        requires
            p < old(self).players@.len(),
        ensures
            final(self)@ == with_tokens(old(self)@, p, t),
            final(self).rng == old(self).rng,
    {
        let ghost before = self.players@;
        proof {
            assert(players_view(before)[p as int] == before[p as int]@);
        }
        self.players[p].point_tokens = t;
        proof {
            lemma_players_view_update(before, p as int, self.players@[p as int]);
            assert(self.players@ == before.update(p as int, self.players@[p as int]));
            assert(self@.players =~= with_tokens(old(self)@, p, t).players);
        }
    }
}

/// The invariant carries over to a state that differs only in the seats'
/// holdings (same number of seats), the piles, the deals and the phase,
/// when the deals and phase are valid.
pub proof fn lemma_wf_frame(v: GameView, w: GameView)
    requires
        v.wf(),
        w.catalog == v.catalog,
        w.names == v.names,
        w.kinds == v.kinds,
        w.mode == v.mode,
        w.num_players == v.num_players,
        w.turn_leader < v.num_players,
        w.players.len() == v.players.len(),
        w.stats.len() == v.stats.len(),
        w.deck_counts == v.deck_counts,
        w.kind_supply == v.kind_supply,
        w.pinned == v.pinned,
        forall|d: int| 0 <= d < w.deals.len() ==> #[trigger] w.deals[d].seller < w.num_players,
        w.phase_ok(),
        w.card_count() == v.card_count(),
    ensures
        w.wf(),
{
}

/// `deal_index` finds a deal after one more was laid down by that seller.
pub proof fn lemma_deal_index_push(deals: Seq<DealView>, d: DealView)
    ensures
        deal_index(deals.push(d), d.seller) is Some,
        forall|s: PlayerId| deal_index(deals, s) is Some ==> #[trigger] deal_index(deals.push(d), s) == deal_index(deals, s),
{
    lemma_deal_index(deals.push(d), d.seller);
    assert(deals.push(d)[deals.len() as int].seller == d.seller);
    assert forall|s: PlayerId| deal_index(deals, s) is Some implies #[trigger] deal_index(deals.push(d), s) == deal_index(deals, s) by {
        let a = deals.map_values(|x: DealView| x.seller);
        let b = deals.push(d).map_values(|x: DealView| x.seller);
        a.index_of_first_ensures(s);
        b.index_of_first_ensures(s);
        let i = deal_index(deals, s)->0;
        assert(b[i] == s);
        assert forall|j: int| 0 <= j < i implies b[j] != s by {
            assert(a[j] != s);
        };
        crate::seqs::lemma_first_index(b, s, i);
    };
}

/// Accepted buyer-mode submissions keep the invariant and every card.
pub proof fn lemma_submit(v: GameView, player: PlayerId, cards: Seq<CardId>)
    requires
        v.wf(),
        active_player_spec(v) == Some(player),
        cards.len() == 3,
        submit_reject(v, player, cards) is None,
    ensures
        submit_result(v, player, cards).wf(),
        submit_result(v, player, cards).card_count() == v.card_count(),
{
    let w = submit_result(v, player, cards);
    let v1 = with_hand(v, player, remove_all(v.hand(player), cards));
    lemma_remove_all_len(v.hand(player), cards);
    lemma_count_with_player(v, player, PlayerView { hand: remove_all(v.hand(player), cards), ..v.players[player as int] });
    let d = DealView { seller: player, cards: hidden_pile(cards) };
    lemma_deals_cards_push(v1.deals, d);
    lemma_hidden_pile(cards);
    assert(hidden_pile(cards).len() == 3);
    lemma_deal_index_push(v.deals, d);
    assert(w.card_count() == v.card_count());
    let entries = v.phase->DealOffer_entries;
    let idx = v.phase->DealOffer_idx;
    let ds = v.deals.push(d);
    assert(w.deals == ds);
    assert(entries[idx as int].player == player);
    assert(hidden_ids(d.cards).len() == 3);
    assert forall|k: int| 0 <= k < ds.len() implies #[trigger] ds[k].seller == entries[k].player by {
        if k < v.deals.len() {
            assert(ds[k] == v.deals[k]);
        }
    };
    assert forall|k: int| 0 <= k < ds.len() implies hidden_ids(#[trigger] ds[k].cards).len() >= 2 by {
        if k < v.deals.len() {
            assert(ds[k] == v.deals[k]);
        }
    };
    if entries[idx as int].needs_reveal {
        assert(offer_deals_ok(ds, entries, idx, DealOfferStep::AwaitingReveal));
    } else if idx + 1 < entries.len() {
        assert(offer_deals_ok(ds, entries, (idx + 1) as usize, DealOfferStep::AwaitingSubmit));
    }
    lemma_wf_frame(v, w);
}

impl GameState {
    /// Buyer mode: a seller submits their three-card deal.
    fn apply_submit_deal(&mut self, player: PlayerId, cards: [CardId; 3]) -> (r: Result<Vec<Event>, RulesError>)
        requires
            old(self)@.wf(),
            active_player_spec(old(self)@) == Some(player),
        ensures
            final(self)@.stats == old(self)@.stats,
            final(self)@.turn_index == old(self)@.turn_index,
            final(self)@.wf(),
            final(self)@.card_count() == old(self)@.card_count(),
            exact_step(old(self)@, final(self)@, r, submit_reject(old(self)@, player, cards@),
                submit_result(old(self)@, player, cards@), seq![EventView::DealSubmitted { player }]),
    {
        let ghost v0 = self@;
        let awaiting = match &self.phase {
            Phase::DealOffer(s) => s.step == DealOfferStep::AwaitingSubmit,
            _ => false,
        };
        if !awaiting {
            return Err(self.wrong_phase_error());
        }
        if cards[0] == cards[1] || cards[0] == cards[2] || cards[1] == cards[2] {
            return Err(RulesError::DealMustBeThreeDistinctCards);
        }
        assert(all_distinct(cards@));
        let list = vec![cards[0], cards[1], cards[2]];
        assert(list@ =~= cards@);
        match self.missing_from_hand(player, &list) {
            Some(c) => {
                return Err(RulesError::CardNotInHand(c));
            },
            None => {},
        }
        self.take_from_hand(player, &list);
        let deal = Deal::new(player, cards);
        assert(seq![cards[0], cards[1], cards[2]] =~= cards@);
        self.push_deal(deal);
        let mut ph = Phase::BuyerPeek;
        std::mem::swap(&mut ph, &mut self.phase);
        match ph {
            Phase::DealOffer(mut s) => {
                let n_entries = s.entries.len();
                if s.entries[s.idx].needs_reveal {
                    s.step = DealOfferStep::AwaitingReveal;
                    self.phase = Phase::DealOffer(s);
                } else {
                    s.idx = s.idx + 1;
                    s.step = DealOfferStep::AwaitingSubmit;
                    if s.idx >= s.entries.len() {
                        self.phase = Phase::BuyerPeek;
                    } else {
                        self.phase = Phase::DealOffer(s);
                    }
                }
            },
            other => {
                self.phase = other;
            },
        }
        proof {
            lemma_submit(v0, player, cards@);
            assert(self@ == submit_result(v0, player, cards@));
        }
        let evs = vec![Event::DealSubmitted { player }];
        assert(events_view(evs@) =~= seq![EventView::DealSubmitted { player }]);
        Ok(evs)
    }
}

/// Accepted two-player splits keep the invariant and every card.
pub proof fn lemma_split(v: GameView, player: PlayerId, own: Seq<CardId>, other: Seq<CardId>)
    requires
        v.wf(),
        active_player_spec(v) == Some(player),
        split_reject(v, player, own, other) is None,
    ensures
        split_result(v, player, own, other).wf(),
        split_result(v, player, own, other).card_count() == v.card_count(),
{
    let all = both_piles(own, other);
    let w = split_result(v, player, own, other);
    let v1 = with_hand(v, player, remove_all(v.hand(player), all));
    lemma_remove_all_len(v.hand(player), all);
    lemma_count_with_player(v, player, PlayerView { hand: remove_all(v.hand(player), all), ..v.players[player as int] });
    lemma_hidden_pile(own);
    lemma_hidden_pile(other);
    let sd = split_deals(player, own, other);
    let a = if own.len() > 0 { seq![DealView { seller: player, cards: hidden_pile(own) }] } else { Seq::<DealView>::empty() };
    let b = if other.len() > 0 {
        seq![DealView { seller: (1 - player) as PlayerId, cards: hidden_pile(other) }]
    } else {
        Seq::<DealView>::empty()
    };
    assert(sd == a.add(b));
    let d0 = v1.deals;
    if own.len() > 0 && other.len() > 0 {
        assert(d0.add(sd) =~= d0.push(a[0]).push(b[0]));
        lemma_deals_cards_push(d0, a[0]);
        lemma_deals_cards_push(d0.push(a[0]), b[0]);
    } else if own.len() > 0 {
        assert(d0.add(sd) =~= d0.push(a[0]));
        lemma_deals_cards_push(d0, a[0]);
    } else {
        assert(d0.add(sd) =~= d0.push(b[0]));
        lemma_deals_cards_push(d0, b[0]);
    }
    assert(w.card_count() == v.card_count());
    assert forall|d: int| 0 <= d < w.deals.len() implies #[trigger] w.deals[d].seller < w.num_players by {
        if d >= v.deals.len() {
            assert(w.deals[d] == sd[d - v.deals.len()]);
        }
    };
    lemma_wf_frame(v, w);
}

impl GameState {
    /// Two-player mode: the active player splits three of their own hand
    /// cards between the two piles, one deal per non-empty pile.
    fn apply_two_player_submit_deal(&mut self, player: PlayerId, own_pile: Vec<CardId>, other_pile: Vec<CardId>) -> (r: Result<Vec<Event>, RulesError>)
        requires
            old(self)@.wf(),
            active_player_spec(old(self)@) == Some(player),
        ensures
            final(self)@.stats == old(self)@.stats,
            final(self)@.turn_index == old(self)@.turn_index,
            final(self)@.wf(),
            final(self)@.card_count() == old(self)@.card_count(),
            exact_step(old(self)@, final(self)@, r, split_reject(old(self)@, player, own_pile@, other_pile@),
                split_result(old(self)@, player, own_pile@, other_pile@), seq![EventView::DealSubmitted { player }]),
    {
        let ghost v0 = self@;
        let awaiting = match &self.phase {
            Phase::TwoPlayerDealOffer(s) => s.step == TwoPlayerDealStep::AwaitingSplit,
            _ => false,
        };
        if !awaiting {
            return Err(self.wrong_phase_error());
        }
        let mut all: Vec<CardId> = Vec::new();
        let mut i: usize = 0;
        while i < own_pile.len()
            invariant
                i <= own_pile@.len(),
                all@ == own_pile@.take(i as int),
            decreases own_pile@.len() - i,
        {
            all.push(own_pile[i]);
            i += 1;
            assert(all@ =~= own_pile@.take(i as int));
        }
        let mut j: usize = 0;
        while j < other_pile.len()
            invariant
                i == own_pile@.len(),
                j <= other_pile@.len(),
                all@ == own_pile@.take(i as int).add(other_pile@.take(j as int)),
            decreases other_pile@.len() - j,
        {
            all.push(other_pile[j]);
            j += 1;
            assert(all@ =~= own_pile@.take(i as int).add(other_pile@.take(j as int)));
        }
        assert(all@ =~= both_piles(own_pile@, other_pile@));
        if all.len() != 3 {
            return Err(RulesError::DealMustBeThreeDistinctCards);
        }
        if !crate::seqs::ids_distinct(&all) {
            return Err(RulesError::DealMustBeThreeDistinctCards);
        }
        match self.missing_from_hand(player, &all) {
            Some(c) => {
                return Err(RulesError::CardNotInHand(c));
            },
            None => {},
        }
        self.take_from_hand(player, &all);
        let other = 1 - player;
        let ghost d0 = self@.deals;
        let own_nonempty = own_pile.len() > 0;
        let other_nonempty = other_pile.len() > 0;
        if own_nonempty {
            let d = Deal::from_pile(player, own_pile);
            self.push_deal(d);
        }
        if other_nonempty {
            let d = Deal::from_pile(other, other_pile);
            self.push_deal(d);
        }
        self.phase = Phase::TwoPlayerDealOffer(TwoPlayerDealState { step: TwoPlayerDealStep::AwaitingReveal });
        proof {
            lemma_split(v0, player, own_pile@, other_pile@);
            assert(self@.deals =~= v0.deals.add(split_deals(player, own_pile@, other_pile@)));
            assert(self@ == split_result(v0, player, own_pile@, other_pile@));
        }
        let evs = vec![Event::DealSubmitted { player }];
        assert(events_view(evs@) =~= seq![EventView::DealSubmitted { player }]);
        Ok(evs)
    }

    /// The response window as it opens now.
    fn open_window(&self) -> (r: ThingamabobWindowState)
        requires
            self@.wf(),
        ensures
            (PhaseView::ThingamabobWindow { order: r.order@, turn_idx: r.turn_idx, consecutive_passes: r.consecutive_passes })
                == window_phase(self@),
    {
        let order = match self.mode {
            GameMode::Buyer => {
                let mut o = vec![self.turn_leader];
                let rest = table_order_after_exec(self.turn_leader, self.num_players);
                let mut k: usize = 0;
                while k < rest.len()
                    invariant
                        k <= rest@.len(),
                        o@ == seq![self.turn_leader].add(rest@.take(k as int)),
                    decreases rest@.len() - k,
                {
                    o.push(rest[k]);
                    k += 1;
                    assert(o@ =~= seq![self.turn_leader].add(rest@.take(k as int)));
                }
                assert(rest@.take(k as int) =~= rest@);
                o
            },
            GameMode::TwoPlayer => {
                let other = 1 - self.turn_leader;
                vec![self.turn_leader, other]
            },
        };
        ThingamabobWindowState { order, turn_idx: 0, consecutive_passes: 0 }
    }
}

/// An opened response window is a valid phase.
pub proof fn lemma_window_ok(v: GameView)
    requires
        v.wf(),
        crate::game::sellers_distinct(v.deals),
    ensures
        with_phase(v, window_phase(v)).wf(),
{
    let w = with_phase(v, window_phase(v));
    let o = window_order(v);
    if v.mode == GameMode::Buyer {
        assert forall|i: int| 0 <= i < o.len() implies #[trigger] o[i] < v.num_players by {
            if i > 0 {
                assert(o[i] == table_order_after(v.turn_leader, v.num_players)[i - 1]);
            }
        };
    }
    lemma_wf_frame(v, w);
}

/// Turning a card face up keeps the invariant and every card.
pub proof fn lemma_reveal_keeps(v: GameView, i: int, card: CardId, phase: PhaseView)
    requires
        v.wf(),
        0 <= i < v.deals.len(),
        deal_ids(v.deals[i].cards).contains(card),
        with_phase(v, phase).wf(),
        phase is DealOffer || phase is BuyerPeek ==>
            with_phase(with_deals(v, v.deals.update(i, reveal_in(v.deals[i], card))), phase).phase_ok(),
    ensures
        with_phase(with_deals(v, v.deals.update(i, reveal_in(v.deals[i], card))), phase).wf(),
        with_phase(with_deals(v, v.deals.update(i, reveal_in(v.deals[i], card))), phase).card_count() == v.card_count(),
{
    let w = with_phase(with_deals(v, v.deals.update(i, reveal_in(v.deals[i], card))), phase);
    deal_ids(v.deals[i].cards).index_of_first_ensures(card);
    lemma_deals_cards_update(v.deals, i, reveal_in(v.deals[i], card));
    let u = with_phase(v, phase);
    assert forall|s: PlayerId| #[trigger] deal_index(w.deals, s) == deal_index(v.deals, s) by {
        assert(w.deals.map_values(|d: DealView| d.seller) =~= v.deals.map_values(|d: DealView| d.seller));
    };
    lemma_wf_frame(u, w);
}

/// Turning a card face up hides at most one card fewer.
pub proof fn lemma_reveal_hidden(cards: Seq<DealCard>, k: int, c: CardId)
    requires
        0 <= k < cards.len(),
    ensures
        hidden_ids(cards.update(k, DealCard { card: c, revealed: true })).len() + 1 >= hidden_ids(cards).len(),
    decreases cards.len(),
{
    let u = cards.update(k, DealCard { card: c, revealed: true });
    if k == cards.len() - 1 {
        assert(u.drop_last() =~= cards.drop_last());
    } else {
        assert(u.drop_last() =~= cards.drop_last().update(k, DealCard { card: c, revealed: true }));
        lemma_reveal_hidden(cards.drop_last(), k, c);
    }
}

/// Revealing a card of the deal just laid down in a deal offer moves the
/// offer on and keeps its bookkeeping: that deal still hides two cards.
pub proof fn lemma_offer_reveal(v: GameView, player: PlayerId, i: int, card: CardId)
    requires
        v.wf(),
        v.phase matches PhaseView::DealOffer { step, .. } && step == DealOfferStep::AwaitingReveal,
        active_player_spec(v) == Some(player),
        deal_index(v.deals, player) == Some(i),
        deal_ids(v.deals[i].cards).contains(card),
    ensures
        with_phase(v, offer_at(v.phase->DealOffer_entries, v.phase->DealOffer_idx + 1)).wf(),
        with_phase(with_deals(v, v.deals.update(i, reveal_in(v.deals[i], card))),
            offer_at(v.phase->DealOffer_entries, v.phase->DealOffer_idx + 1)).phase_ok(),
{
    let entries = v.phase->DealOffer_entries;
    let idx = v.phase->DealOffer_idx;
    let ph = offer_at(entries, idx + 1);
    lemma_deal_index(v.deals, player);
    assert(entries[idx as int].player == player);
    assert(v.deals[i].seller == player);
    if i != idx {
        assert(v.deals[i].seller == entries[i].player);
        assert(entries[i].player != entries[idx as int].player);
    }
    assert(i == idx);
    let d2 = reveal_in(v.deals[i], card);
    deal_ids(v.deals[i].cards).index_of_first_ensures(card);
    lemma_reveal_hidden(v.deals[i].cards, deal_ids(v.deals[i].cards).index_of_first(card)->0, card);
    assert(hidden_ids(d2.cards).len() >= 2);
    let ds = v.deals.update(i, d2);
    let w = with_phase(with_deals(v, ds), ph);
    let u = with_phase(v, ph);
    if idx + 1 < entries.len() {
        assert(offer_deals_ok(v.deals, entries, (idx + 1) as usize, DealOfferStep::AwaitingSubmit));
        assert(offer_deals_ok(ds, entries, (idx + 1) as usize, DealOfferStep::AwaitingSubmit)) by {
            assert forall|k: int| 0 <= k < ds.len() implies #[trigger] ds[k].seller == entries[k].player by {
                assert(ds[k].seller == v.deals[k].seller);
            };
            assert forall|k: int| 0 <= k < ds.len() implies hidden_ids(#[trigger] ds[k].cards).len() >= 2 by {
                if k != i {
                    assert(ds[k] == v.deals[k]);
                }
            };
        };
    } else {
        assert forall|k: int| 0 <= k < ds.len() implies hidden_ids(#[trigger] ds[k].cards).len() >= 1 by {
            if k != i {
                assert(ds[k] == v.deals[k]);
            }
        };
        assert forall|k: int| 0 <= k < v.deals.len() implies hidden_ids(#[trigger] v.deals[k].cards).len() >= 1 by {};
    }
    lemma_wf_frame(v, u);
}

/// The first deal holding `card`, found by a scan.
fn find_deal_holding(deals: &Vec<Deal>, card: CardId) -> (r: Option<usize>)
    ensures
        r is None <==> deal_holding(deals_view(deals@), card) is None,
        r matches Some(i) ==> deal_holding(deals_view(deals@), card) == Some(i as int) && i < deals@.len(),
{
    let mut i: usize = 0;
    while i < deals.len()
        invariant
            i <= deals@.len(),
            deal_holding(deals_view(deals@).take(i as int), card) is None,
        decreases deals@.len() - i,
    {
        assert(deals_view(deals@).take(i as int + 1).drop_last() =~= deals_view(deals@).take(i as int));
        assert(deals_view(deals@).take(i as int + 1).last() == deals@[i as int]@);
        proof {
            deal_ids(deals@[i as int].cards@).index_of_first_ensures(card);
        }
        if deals[i].position(card).is_some() {
            proof {
                lemma_deal_holding_prefix(deals_view(deals@), card, i as int);
            }
            return Some(i);
        }
        i += 1;
    }
    assert(deals_view(deals@).take(i as int) =~= deals_view(deals@));
    None
}

/// The first deal holding a card is the first one whose earlier deals do
/// not hold it.
pub proof fn lemma_deal_holding_prefix(ds: Seq<DealView>, card: CardId, i: int)
    requires
        0 <= i < ds.len(),
        deal_holding(ds.take(i), card) is None,
        deal_ids(ds[i].cards).contains(card),
    ensures
        deal_holding(ds, card) == Some(i),
    decreases ds.len(),
{
    if i == ds.len() - 1 {
        assert(ds.drop_last() =~= ds.take(i));
    } else {
        assert(ds.drop_last().take(i) =~= ds.take(i));
        lemma_deal_holding_prefix(ds.drop_last(), card, i);
    }
}

/// A found deal holds the card.
pub proof fn lemma_deal_holding(ds: Seq<DealView>, card: CardId)
    ensures
        deal_holding(ds, card) matches Some(i) ==> 0 <= i < ds.len() && deal_ids(ds[i].cards).contains(card),
    decreases ds.len(),
{
    if ds.len() > 0 {
        lemma_deal_holding(ds.drop_last(), card);
    }
}

impl GameState {
    /// Reveals one of a just-submitted deal's cards face up.
    fn apply_reveal_card(&mut self, player: PlayerId, card: CardId) -> (r: Result<Vec<Event>, RulesError>)
        requires
            old(self)@.wf(),
            active_player_spec(old(self)@) == Some(player),
        ensures
            final(self)@.stats == old(self)@.stats,
            final(self)@.turn_index == old(self)@.turn_index,
            final(self)@.wf(),
            final(self)@.card_count() == old(self)@.card_count(),
            exact_step(old(self)@, final(self)@, r, reveal_reject(old(self)@, player, card),
                reveal_result(old(self)@, player, card), seq![EventView::CardRevealed { seller: player, card }]),
    {
        let ghost v0 = self@;
        let kind: u8 = match &self.phase {
            Phase::DealOffer(s) => if s.step == DealOfferStep::AwaitingReveal { 1 } else { 0 },
            Phase::TwoPlayerDealOffer(s) => if s.step == TwoPlayerDealStep::AwaitingReveal { 2 } else { 0 },
            _ => 0,
        };
        if kind == 0 {
            return Err(self.wrong_phase_error());
        }
        if kind == 1 {
            let i = match find_deal(&self.deals, player) {
                Some(i) => i,
                None => {
                    return Err(RulesError::NoSuchDeal(player));
                },
            };
            if self.deals[i].position(card).is_none() {
                proof {
                    deal_ids(self.deals@[i as int].cards@).index_of_first_ensures(card);
                }
                return Err(RulesError::RevealCardNotInDeal);
            }
            proof {
                deal_ids(self.deals@[i as int].cards@).index_of_first_ensures(card);
            }
            self.reveal_in_deal(i, card);
            let mut ph = Phase::BuyerPeek;
            std::mem::swap(&mut ph, &mut self.phase);
            match ph {
                Phase::DealOffer(mut s) => {
                    let n_entries = s.entries.len();
                    s.idx = s.idx + 1;
                    s.step = DealOfferStep::AwaitingSubmit;
                    if s.idx >= n_entries {
                        self.phase = Phase::BuyerPeek;
                    } else {
                        self.phase = Phase::DealOffer(s);
                    }
                },
                other => {
                    self.phase = other;
                },
            }
            proof {
                let ph1 = offer_at(v0.phase->DealOffer_entries, v0.phase->DealOffer_idx + 1);
                lemma_offer_reveal(v0, player, i as int, card);
                lemma_reveal_keeps(v0, i as int, card, ph1);
                assert(self@ == reveal_result(v0, player, card));
            }
        } else {
            let j = match find_deal_holding(&self.deals, card) {
                Some(j) => j,
                None => {
                    return Err(RulesError::RevealCardNotInDeal);
                },
            };
            proof {
                lemma_deal_holding(deals_view(self.deals@), card);
            }
            self.reveal_in_deal(j, card);
            let w = self.open_window();
            self.phase = Phase::ThingamabobWindow(w);
            proof {
                lemma_window_ok(v0);
                lemma_reveal_keeps(v0, j as int, card, window_phase(v0));
                assert(self@ == reveal_result(v0, player, card));
            }
        }
        let evs = vec![Event::CardRevealed { seller: player, card }];
        assert(events_view(evs@) =~= seq![EventView::CardRevealed { seller: player, card }]);
        Ok(evs)
    }

    /// Buyer mode: the buyer's extra peek at a target seller's deal turns up
    /// one of its hidden cards, picked at random.
    fn apply_buyer_peek(&mut self, player: PlayerId, target: PlayerId) -> (r: Result<Vec<Event>, RulesError>)
        requires
            old(self)@.wf(),
            active_player_spec(old(self)@) == Some(player),
        ensures
            final(self)@.stats == old(self)@.stats,
            final(self)@.turn_index == old(self)@.turn_index,
            final(self)@.wf(),
            final(self)@.card_count() == old(self)@.card_count(),
            match r {
                Err(e) => peek_reject(old(self)@, target) == Some(e@) && final(self)@ == old(self)@,
                Ok(es) => peek_reject(old(self)@, target) is None && exists|k: int|
                    0 <= k < hidden_ids(old(self)@.deals[deal_index(old(self)@.deals, target)->0].cards).len()
                    && final(self)@ == peek_result(old(self)@, target, k)
                    && events_view(es@) == seq![EventView::BuyerPeeked { target_seller: target, card: peeked_card(old(self)@, target, k) }],
            },
    {
        let ghost v0 = self@;
        let in_peek = match &self.phase {
            Phase::BuyerPeek => true,
            _ => false,
        };
        if !in_peek {
            return Err(self.wrong_phase_error());
        }
        let i = match find_deal(&self.deals, target) {
            Some(i) => i,
            None => {
                return Err(RulesError::NoSuchDeal(target));
            },
        };
        let hidden = self.deals[i].hidden_cards();
        if hidden.len() == 0 {
            return Err(RulesError::NoSuchDeal(target));
        }
        let k = self.rng.gen_index(hidden.len());
        let card = hidden[k];
        proof {
            assert(hidden@.contains(card)) by {
                assert(hidden@[k as int] == card);
            };
            lemma_hidden_ids_member(self.deals@[i as int].cards@, card);
            let m = choose|m: int| 0 <= m < self.deals@[i as int].cards@.len()
                && self.deals@[i as int].cards@[m].card == card && !self.deals@[i as int].cards@[m].revealed;
            assert(deal_ids(self.deals@[i as int].cards@)[m] == card);
        }
        let w = self.open_window();
        self.reveal_in_deal(i, card);
        self.phase = Phase::ThingamabobWindow(w);
        proof {
            lemma_window_ok(v0);
            lemma_reveal_keeps(v0, i as int, card, window_phase(v0));
            assert(self@ == peek_result(v0, target, k as int));
        }
        let evs = vec![Event::BuyerPeeked { target_seller: target, card }];
        assert(events_view(evs@) =~= seq![EventView::BuyerPeeked { target_seller: target, card: peeked_card(v0, target, k as int) }]);
        Ok(evs)
    }

    /// A player passes during the response window; the window closes once
    /// everyone has passed in a row.
    fn apply_pass_thingamabob(&mut self) -> (r: Result<Vec<Event>, RulesError>)
        requires
            old(self)@.wf(),
            old(self)@.phase matches PhaseView::ThingamabobWindow { turn_idx, .. } ==> turn_idx < usize::MAX,
        ensures
            final(self)@.stats == old(self)@.stats,
            final(self)@.turn_index == old(self)@.turn_index,
            final(self)@.wf(),
            final(self)@.card_count() == old(self)@.card_count(),
            exact_step(old(self)@, final(self)@, r,
                if old(self)@.phase is ThingamabobWindow { None } else { Some(wrong_phase(old(self)@)) },
                pass_result(old(self)@),
                if pass_closes(old(self)@) { seq![EventView::ThingamabobWindowClosed] } else { Seq::empty() }),
    {
        let ghost v0 = self@;
        let in_window = match &self.phase {
            Phase::ThingamabobWindow(_) => true,
            _ => false,
        };
        if !in_window {
            return Err(self.wrong_phase_error());
        }
        let mut ph = Phase::BuyerPeek;
        std::mem::swap(&mut ph, &mut self.phase);
        let mut closed = false;
        match ph {
            Phase::ThingamabobWindow(mut s) => {
                let n_order = s.order.len();
                s.consecutive_passes = s.consecutive_passes + 1;
                s.turn_idx = s.turn_idx + 1;
                if s.consecutive_passes >= n_order {
                    closed = true;
                    self.phase = match self.mode {
                        GameMode::Buyer => Phase::BuyerChoosesDeal,
                        GameMode::TwoPlayer => Phase::RespondToDeal,
                    };
                } else {
                    self.phase = Phase::ThingamabobWindow(s);
                }
            },
            other => {
                self.phase = other;
            },
        }
        proof {
            lemma_wf_frame(v0, self@);
            assert(self@ == pass_result(v0));
        }
        let mut evs: Vec<Event> = Vec::new();
        if closed {
            evs.push(Event::ThingamabobWindowClosed);
        }
        assert(events_view(evs@) =~= (if pass_closes(v0) { seq![EventView::ThingamabobWindowClosed] } else { Seq::<EventView>::empty() }));
        Ok(evs)
    }
}

/// Removing a card from a deal keeps every other card it holds.
pub proof fn lemma_remove_keeps_others(d: DealView, c: CardId, x: CardId)
    requires
        deal_ids(d.cards).contains(c),
        x != c,
    ensures
        deal_ids(remove_in(d, c).cards).contains(x) <==> deal_ids(d.cards).contains(x),
{
    let ids = deal_ids(d.cards);
    ids.index_of_first_ensures(c);
    let j = ids.index_of_first(c)->0;
    assert(deal_ids(d.cards.remove(j)) =~= ids.remove(j));
    if ids.contains(x) {
        let k = choose|k: int| 0 <= k < ids.len() && ids[k] == x;
        assert(k != j);
        if k < j {
            assert(ids.remove(j)[k] == x);
        } else {
            assert(ids.remove(j)[k - 1] == x);
        }
    }
    if ids.remove(j).contains(x) {
        let k = choose|k: int| 0 <= k < ids.remove(j).len() && ids.remove(j)[k] == x;
        if k < j {
            assert(ids[k] == x);
        } else {
            assert(ids[k + 1] == x);
        }
    }
}

/// Distinct removals that all name a card of a deal of that seller each
/// move one card from its deal to the discard pile, leaving everything
/// else as it was.
pub proof fn lemma_removals_frame(v: GameView, rs: Seq<(PlayerId, CardId)>)
    requires
        bad_removal(v, rs) is None,
        all_distinct(removal_cards(rs)),
    ensures
        removals_result(v, rs) == with_discard(with_deals(v, removals_result(v, rs).deals), v.discard_pile.add(removal_cards(rs))),
        removals_result(v, rs).deals.len() == v.deals.len(),
        forall|i: int| 0 <= i < v.deals.len() ==> #[trigger] removals_result(v, rs).deals[i].seller == v.deals[i].seller,
        deals_cards(removals_result(v, rs).deals) == deals_cards(v.deals) - rs.len(),
        forall|x: CardId, i: int| !removal_cards(rs).contains(x) && 0 <= i < v.deals.len() ==>
            (#[trigger] deal_ids(removals_result(v, rs).deals[i].cards).contains(x) <==> deal_ids(v.deals[i].cards).contains(x)),
    decreases rs.len(),
{
    if rs.len() == 0 {
        assert(v.discard_pile.add(removal_cards(rs)) =~= v.discard_pile);
    } else {
        let init = rs.drop_last();
        assert(removal_cards(init) =~= removal_cards(rs).drop_last());
        assert forall|a: int, b: int| 0 <= a < b < removal_cards(init).len() implies removal_cards(init)[a] != removal_cards(init)[b] by {
            assert(removal_cards(rs)[a] != removal_cards(rs)[b]);
        };
        lemma_removals_frame(v, init);
        let w = removals_result(v, init);
        let (s, c) = rs.last();
        assert(w.deals.map_values(|d: DealView| d.seller) =~= v.deals.map_values(|d: DealView| d.seller));
        let i = deal_index(w.deals, s)->0;
        lemma_deal_index(v.deals, s);
        assert(removal_cards(rs)[rs.len() - 1] == c);
        assert(!removal_cards(init).contains(c)) by {
            if removal_cards(init).contains(c) {
                let k = choose|k: int| 0 <= k < removal_cards(init).len() && removal_cards(init)[k] == c;
                assert(removal_cards(rs)[k] == removal_cards(rs)[rs.len() - 1]);
            }
        };
        assert(deal_ids(w.deals[i].cards).contains(c));
        deal_ids(w.deals[i].cards).index_of_first_ensures(c);
        lemma_deals_cards_update(w.deals, i, remove_in(w.deals[i], c));
        assert(removal_cards(rs) =~= removal_cards(init).push(c));
        assert(v.discard_pile.add(removal_cards(rs)) =~= v.discard_pile.add(removal_cards(init)).push(c));
        assert forall|x: CardId, j: int| !removal_cards(rs).contains(x) && 0 <= j < v.deals.len() implies
            (#[trigger] deal_ids(removals_result(v, rs).deals[j].cards).contains(x) <==> deal_ids(v.deals[j].cards).contains(x)) by {
            assert(!removal_cards(init).contains(x)) by {
                if removal_cards(init).contains(x) {
                    let k = choose|k: int| 0 <= k < removal_cards(init).len() && removal_cards(init)[k] == x;
                    assert(removal_cards(rs)[k] == x);
                }
            };
            assert(x != c);
            if j == i {
                lemma_remove_keeps_others(w.deals[i], c, x);
            }
        };
    }
}

/// Once a prefix of removals has a bad one, the whole list does, with the
/// same error.
pub proof fn lemma_bad_removal_prefix(v: GameView, rs: Seq<(PlayerId, CardId)>, k: int)
    requires
        0 <= k <= rs.len(),
        bad_removal(v, rs.take(k)) is Some,
    ensures
        bad_removal(v, rs) == bad_removal(v, rs.take(k)),
    decreases rs.len(),
{
    if k == rs.len() {
        assert(rs.take(k) =~= rs);
    } else {
        assert(rs.drop_last().take(k) =~= rs.take(k));
        lemma_bad_removal_prefix(v, rs.drop_last(), k);
    }
}

/// Number of distinct sellers named by a removal list.
fn distinct_sellers(rs: &Vec<(PlayerId, CardId)>) -> (n: usize)
    ensures
        n == distinct_count(removal_sellers(rs@)),
{
    let ghost sellers = removal_sellers(rs@);
    let mut count: usize = 0;
    let mut i: usize = 0;
    assert(sellers.take(0) =~= Seq::<PlayerId>::empty());
    while i < rs.len()
        invariant
            sellers == removal_sellers(rs@),
            sellers.len() == rs@.len(),
            i <= rs@.len(),
            count <= i,
            count == distinct_count(sellers.take(i as int)),
        decreases rs@.len() - i,
    {
        let s = rs[i].0;
        assert(sellers[i as int] == rs@[i as int].0);
        let mut seen = false;
        let mut j: usize = 0;
        while j < i
            invariant
                sellers == removal_sellers(rs@),
                sellers.len() == rs@.len(),
                i < rs@.len(),
                j <= i,
                s == sellers[i as int],
                seen == sellers.take(j as int).contains(s),
            decreases i - j,
        {
            proof {
                assert(sellers[j as int] == rs@[j as int].0);
            }
            if rs[j].0 == s {
                seen = true;
            }
            proof {
                assert(sellers.take(j as int + 1) =~= sellers.take(j as int).push(sellers[j as int]));
                let pre = sellers.take(j as int);
                let post = sellers.take(j as int + 1);
                if pre.contains(s) {
                    let m = choose|m: int| 0 <= m < pre.len() && #[trigger] pre[m] == s;
                    assert(post[m] == s);
                    assert(post.contains(s));
                }
                if sellers[j as int] == s {
                    assert(post[j as int] == s);
                    assert(post.contains(s));
                }
                if post.contains(s) {
                    let m = choose|m: int| 0 <= m < post.len() && #[trigger] post[m] == s;
                    if m < j {
                        assert(pre[m] == s);
                        assert(pre.contains(s));
                    }
                }
                assert(post.contains(s) == (pre.contains(s) || sellers[j as int] == s));
            }
            j += 1;
        }
        proof {
            assert(sellers.take(i as int + 1).drop_last() =~= sellers.take(i as int));
            assert(sellers.take(i as int + 1).last() == s);
        }
        if !seen {
            count = count + 1;
        }
        i += 1;
    }
    assert(sellers.take(i as int) =~= sellers);
    count
}

impl GameState {
    /// Why a removal list is refused for an effect with these limits, if it is.
    fn removal_error(&self, removals: &Vec<(PlayerId, CardId)>, max_cards: u8, max_deals: u8) -> (r: Option<RulesError>)
        ensures
            match r {
                Some(e) => effect_reject(self@, 0, ThingamabobEffect::RemoveCardsFromDeals { max_cards, max_deals },
                    ParamsView::RemoveFromDeals { removals: removals@ }) == Some(e@),
                None => effect_reject(self@, 0, ThingamabobEffect::RemoveCardsFromDeals { max_cards, max_deals },
                    ParamsView::RemoveFromDeals { removals: removals@ }) is None,
            },
    {
        let ghost rs = removals@;
        if removals.len() > max_cards as usize {
            return Some(RulesError::TooManyRemovals);
        }
        if distinct_sellers(removals) > max_deals as usize {
            return Some(RulesError::TooManyRemovals);
        }
        let mut cards: Vec<CardId> = Vec::new();
        let mut i: usize = 0;
        while i < removals.len()
            invariant
                i <= rs.len(),
                rs == removals@,
                cards@ == removal_cards(rs).take(i as int),
            decreases rs.len() - i,
        {
            cards.push(removals[i].1);
            i += 1;
            assert(cards@ =~= removal_cards(rs).take(i as int));
        }
        assert(removal_cards(rs).take(i as int) =~= removal_cards(rs));
        if !crate::seqs::ids_distinct(&cards) {
            return Some(RulesError::DuplicateRemovalTarget);
        }
        let mut k: usize = 0;
        assert(rs.take(0) =~= Seq::<(PlayerId, CardId)>::empty());
        while k < removals.len()
            invariant
                k <= rs.len(),
                rs == removals@,
                rs.len() <= max_cards as int,
                distinct_count(removal_sellers(rs)) <= max_deals as int,
                all_distinct(removal_cards(rs)),
                bad_removal(self@, rs.take(k as int)) is None,
            decreases rs.len() - k,
        {
            let (s, c) = removals[k];
            proof {
                assert(rs.take(k as int + 1).drop_last() =~= rs.take(k as int));
                assert(rs.take(k as int + 1).last() == (s, c));
            }
            let i = match find_deal(&self.deals, s) {
                Some(i) => i,
                None => {
                    proof {
                        lemma_bad_removal_prefix(self@, rs, k as int + 1);
                    }
                    return Some(RulesError::NoSuchDeal(s));
                },
            };
            proof {
                deal_ids(self.deals@[i as int].cards@).index_of_first_ensures(c);
            }
            if self.deals[i].position(c).is_none() {
                proof {
                    lemma_bad_removal_prefix(self@, rs, k as int + 1);
                }
                return Some(RulesError::CardNotHiddenInDeal(c));
            }
            k += 1;
        }
        assert(rs.take(k as int) =~= rs);
        None
    }

    /// Why a thingamabob's parameters are refused for its effect, if they are.
    fn effect_error(&self, player: PlayerId, effect: ThingamabobEffect, params: &ThingamabobParams) -> (r: Option<RulesError>)
        requires
            self@.wf(),
            player < self@.num_players,
        ensures
            match r {
                Some(e) => effect_reject(self@, player, effect, params@) == Some(e@),
                None => effect_reject(self@, player, effect, params@) is None,
            },
            r is None ==> params_in_range(self@, params@),
    {
        match params {
            ThingamabobParams::PlatonicIsolator { target_player } => match effect {
                ThingamabobEffect::StealPointTokenFromRicherPlayer => {
                    let t = *target_player;
                    if t == player || t >= self.num_players {
                        Some(RulesError::InvalidThingamabobParams)
                    } else if self.players[t].point_tokens <= self.players[player].point_tokens {
                        Some(RulesError::IsolatorTargetNotRicher)
                    } else {
                        None
                    }
                },
                _ => Some(RulesError::InvalidThingamabobParams),
            },
            ThingamabobParams::RemoveFromDeals { removals } => match effect {
                ThingamabobEffect::RemoveCardsFromDeals { max_cards, max_deals } => self.removal_error(removals, max_cards, max_deals),
                _ => Some(RulesError::InvalidThingamabobParams),
            },
            ThingamabobParams::CryptozooticExpander { hand_card, target_deal } => match effect {
                ThingamabobEffect::AddHiddenHandCardToDeal => {
                    if !contains_id(&self.players[player].hand, *hand_card) {
                        Some(RulesError::CardNotInHand(*hand_card))
                    } else if find_deal(&self.deals, *target_deal).is_none() {
                        Some(RulesError::NoSuchDeal(*target_deal))
                    } else {
                        None
                    }
                },
                _ => Some(RulesError::InvalidThingamabobParams),
            },
            ThingamabobParams::SpectroelectricOptimeter { target_deal, target_card } => match effect {
                ThingamabobEffect::RevealCardInDeal => {
                    match find_deal(&self.deals, *target_deal) {
                        None => Some(RulesError::NoSuchDeal(*target_deal)),
                        Some(i) => {
                            let hidden = self.deals[i].hidden_cards();
                            if contains_id(&hidden, *target_card) {
                                None
                            } else {
                                Some(RulesError::CardNotHiddenInDeal(*target_card))
                            }
                        },
                    }
                },
                _ => Some(RulesError::InvalidThingamabobParams),
            },
        }
    }
}

/// What an accepted effect leaves: same seats, deals (by seller) and
/// phase, every card still somewhere.
pub proof fn lemma_effect(v: GameView, player: PlayerId, effect: ThingamabobEffect, params: ParamsView)
    requires
        v.wf(),
        v.phase is ThingamabobWindow,
        player < v.num_players,
        params_in_range(v, params),
        v.tokens(player) < u32::MAX,
        effect_reject(v, player, effect, params) is None,
    ensures
        effect_result(v, player, params).wf(),
        effect_result(v, player, params).card_count() == v.card_count(),
        effect_result(v, player, params).phase == v.phase,
        effect_result(v, player, params).players.len() == v.players.len(),
        effect_result(v, player, params).stats == v.stats,
        effect_result(v, player, params).turn_index == v.turn_index,
{
    let w = effect_result(v, player, params);
    match params {
        ParamsView::PlatonicIsolator { target_player } => {
            let v1 = with_tokens(v, target_player, (v.tokens(target_player) - 1) as u32);
            lemma_count_with_player(v, target_player, PlayerView { point_tokens: (v.tokens(target_player) - 1) as u32, ..v.players[target_player as int] });
            lemma_count_with_player(v1, player, PlayerView { point_tokens: (v.tokens(player) + 1) as u32, ..v1.players[player as int] });
            lemma_wf_frame(v, w);
        },
        ParamsView::RemoveFromDeals { removals } => {
            lemma_removals_frame(v, removals);
            assert forall|d: int| 0 <= d < w.deals.len() implies #[trigger] w.deals[d].seller < w.num_players by {
                assert(w.deals[d].seller == v.deals[d].seller);
            };
            assert forall|s: PlayerId| #[trigger] deal_index(w.deals, s) == deal_index(v.deals, s) by {
                assert(w.deals.map_values(|d: DealView| d.seller) =~= v.deals.map_values(|d: DealView| d.seller));
            };
            lemma_wf_frame(v, w);
        },
        ParamsView::CryptozooticExpander { hand_card, target_deal } => {
            let h = remove_first(v.hand(player), hand_card);
            lemma_remove_first(v.hand(player), hand_card);
            lemma_count_with_player(v, player, PlayerView { hand: h, ..v.players[player as int] });
            let v1 = with_hand(v, player, h);
            let i = deal_index(v.deals, target_deal)->0;
            lemma_deal_index(v.deals, target_deal);
            lemma_deals_cards_update(v1.deals, i, add_in(v.deals[i], hand_card));
            assert forall|s: PlayerId| #[trigger] deal_index(w.deals, s) == deal_index(v.deals, s) by {
                assert(w.deals.map_values(|d: DealView| d.seller) =~= v.deals.map_values(|d: DealView| d.seller));
            };
            lemma_wf_frame(v, w);
        },
        ParamsView::SpectroelectricOptimeter { target_deal, target_card } => {
            let i = deal_index(v.deals, target_deal)->0;
            lemma_deal_index(v.deals, target_deal);
            lemma_hidden_ids_member(v.deals[i].cards, target_card);
            let m = choose|m: int| 0 <= m < v.deals[i].cards.len() && v.deals[i].cards[m].card == target_card
                && !v.deals[i].cards[m].revealed;
            assert(deal_ids(v.deals[i].cards)[m] == target_card);
            lemma_reveal_keeps(v, i, target_card, v.phase);
            assert(with_phase(v, v.phase) == v);
        },
    }
}

impl GameState {
    /// Carries out an accepted effect, reporting its events.
    fn apply_effect(&mut self, player: PlayerId, effect: ThingamabobEffect, params: &ThingamabobParams) -> (evs: Vec<Event>)
        requires
            old(self)@.wf(),
            player < old(self)@.num_players,
            params_in_range(old(self)@, params@),
            old(self)@.tokens(player) < u32::MAX,
            effect_reject(old(self)@, player, effect, params@) is None,
        ensures
            final(self)@ == effect_result(old(self)@, player, params@),
            events_view(evs@) == effect_events(player, params@),
    {
        let ghost v0 = self@;
        match params {
            ThingamabobParams::PlatonicIsolator { target_player } => {
                let t = *target_player;
                let tt = self.players[t].point_tokens;
                let pt = self.players[player].point_tokens;
                self.set_tokens(t, tt - 1);
                assert(self@.players.len() == self.players@.len());
                self.set_tokens(player, pt + 1);
                let evs = vec![Event::PointTokenStolen { from: t, to: player, amount: 1 }];
                assert(events_view(evs@) =~= effect_events(player, params@));
                evs
            },
            ThingamabobParams::RemoveFromDeals { removals } => {
                let ghost rs = removals@;
                proof {
                    lemma_removals_frame(v0, rs);
                    assert(rs.take(0) =~= Seq::<(PlayerId, CardId)>::empty());
                }
                let mut removed: Vec<CardId> = Vec::new();
                let mut k: usize = 0;
                while k < removals.len()
                    invariant
                        rs == removals@,
                        k <= rs.len(),
                        bad_removal(v0, rs) is None,
                        all_distinct(removal_cards(rs)),
                        self@ == removals_result(v0, rs.take(k as int)),
                        removed@ == removal_cards(rs).take(k as int),
                    decreases rs.len() - k,
                {
                    let (s, c) = removals[k];
                    let ghost pre = rs.take(k as int);
                    proof {
                        assert(rs.take(k as int + 1).drop_last() =~= pre);
                        assert(rs.take(k as int + 1).last() == (s, c));
                        assert(removal_cards(pre) =~= removal_cards(rs).take(k as int));
                        assert forall|a: int, b: int| 0 <= a < b < removal_cards(pre).len() implies removal_cards(pre)[a] != removal_cards(pre)[b] by {
                            assert(removal_cards(rs)[a] != removal_cards(rs)[b]);
                        };
                        lemma_bad_removal_none_prefix(v0, rs, k as int);
                        lemma_bad_removal_none_prefix(v0, rs, k as int + 1);
                        lemma_removals_frame(v0, pre);
                        assert(self@.deals.map_values(|d: DealView| d.seller) =~= v0.deals.map_values(|d: DealView| d.seller));
                        lemma_deal_index(v0.deals, s);
                        assert(!removal_cards(pre).contains(c)) by {
                            if removal_cards(pre).contains(c) {
                                let m = choose|m: int| 0 <= m < removal_cards(pre).len() && removal_cards(pre)[m] == c;
                                assert(removal_cards(rs)[m] == removal_cards(rs)[k as int]);
                            }
                        };
                    }
                    let i = match find_deal(&self.deals, s) {
                        Some(i) => i,
                        None => {
                            proof {
                                assert(false);
                            }
                            return Vec::new();
                        },
                    };
                    self.remove_in_deal(i, c);
                    self.discard_pile.push(c);
                    removed.push(c);
                    proof {
                        assert(removed@ =~= removal_cards(rs).take(k as int + 1));
                        assert(self@ == removals_result(v0, rs.take(k as int + 1)));
                    }
                    k += 1;
                }
                assert(rs.take(k as int) =~= rs);
                assert(removal_cards(rs).take(k as int) =~= removal_cards(rs));
                let evs = vec![Event::CardsDiscarded { cards: removed }];
                assert(events_view(evs@) =~= effect_events(player, params@));
                evs
            },
            ThingamabobParams::CryptozooticExpander { hand_card, target_deal } => {
                let i = match find_deal(&self.deals, *target_deal) {
                    Some(i) => i,
                    None => {
                        return Vec::new();
                    },
                };
                self.take_one_from_hand(player, *hand_card);
                assert(self@.deals.len() == self.deals@.len());
                self.add_to_deal(i, *hand_card);
                let evs: Vec<Event> = Vec::new();
                assert(events_view(evs@) =~= effect_events(player, params@));
                evs
            },
            ThingamabobParams::SpectroelectricOptimeter { target_deal, target_card } => {
                let i = match find_deal(&self.deals, *target_deal) {
                    Some(i) => i,
                    None => {
                        return Vec::new();
                    },
                };
                proof {
                    lemma_hidden_ids_member(self@.deals[i as int].cards, *target_card);
                    let m = choose|m: int| 0 <= m < self@.deals[i as int].cards.len()
                        && self@.deals[i as int].cards[m].card == *target_card && !self@.deals[i as int].cards[m].revealed;
                    assert(deal_ids(self@.deals[i as int].cards)[m] == *target_card);
                }
                self.reveal_in_deal(i, *target_card);
                let evs = vec![Event::CardRevealed { seller: *target_deal, card: *target_card }];
                assert(events_view(evs@) =~= effect_events(player, params@));
                evs
            },
        }
    }
}

/// A prefix of a removal list with no bad removal in the whole list has
/// none either.
pub proof fn lemma_bad_removal_none_prefix(v: GameView, rs: Seq<(PlayerId, CardId)>, k: int)
    requires
        0 <= k <= rs.len(),
        bad_removal(v, rs) is None,
    ensures
        bad_removal(v, rs.take(k)) is None,
{
    if bad_removal(v, rs.take(k)) is Some {
        lemma_bad_removal_prefix(v, rs, k);
    }
}

/// An accepted play keeps the invariant and every card.
pub proof fn lemma_play(v: GameView, player: PlayerId, card: CardId, params: ParamsView)
    requires
        v.wf(),
        active_player_spec(v) == Some(player),
        params_in_range(v, params),
        v.tokens(player) < u32::MAX,
        play_reject(v, player, card, params) is None,
    ensures
        play_result(v, player, card, params).wf(),
        play_result(v, player, card, params).card_count() == v.card_count(),
{
    let k = played_kind(v, card);
    let effect = v.catalog.thingamabob_effect_of(k);
    assert(player < v.num_players);
    lemma_effect(v, player, effect, params);
    let w = effect_result(v, player, params);
    assert(w.collection(player) == v.collection(player)) by {
        match params {
            ParamsView::RemoveFromDeals { removals } => {
                lemma_removals_frame(v, removals);
            },
            _ => {},
        }
    };
    lemma_remove_first(w.collection(player), card);
    lemma_count_with_player(w, player, PlayerView { collection: remove_first(w.collection(player), card), ..w.players[player as int] });
    let fin = play_result(v, player, card, params);
    lemma_wf_frame(w, fin);
}

impl GameState {
    /// Plays a thingamabob from the acting player's collection during the
    /// response window.
    fn apply_play_thingamabob(&mut self, player: PlayerId, card: CardId, params: ThingamabobParams) -> (r: Result<Vec<Event>, RulesError>)
        requires
            old(self)@.wf(),
            active_player_spec(old(self)@) == Some(player),
            old(self)@.tokens(player) < u32::MAX,
        ensures
            final(self)@.stats == old(self)@.stats,
            final(self)@.turn_index == old(self)@.turn_index,
            final(self)@.wf(),
            final(self)@.card_count() == old(self)@.card_count(),
            exact_step(old(self)@, final(self)@, r, play_reject(old(self)@, player, card, params@),
                play_result(old(self)@, player, card, params@),
                seq![EventView::ThingamabobPlayed { player, card, kind: played_kind(old(self)@, card) }].add(effect_events(player, params@))),
    {
        let ghost v0 = self@;
        let in_window = match &self.phase {
            Phase::ThingamabobWindow(_) => true,
            _ => false,
        };
        if !in_window {
            return Err(self.wrong_phase_error());
        }
        assert(player < v0.num_players);
        if !contains_id(&self.players[player].collection, card) {
            return Err(RulesError::CardNotInCollection(card));
        }
        let kind = match self.kind_of(card) {
            CardKind::Thingamabob(k) => k,
            _ => {
                return Err(RulesError::NotAThingamabob(card));
            },
        };
        proof {
            assert(v0.kinds[card as int] == CardKind::Thingamabob(kind));
        }
        let effect = self.catalog.thingamabob_effect(kind);
        match self.effect_error(player, effect, &params) {
            Some(e) => {
                return Err(e);
            },
            None => {},
        }
        proof {
            lemma_play(v0, player, card, params@);
            lemma_effect(v0, player, effect, params@);
        }
        let mut more = self.apply_effect(player, effect, &params);
        let mut evs = vec![Event::ThingamabobPlayed { player, card, kind }];
        let ghost first = evs@;
        let ghost rest = more@;
        evs.append(&mut more);
        assert(events_view(evs@) =~= events_view(first).add(events_view(rest)));
        assert(self@.players.len() == self.players@.len());
        self.take_from_collection(player, card);
        self.discard_pile.push(card);
        let mut ph = Phase::BuyerPeek;
        std::mem::swap(&mut ph, &mut self.phase);
        match ph {
            Phase::ThingamabobWindow(mut s) => {
                s.consecutive_passes = 0;
                self.phase = Phase::ThingamabobWindow(s);
            },
            other => {
                self.phase = other;
            },
        }
        proof {
            assert(self@ == play_result(v0, player, card, params@));
            assert(play_reject(v0, player, card, params@) is None);
            assert(events_view(first) =~= seq![EventView::ThingamabobPlayed { player, card, kind: played_kind(v0, card) }]);
            assert(events_view(rest) == effect_events(player, params@));
        }
        Ok(evs)
    }
}

impl GameState {
    /// Who resolves a completed nasty set belonging to `loser`: in buyer
    /// mode the buyer marker has already passed to the new buyer, who
    /// resolves it; in two-player mode it is always the other player.
    pub fn nasty_beneficiary(&self, loser: PlayerId) -> (r: PlayerId)
        requires
            self@.wf(),
            loser < self@.num_players,
        ensures
            r == beneficiary(self@, loser),
    {
        match self.mode {
            GameMode::TwoPlayer => 1 - loser,
            GameMode::Buyer => self.turn_leader,
        }
    }

    /// The single seat to act right now, if any.
    pub fn active_player(&self) -> (r: Option<PlayerId>)
        requires
            self@.wf(),
        ensures
            r == active_player_spec(self@),
            r matches Some(p) ==> p < self@.num_players,
    {
        match &self.phase {
            Phase::DealOffer(s) => {
                if s.is_done() {
                    None
                } else {
                    Some(s.current().player)
                }
            },
            Phase::TwoPlayerDealOffer(_) => Some(self.turn_leader),
            Phase::BuyerPeek => Some(self.turn_leader),
            Phase::ThingamabobWindow(s) => Some(s.current_player()),
            Phase::BuyerChoosesDeal => Some(self.turn_leader),
            Phase::RespondToDeal => Some(1 - self.turn_leader),
            Phase::NastyResolution(s) => Some(self.nasty_beneficiary(s.pending.player)),
            Phase::GameOver { .. } => None,
        }
    }

    /// Every seat that may act right now: the active player, if any.
    pub fn active_players(&self) -> (r: Vec<PlayerId>)
        requires
            self@.wf(),
        ensures
            r@ == match active_player_spec(self@) {
                Some(p) => seq![p],
                None => Seq::<PlayerId>::empty(),
            },
    {
        let mut out: Vec<PlayerId> = Vec::new();
        match self.active_player() {
            Some(p) => out.push(p),
            None => {},
        }
        assert(out@ =~= match active_player_spec(self@) {
            Some(p) => seq![p],
            None => Seq::<PlayerId>::empty(),
        });
        out
    }

    /// Folds a step's events into the episode memory: per-seat statistics
    /// and the count of turns completed.
    fn remember(&mut self, events: &Vec<Event>)
        requires
            old(self)@.wf(),
        ensures
            final(self)@ == with_memory(
                old(self)@,
                remember_stats(old(self)@.stats, events_view(events@)),
                remember_turns(old(self)@.turn_index, events_view(events@)),
            ),
            final(self)@.wf(),
    {
        let ghost v0 = self@;
        let ghost evs = events_view(events@);
        let mut k: usize = 0;
        proof {
            assert(evs.take(0) =~= Seq::<EventView>::empty());
        }
        while k < events.len()
            invariant
                v0.wf(),
                evs == events_view(events@),
                k <= events@.len(),
                self@ == with_memory(v0, remember_stats(v0.stats, evs.take(k as int)), remember_turns(v0.turn_index, evs.take(k as int))),
                self@.stats.len() == v0.stats.len(),
            decreases events@.len() - k,
        {
            let e = &events[k];
            proof {
                assert(evs.take(k as int + 1).drop_last() =~= evs.take(k as int));
                assert(evs.take(k as int + 1).last() == e@);
            }
            if crate::stats::event_fits(&self.stats, e) {
                crate::stats::record(&mut self.stats, e);
            }
            let passes = match e {
                Event::TurnLeaderPassed { .. } => true,
                _ => false,
            };
            if passes && self.turn_index < u32::MAX {
                self.turn_index = self.turn_index + 1;
            }
            k += 1;
        }
        proof {
            assert(evs.take(k as int) =~= evs);
            crate::turn::lemma_wf_frame(v0, self@);
        }
    }

    /// Applies one action for `player`. A refused action leaves the game
    /// exactly as it was and reports why; an accepted one changes it as
    /// the rules say and reports what happened.
    pub fn apply_action(&mut self, player: PlayerId, action: Action) -> (r: Result<Vec<Event>, RulesError>)
        requires
            old(self)@.wf(),
            action_ok(old(self)@, action@),
        ensures
            final(self)@.wf(),
            final(self)@.card_count() == old(self)@.card_count(),
            crate::places::game_ids(final(self)@) == crate::places::game_ids(old(self)@),
            crate::places::ids_unique(old(self)@) ==> crate::places::ids_unique(final(self)@),
            crate::rules::offers_ok(old(self)@) ==> crate::rules::offers_ok(final(self)@),
            crate::rules::hands_small(old(self)@) ==> crate::rules::hands_small(final(self)@),
            crate::rules::same_table(old(self)@, final(self)@),
            crate::menus::table_ok(old(self)@) ==> crate::menus::table_ok(final(self)@),
            match r {
                Err(e) => reject(old(self)@, player, action@) == Some(e@) && final(self)@ == old(self)@,
                Ok(evs) => reject(old(self)@, player, action@) is None
                    && transition(old(self)@, player, action@,
                        with_memory(final(self)@, old(self)@.stats, old(self)@.turn_index), events_view(evs@))
                    && final(self)@.stats == remember_stats(old(self)@.stats, events_view(evs@))
                    && final(self)@.turn_index == remember_turns(old(self)@.turn_index, events_view(evs@))
                    && nasties_first(events_view(evs@)),
            },
    {
        let ghost v0 = self@;
        let ghost a = action@;
        let over = match &self.phase {
            Phase::GameOver { .. } => true,
            _ => false,
        };
        if over {
            return Err(RulesError::GameAlreadyOver);
        }
        if self.active_player() != Some(player) {
            return Err(RulesError::NotActivePlayer(player));
        }
        proof {
            crate::trade::lemma_players_within_count(v0);
            assert(v0.tokens(player) + v0.card_count() < u32::MAX);
        }
        let result = match action {
            Action::SubmitDeal { cards } => self.apply_submit_deal(player, cards),
            Action::TwoPlayerSubmitDeal { own_pile, other_pile } => self.apply_two_player_submit_deal(player, own_pile, other_pile),
            Action::RevealCard { card } => self.apply_reveal_card(player, card),
            Action::BuyerPeek { target_seller } => self.apply_buyer_peek(player, target_seller),
            Action::PlayThingamabob { card, params } => self.apply_play_thingamabob(player, card, params),
            Action::PassThingamabobWindow => self.apply_pass_thingamabob(),
            Action::ChooseDeal { seller } => self.apply_choose_deal(player, seller),
            Action::RespondToDeal { reverse } => self.apply_respond_to_deal(player, reverse),
            Action::ResolveNastyPenalty { taken_cards } => self.apply_resolve_nasty_penalty(player, taken_cards),
        };
        match result {
            Err(e) => Err(e),
            Ok(evs) => {
                let ghost w = self@;
                self.remember(&evs);
                proof {
                    assert(with_memory(self@, v0.stats, v0.turn_index) == w);
                    assert(a matches ActionView::SubmitDeal { cards } ==> cards.len() == 3);
                    lemma_accepted_step(v0, player, a, w, events_view(evs@));
                    lemma_memory_step(w, self@);
                }
                Ok(evs)
            },
        }
    }
}
/// What an accepted action keeps: every card id in play, the table it is
/// played at, and each of the invariants the menus rest on.
pub proof fn lemma_accepted_step(v: GameView, player: PlayerId, a: ActionView, w: GameView, evs: Seq<EventView>)
    requires
        v.wf(),
        action_ok(v, a),
        reject(v, player, a) is None,
        transition(v, player, a, w, evs),
        a matches ActionView::SubmitDeal { cards } ==> cards.len() == 3,
    ensures
        crate::places::game_ids(w) == crate::places::game_ids(v),
        crate::rules::same_table(v, w),
        crate::rules::offers_ok(v) ==> crate::rules::offers_ok(w),
        crate::rules::hands_small(v) ==> crate::rules::hands_small(w),
        crate::menus::table_ok(v) ==> crate::menus::table_ok(w),
        !(a is ChooseDeal || a is RespondToDeal || a is ResolveNastyPenalty) ==> nasties_first(evs),
{
    crate::places::lemma_transition_ids(v, player, a, w, evs);
    lemma_transition_table(v, player, a, w, evs);
    if crate::rules::offers_ok(v) {
        lemma_transition_offers(v, player, a, w, evs);
    }
    if crate::rules::hands_small(v) {
        lemma_transition_hands(v, player, a, w, evs);
    }
    if crate::menus::table_ok(v) {
        crate::menus::lemma_transition_table_ok(v, player, a, w, evs);
    }
    if !(a is ChooseDeal || a is RespondToDeal || a is ResolveNastyPenalty) {
        lemma_plain_events(v, player, a, w, evs);
    }
}

/// Folding events into the statistics and turn counter moves no card and
/// keeps every invariant.
pub proof fn lemma_memory_step(w: GameView, u: GameView)
    requires
        w == with_memory(u, w.stats, w.turn_index),
    ensures
        crate::places::game_ids(u) == crate::places::game_ids(w),
        crate::rules::same_table(w, u),
        crate::rules::offers_ok(w) ==> crate::rules::offers_ok(u),
        crate::rules::hands_small(w) ==> crate::rules::hands_small(u),
        crate::menus::table_ok(w) ==> crate::menus::table_ok(u),
{
    assert(u.players == w.players);
    if crate::menus::table_ok(w) {
        crate::menus::lemma_table_ok_memory(w, u);
    }
}

/// The actions that do not end a turn report no set trade-ins at all.
proof fn lemma_plain_events(v: GameView, player: PlayerId, a: ActionView, w: GameView, evs: Seq<EventView>)
    requires
        transition(v, player, a, w, evs),
        !(a is ChooseDeal || a is RespondToDeal || a is ResolveNastyPenalty),
    ensures
        nasties_first(evs),
{
    match a {
        ActionView::PlayThingamabob { card, params } => {
            let e = effect_events(player, params);
            assert(no_creature_trade_ins(e));
            assert(forall|i: int| 0 <= i < e.len() ==> !((#[trigger] e[i]) is NastySetTradedIn));
        },
        _ => {},
    }
}


/// An accepted action keeps a deal to choose among wherever the next
/// phase asks for one.
pub proof fn lemma_transition_offers(v: GameView, player: PlayerId, a: ActionView, w: GameView, evs: Seq<EventView>)
    requires
        v.wf(),
        reject(v, player, a) is None,
        transition(v, player, a, w, evs),
        crate::rules::offers_ok(v),
        a matches ActionView::SubmitDeal { cards } ==> cards.len() == 3,
    ensures
        crate::rules::offers_ok(w),
{
    match a {
        ActionView::SubmitDeal { cards } => {
            let entries = v.phase->DealOffer_entries;
            assert(w.deals == v.deals.push(DealView { seller: player, cards: hidden_pile(cards) }));
            assert forall|k: int| 0 <= k < w.deals.len() implies (#[trigger] w.deals[k]).cards.len() == 3 by {
                if k < v.deals.len() {
                    assert(w.deals[k] == v.deals[k]);
                }
            };
        },
        ActionView::TwoPlayerSubmitDeal { own_pile, other_pile } => {
            let ds = crate::rules::split_deals(player, own_pile, other_pile);
            assert(v.deals.len() == 0);
            assert(w.deals =~= ds);
            assert(ds.len() <= 2);
            assert(crate::rules::both_piles(own_pile, other_pile).len() == 3);
            if own_pile.len() > 0 {
                assert(ds[0].cards == hidden_pile(own_pile));
            } else {
                assert(ds[0].cards == hidden_pile(other_pile));
            }
            crate::game::lemma_deals_cards_split(player, own_pile, other_pile);
        },
        ActionView::RevealCard { card } => {
            lemma_deal_holding(v.deals, card);
            if v.phase is DealOffer {
                lemma_deal_index(v.deals, player);
                let i = deal_index(v.deals, player)->0;
                deal_ids(v.deals[i].cards).index_of_first_ensures(card);
                assert forall|k: int| 0 <= k < w.deals.len() implies (#[trigger] w.deals[k]).cards.len() == 3 by {
                    if k != i {
                        assert(w.deals[k] == v.deals[k]);
                    }
                };
            }
        },
        ActionView::BuyerPeek { target_seller } => {
            let i = deal_index(v.deals, target_seller)->0;
            lemma_deal_index(v.deals, target_seller);
            let k = choose|k: int| 0 <= k < hidden_ids(v.deals[i].cards).len()
                && w == crate::rules::peek_result(v, target_seller, k)
                && evs == seq![EventView::BuyerPeeked { target_seller, card: crate::rules::peeked_card(v, target_seller, k) }];
            assert(w.deals.len() == v.deals.len());
        },
        ActionView::PlayThingamabob { card, params } => {
            let e = crate::rules::effect_result(v, player, params);
            match params {
                ParamsView::RemoveFromDeals { removals } => {
                    lemma_removals_frame(v, removals);
                },
                ParamsView::CryptozooticExpander { target_deal, .. } => {
                    lemma_deal_index(v.deals, target_deal);
                },
                ParamsView::SpectroelectricOptimeter { target_deal, .. } => {
                    lemma_deal_index(v.deals, target_deal);
                },
                _ => {},
            }
            assert(e.deals.len() == v.deals.len());
            assert(w.deals.len() == v.deals.len());
        },
        _ => {},
    }
}

/// An accepted action lets no hand grow past five cards: hands only give
/// cards up during a turn, and the refill stops at five.
pub proof fn lemma_transition_hands(v: GameView, player: PlayerId, a: ActionView, w: GameView, evs: Seq<EventView>)
    requires
        v.wf(),
        action_ok(v, a),
        reject(v, player, a) is None,
        transition(v, player, a, w, evs),
        crate::rules::hands_small(v),
    ensures
        crate::rules::hands_small(w),
{
    crate::places::lemma_active_in_range(v);
    match a {
        ActionView::SubmitDeal { cards } => {
            lemma_remove_all_len(v.hand(player), cards);
            assert forall|q: int| 0 <= q < w.players.len() implies (#[trigger] w.players[q]).hand.len() <= 5 by {
                assert(v.players[q].hand.len() <= 5);
            };
        },
        ActionView::TwoPlayerSubmitDeal { own_pile, other_pile } => {
            lemma_remove_all_len(v.hand(player), crate::rules::both_piles(own_pile, other_pile));
            assert forall|q: int| 0 <= q < w.players.len() implies (#[trigger] w.players[q]).hand.len() <= 5 by {
                assert(v.players[q].hand.len() <= 5);
            };
        },
        ActionView::PlayThingamabob { card, params } => {
            let e = crate::rules::effect_result(v, player, params);
            match params {
                ParamsView::RemoveFromDeals { removals } => {
                    lemma_removals_frame(v, removals);
                },
                ParamsView::CryptozooticExpander { hand_card, .. } => {
                    lemma_remove_first(v.hand(player), hand_card);
                },
                _ => {},
            }
            assert forall|q: int| 0 <= q < w.players.len() implies (#[trigger] w.players[q]).hand.len() <= 5 by {
                assert(v.players[q].hand.len() <= 5);
                assert(e.players[q].hand.len() <= 5);
            };
        },
        ActionView::ChooseDeal { seller } => {
            let to = crate::rules::bought_by(v.turn_leader, seller);
            assert forall|i: int| 0 <= i < v.deals.len() implies (#[trigger] to(v.deals[i])) < v.players.len() by {
                assert(v.deals[i].seller < v.num_players);
            };
            crate::trade::lemma_award_all(v.players, v.deals, to);
        },
        ActionView::RespondToDeal { reverse } => {
            let to = crate::rules::responded_to(reverse);
            assert forall|i: int| 0 <= i < v.deals.len() implies (#[trigger] to(v.deals[i])) < v.players.len() by {
                assert(v.deals[i].seller < v.num_players);
            };
            crate::trade::lemma_award_all(v.players, v.deals, to);
        },
        _ => {},
    }
}

/// An accepted action is played at the same table.
pub proof fn lemma_transition_table(v: GameView, player: PlayerId, a: ActionView, w: GameView, evs: Seq<EventView>)
    requires
        v.wf(),
        reject(v, player, a) is None,
        transition(v, player, a, w, evs),
    ensures
        crate::rules::same_table(v, w),
{
    match a {
        ActionView::BuyerPeek { target_seller } => {
            let i = deal_index(v.deals, target_seller)->0;
            let k = choose|k: int| 0 <= k < hidden_ids(v.deals[i].cards).len()
                && w == crate::rules::peek_result(v, target_seller, k)
                && evs == seq![EventView::BuyerPeeked { target_seller, card: crate::rules::peeked_card(v, target_seller, k) }];
        },
        ActionView::PlayThingamabob { card, params } => {
            match params {
                ParamsView::RemoveFromDeals { removals } => {
                    lemma_removals_frame(v, removals);
                },
                _ => {},
            }
        },
        _ => {},
    }
}

} // verus!
