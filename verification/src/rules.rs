//! The rules as mathematics: who may act, which actions the rules refuse and
//! with what error, and what each accepted action does to the game's
//! abstract value.

use vstd::prelude::*;
use crate::action::{ActionView, ParamsView};
use crate::card::{CardId, CardKind, NastyEffect, PlayerId, ThingamabobEffect, ThingamabobKind};
use crate::deal::{DealCard, DealView, deal_ids, hidden_ids, hidden_pile};
use crate::events::{EventView, GameMode, RulesErrorView};
use crate::game::{GameView, deal_index, kind_in, new_turn_phase, table_order_after};
use crate::phase::{DealOfferEntry, DealOfferStep, PhaseView, TwoPlayerDealStep, phase_view_name};
use crate::player::PlayerView;
use crate::seqs::{all_distinct, remove_first};

verus! {

/// Who resolves a completed nasty set belonging to `loser`: the other
/// player in two-player mode, the (new) buyer otherwise.
pub open spec fn beneficiary(v: GameView, loser: PlayerId) -> PlayerId {
    match v.mode {
        GameMode::TwoPlayer => (1 - loser) as PlayerId,
        GameMode::Buyer => v.turn_leader,
    }
}

/// The single seat allowed to act, if any.
pub open spec fn active_player_spec(v: GameView) -> Option<PlayerId> {
    match v.phase {
        PhaseView::DealOffer { entries, idx, .. } => if idx < entries.len() {
            Some(entries[idx as int].player)
        } else {
            None
        },
        PhaseView::TwoPlayerDealOffer { .. } => Some(v.turn_leader),
        PhaseView::BuyerPeek => Some(v.turn_leader),
        PhaseView::ThingamabobWindow { order, turn_idx, .. } => Some(order[turn_idx as int % order.len() as int]),
        PhaseView::BuyerChoosesDeal => Some(v.turn_leader),
        PhaseView::RespondToDeal => Some((1 - v.turn_leader) as PlayerId),
        PhaseView::NastyResolution { pending } => Some(beneficiary(v, pending.player)),
        PhaseView::GameOver { .. } => None,
    }
}

/// The error for an action the current phase does not expect.
pub open spec fn wrong_phase(v: GameView) -> RulesErrorView {
    RulesErrorView::WrongPhaseAction(phase_view_name(v.phase))
}

/// The first of `cards` that `pool` does not hold, if any.
pub open spec fn first_missing(cards: Seq<CardId>, pool: Seq<CardId>) -> Option<CardId>
    decreases cards.len(),
{
    if cards.len() == 0 {
        None
    } else {
        match first_missing(cards.drop_last(), pool) {
            Some(c) => Some(c),
            None => if pool.contains(cards.last()) { None } else { Some(cards.last()) },
        }
    }
}

/// `s` with the first occurrence of each of `cards` taken out, in order.
pub open spec fn remove_all(s: Seq<CardId>, cards: Seq<CardId>) -> Seq<CardId>
    decreases cards.len(),
{
    if cards.len() == 0 {
        s
    } else {
        remove_first(remove_all(s, cards.drop_last()), cards.last())
    }
}

/// Number of distinct values in `s`.
pub open spec fn distinct_count(s: Seq<PlayerId>) -> nat
    decreases s.len(),
{
    if s.len() == 0 {
        0
    } else {
        distinct_count(s.drop_last()) + if s.drop_last().contains(s.last()) { 0nat } else { 1nat }
    }
}

/// `v` with seat `p`'s holdings replaced.
pub open spec fn with_player(v: GameView, p: PlayerId, x: PlayerView) -> GameView {
    GameView { players: v.players.update(p as int, x), ..v }
}

/// `v` with the deals replaced.
pub open spec fn with_deals(v: GameView, ds: Seq<DealView>) -> GameView {
    GameView { deals: ds, ..v }
}

/// `v` with the seats' holdings replaced.
pub open spec fn with_players(v: GameView, ps: Seq<PlayerView>) -> GameView {
    GameView { players: ps, ..v }
}

/// `v` with the discard pile replaced.
pub open spec fn with_discard(v: GameView, d: Seq<CardId>) -> GameView {
    GameView { discard_pile: d, ..v }
}

/// `v` with the draw pile replaced.
pub open spec fn with_draw(v: GameView, d: Seq<CardId>) -> GameView {
    GameView { draw_pile: d, ..v }
}

/// `v` in phase `ph`.
pub open spec fn with_phase(v: GameView, ph: PhaseView) -> GameView {
    GameView { phase: ph, ..v }
}

/// A deal with one more face-down card.
pub open spec fn add_in(d: DealView, card: CardId) -> DealView {
    DealView { cards: d.cards.push(DealCard { card, revealed: false }), ..d }
}

/// `v` with seat `p`'s hand replaced.
pub open spec fn with_hand(v: GameView, p: PlayerId, h: Seq<CardId>) -> GameView {
    with_player(v, p, PlayerView { hand: h, ..v.players[p as int] })
}

/// `v` with seat `p`'s collection replaced.
pub open spec fn with_collection(v: GameView, p: PlayerId, c: Seq<CardId>) -> GameView {
    with_player(v, p, PlayerView { collection: c, ..v.players[p as int] })
}

/// `v` with seat `p`'s point tokens replaced.
pub open spec fn with_tokens(v: GameView, p: PlayerId, t: u32) -> GameView {
    with_player(v, p, PlayerView { point_tokens: t, ..v.players[p as int] })
}

/// The buyer-mode offer sequence moved on to entry `idx`, or over to the
/// buyer's peek once every seller has offered.
pub open spec fn offer_at(entries: Seq<DealOfferEntry>, idx: int) -> PhaseView {
    if idx >= entries.len() {
        PhaseView::BuyerPeek
    } else {
        PhaseView::DealOffer { entries, idx: idx as usize, step: DealOfferStep::AwaitingSubmit }
    }
}

/// The response-window order: the turn leader, then everyone else in table
/// order.
pub open spec fn window_order(v: GameView) -> Seq<PlayerId> {
    match v.mode {
        GameMode::Buyer => seq![v.turn_leader].add(table_order_after(v.turn_leader, v.num_players)),
        GameMode::TwoPlayer => seq![v.turn_leader, (1 - v.turn_leader) as PlayerId],
    }
}

/// A freshly opened response window.
pub open spec fn window_phase(v: GameView) -> PhaseView {
    PhaseView::ThingamabobWindow { order: window_order(v), turn_idx: 0, consecutive_passes: 0 }
}

/// A deal with the first card `card` turned face up.
pub open spec fn reveal_in(d: DealView, card: CardId) -> DealView {
    DealView {
        cards: d.cards.update(deal_ids(d.cards).index_of_first(card)->0, DealCard { card, revealed: true }),
        ..d
    }
}

/// A deal with the first card `card` taken out.
pub open spec fn remove_in(d: DealView, card: CardId) -> DealView {
    DealView { cards: d.cards.remove(deal_ids(d.cards).index_of_first(card)->0), ..d }
}

/// Index of the first deal holding `card`, if any.
pub open spec fn deal_holding(deals: Seq<DealView>, card: CardId) -> Option<int>
    decreases deals.len(),
{
    if deals.len() == 0 {
        None
    } else {
        match deal_holding(deals.drop_last(), card) {
            Some(i) => Some(i),
            None => if deal_ids(deals.last().cards).contains(card) { Some(deals.len() - 1) } else { None },
        }
    }
}

// ---- deal offers ----

/// Why a buyer-mode submission is refused, if it is.
pub open spec fn submit_reject(v: GameView, player: PlayerId, cards: Seq<CardId>) -> Option<RulesErrorView> {
    match v.phase {
        PhaseView::DealOffer { step, .. } => if step != DealOfferStep::AwaitingSubmit {
            Some(wrong_phase(v))
        } else if !all_distinct(cards) {
            Some(RulesErrorView::DealMustBeThreeDistinctCards)
        } else {
            match first_missing(cards, v.hand(player)) {
                Some(c) => Some(RulesErrorView::CardNotInHand(c)),
                None => None,
            }
        },
        _ => Some(wrong_phase(v)),
    }
}

/// The game after an accepted buyer-mode submission.
pub open spec fn submit_result(v: GameView, player: PlayerId, cards: Seq<CardId>) -> GameView {
    let v1 = with_hand(v, player, remove_all(v.hand(player), cards));
    let deals = v.deals.push(DealView { seller: player, cards: hidden_pile(cards) });
    match v.phase {
        PhaseView::DealOffer { entries, idx, step } => {
            let phase = if entries[idx as int].needs_reveal {
                PhaseView::DealOffer { entries, idx, step: DealOfferStep::AwaitingReveal }
            } else {
                offer_at(entries, idx + 1)
            };
            GameView { deals, phase, ..v1 }
        },
        _ => v,
    }
}

/// Both piles of a two-player offer, in order.
pub open spec fn both_piles(own: Seq<CardId>, other: Seq<CardId>) -> Seq<CardId> {
    own.add(other)
}

/// Why a two-player split is refused, if it is.
pub open spec fn split_reject(v: GameView, player: PlayerId, own: Seq<CardId>, other: Seq<CardId>) -> Option<RulesErrorView> {
    let all = both_piles(own, other);
    match v.phase {
        PhaseView::TwoPlayerDealOffer { step } => if step != TwoPlayerDealStep::AwaitingSplit {
            Some(wrong_phase(v))
        } else if all.len() != 3 || !all_distinct(all) {
            Some(RulesErrorView::DealMustBeThreeDistinctCards)
        } else {
            match first_missing(all, v.hand(player)) {
                Some(c) => Some(RulesErrorView::CardNotInHand(c)),
                None => None,
            }
        },
        _ => Some(wrong_phase(v)),
    }
}

/// The deals a split lays down: one per non-empty pile, the player's own
/// first.
pub open spec fn split_deals(player: PlayerId, own: Seq<CardId>, other: Seq<CardId>) -> Seq<DealView> {
    let a = if own.len() > 0 { seq![DealView { seller: player, cards: hidden_pile(own) }] } else { Seq::empty() };
    let b = if other.len() > 0 {
        seq![DealView { seller: (1 - player) as PlayerId, cards: hidden_pile(other) }]
    } else {
        Seq::empty()
    };
    a.add(b)
}

/// The game after an accepted two-player split.
pub open spec fn split_result(v: GameView, player: PlayerId, own: Seq<CardId>, other: Seq<CardId>) -> GameView {
    let v1 = with_hand(v, player, remove_all(v.hand(player), both_piles(own, other)));
    GameView {
        deals: v.deals.add(split_deals(player, own, other)),
        phase: PhaseView::TwoPlayerDealOffer { step: TwoPlayerDealStep::AwaitingReveal },
        ..v1
    }
}

/// Why a reveal is refused, if it is.
pub open spec fn reveal_reject(v: GameView, player: PlayerId, card: CardId) -> Option<RulesErrorView> {
    match v.phase {
        PhaseView::DealOffer { step, .. } => if step != DealOfferStep::AwaitingReveal {
            Some(wrong_phase(v))
        } else {
            match deal_index(v.deals, player) {
                None => Some(RulesErrorView::NoSuchDeal(player)),
                Some(i) => if deal_ids(v.deals[i].cards).contains(card) {
                    None
                } else {
                    Some(RulesErrorView::RevealCardNotInDeal)
                },
            }
        },
        PhaseView::TwoPlayerDealOffer { step } => if step != TwoPlayerDealStep::AwaitingReveal {
            Some(wrong_phase(v))
        } else if deal_holding(v.deals, card) is None {
            Some(RulesErrorView::RevealCardNotInDeal)
        } else {
            None
        },
        _ => Some(wrong_phase(v)),
    }
}

/// The game after an accepted reveal.
pub open spec fn reveal_result(v: GameView, player: PlayerId, card: CardId) -> GameView {
    match v.phase {
        PhaseView::DealOffer { entries, idx, .. } => {
            let i = deal_index(v.deals, player)->0;
            GameView {
                deals: v.deals.update(i, reveal_in(v.deals[i], card)),
                phase: offer_at(entries, idx + 1),
                ..v
            }
        },
        _ => {
            let i = deal_holding(v.deals, card)->0;
            GameView { deals: v.deals.update(i, reveal_in(v.deals[i], card)), phase: window_phase(v), ..v }
        },
    }
}

/// Why the buyer's peek is refused, if it is.
pub open spec fn peek_reject(v: GameView, target: PlayerId) -> Option<RulesErrorView> {
    match v.phase {
        PhaseView::BuyerPeek => match deal_index(v.deals, target) {
            None => Some(RulesErrorView::NoSuchDeal(target)),
            Some(i) => if hidden_ids(v.deals[i].cards).len() == 0 {
                Some(RulesErrorView::NoSuchDeal(target))
            } else {
                None
            },
        },
        _ => Some(wrong_phase(v)),
    }
}

/// The card a peek at `target` turns up when the random pick is `k`.
pub open spec fn peeked_card(v: GameView, target: PlayerId, k: int) -> CardId {
    hidden_ids(v.deals[deal_index(v.deals, target)->0].cards)[k]
}

/// The game after the buyer's peek turned up the `k`-th hidden card.
pub open spec fn peek_result(v: GameView, target: PlayerId, k: int) -> GameView {
    let i = deal_index(v.deals, target)->0;
    GameView {
        deals: v.deals.update(i, reveal_in(v.deals[i], peeked_card(v, target, k))),
        phase: window_phase(v),
        ..v
    }
}

// ---- response window ----

/// The game after the player up passes.
pub open spec fn pass_result(v: GameView) -> GameView {
    match v.phase {
        PhaseView::ThingamabobWindow { order, turn_idx, consecutive_passes } => {
            let phase = if consecutive_passes + 1 >= order.len() {
                match v.mode {
                    GameMode::Buyer => PhaseView::BuyerChoosesDeal,
                    GameMode::TwoPlayer => PhaseView::RespondToDeal,
                }
            } else {
                PhaseView::ThingamabobWindow {
                    order,
                    turn_idx: (turn_idx + 1) as usize,
                    consecutive_passes: (consecutive_passes + 1) as usize,
                }
            };
            GameView { phase, ..v }
        },
        _ => v,
    }
}

/// Whether passing now closes the window.
pub open spec fn pass_closes(v: GameView) -> bool {
    v.phase matches PhaseView::ThingamabobWindow { order, consecutive_passes, .. }
        && consecutive_passes + 1 >= order.len()
}

/// Sellers named by a removal list.
pub open spec fn removal_sellers(rs: Seq<(PlayerId, CardId)>) -> Seq<PlayerId> {
    rs.map_values(|r: (PlayerId, CardId)| r.0)
}

/// Cards named by a removal list.
pub open spec fn removal_cards(rs: Seq<(PlayerId, CardId)>) -> Seq<CardId> {
    rs.map_values(|r: (PlayerId, CardId)| r.1)
}

/// Why the first unusable removal of a list fails, if one does.
pub open spec fn bad_removal(v: GameView, rs: Seq<(PlayerId, CardId)>) -> Option<RulesErrorView>
    decreases rs.len(),
{
    if rs.len() == 0 {
        None
    } else {
        match bad_removal(v, rs.drop_last()) {
            Some(e) => Some(e),
            None => {
                let (s, c) = rs.last();
                match deal_index(v.deals, s) {
                    None => Some(RulesErrorView::NoSuchDeal(s)),
                    Some(i) => if deal_ids(v.deals[i].cards).contains(c) {
                        None
                    } else {
                        Some(RulesErrorView::CardNotHiddenInDeal(c))
                    },
                }
            },
        }
    }
}

/// The game after the removals of a list, each card going to the discard
/// pile in turn.
pub open spec fn removals_result(v: GameView, rs: Seq<(PlayerId, CardId)>) -> GameView
    decreases rs.len(),
{
    if rs.len() == 0 {
        v
    } else {
        let w = removals_result(v, rs.drop_last());
        let (s, c) = rs.last();
        let i = deal_index(w.deals, s)->0;
        GameView { deals: w.deals.update(i, remove_in(w.deals[i], c)), discard_pile: w.discard_pile.push(c), ..w }
    }
}

/// Why a thingamabob's parameters are refused for its effect, if they are.
pub open spec fn effect_reject(v: GameView, player: PlayerId, effect: ThingamabobEffect, params: ParamsView) -> Option<RulesErrorView> {
    match (effect, params) {
        (ThingamabobEffect::StealPointTokenFromRicherPlayer, ParamsView::PlatonicIsolator { target_player }) => {
            if target_player == player || target_player >= v.num_players {
                Some(RulesErrorView::InvalidThingamabobParams)
            } else if v.tokens(target_player) <= v.tokens(player) {
                Some(RulesErrorView::IsolatorTargetNotRicher)
            } else {
                None
            }
        },
        (ThingamabobEffect::RemoveCardsFromDeals { max_cards, max_deals }, ParamsView::RemoveFromDeals { removals }) => {
            if removals.len() > max_cards as int {
                Some(RulesErrorView::TooManyRemovals)
            } else if distinct_count(removal_sellers(removals)) > max_deals as int {
                Some(RulesErrorView::TooManyRemovals)
            } else if !all_distinct(removal_cards(removals)) {
                Some(RulesErrorView::DuplicateRemovalTarget)
            } else {
                bad_removal(v, removals)
            }
        },
        (ThingamabobEffect::AddHiddenHandCardToDeal, ParamsView::CryptozooticExpander { hand_card, target_deal }) => {
            if !v.hand(player).contains(hand_card) {
                Some(RulesErrorView::CardNotInHand(hand_card))
            } else if deal_index(v.deals, target_deal) is None {
                Some(RulesErrorView::NoSuchDeal(target_deal))
            } else {
                None
            }
        },
        (ThingamabobEffect::RevealCardInDeal, ParamsView::SpectroelectricOptimeter { target_deal, target_card }) => {
            match deal_index(v.deals, target_deal) {
                None => Some(RulesErrorView::NoSuchDeal(target_deal)),
                Some(i) => if hidden_ids(v.deals[i].cards).contains(target_card) {
                    None
                } else {
                    Some(RulesErrorView::CardNotHiddenInDeal(target_card))
                },
            }
        },
        _ => Some(RulesErrorView::InvalidThingamabobParams),
    }
}

/// What an accepted effect does, before the card itself is discarded.
pub open spec fn effect_result(v: GameView, player: PlayerId, params: ParamsView) -> GameView {
    match params {
        ParamsView::PlatonicIsolator { target_player } => {
            let v1 = with_tokens(v, target_player, (v.tokens(target_player) - 1) as u32);
            with_tokens(v1, player, (v.tokens(player) + 1) as u32)
        },
        ParamsView::RemoveFromDeals { removals } => removals_result(v, removals),
        ParamsView::CryptozooticExpander { hand_card, target_deal } => {
            let v1 = with_hand(v, player, remove_first(v.hand(player), hand_card));
            let i = deal_index(v.deals, target_deal)->0;
            GameView {
                deals: v.deals.update(
                    i,
                    DealView { cards: v.deals[i].cards.push(DealCard { card: hand_card, revealed: false }), ..v.deals[i] },
                ),
                ..v1
            }
        },
        ParamsView::SpectroelectricOptimeter { target_deal, target_card } => {
            let i = deal_index(v.deals, target_deal)->0;
            GameView { deals: v.deals.update(i, reveal_in(v.deals[i], target_card)), ..v }
        },
    }
}

/// The events an accepted effect reports, after the play itself.
pub open spec fn effect_events(player: PlayerId, params: ParamsView) -> Seq<EventView> {
    match params {
        ParamsView::PlatonicIsolator { target_player } => seq![EventView::PointTokenStolen {
            from: target_player,
            to: player,
            amount: 1,
        }],
        ParamsView::RemoveFromDeals { removals } => seq![EventView::CardsDiscarded { cards: removal_cards(removals) }],
        ParamsView::CryptozooticExpander { .. } => Seq::empty(),
        ParamsView::SpectroelectricOptimeter { target_deal, target_card } => seq![EventView::CardRevealed {
            seller: target_deal,
            card: target_card,
        }],
    }
}

/// The thingamabob kind of a card (the first kind for any other card).
pub open spec fn played_kind(v: GameView, card: CardId) -> ThingamabobKind {
    match v.kind(card) {
        CardKind::Thingamabob(k) => k,
        _ => ThingamabobKind::PlatonicIsolator,
    }
}

/// A seat named by the parameters is one at the table (the rules index
/// seats by these without checking).
pub open spec fn params_in_range(v: GameView, params: ParamsView) -> bool {
    params matches ParamsView::PlatonicIsolator { target_player } ==> target_player < v.num_players
}

/// Why playing a thingamabob is refused, if it is.
pub open spec fn play_reject(v: GameView, player: PlayerId, card: CardId, params: ParamsView) -> Option<RulesErrorView> {
    if !(v.phase is ThingamabobWindow) {
        Some(wrong_phase(v))
    } else if !v.collection(player).contains(card) {
        Some(RulesErrorView::CardNotInCollection(card))
    } else {
        match v.kind(card) {
            CardKind::Thingamabob(k) => effect_reject(v, player, v.catalog.thingamabob_effect_of(k), params),
            _ => Some(RulesErrorView::NotAThingamabob(card)),
        }
    }
}

/// The game after an accepted thingamabob play: its effect, then the card
/// goes from the collection to the discard pile and the run of passes
/// starts over.
pub open spec fn play_result(v: GameView, player: PlayerId, card: CardId, params: ParamsView) -> GameView {
    let w = effect_result(v, player, params);
    let w1 = with_collection(w, player, remove_first(w.collection(player), card));
    let phase = match w.phase {
        PhaseView::ThingamabobWindow { order, turn_idx, .. } => PhaseView::ThingamabobWindow {
            order,
            turn_idx,
            consecutive_passes: 0,
        },
        _ => w.phase,
    };
    GameView { discard_pile: w.discard_pile.push(card), phase, ..w1 }
}

// ---- end of a turn ----

/// Seat `p`'s holdings after the cards `cards` are added to its collection.
pub open spec fn give(ps: Seq<PlayerView>, p: PlayerId, cards: Seq<CardId>) -> Seq<PlayerView> {
    ps.update(p as int, PlayerView { collection: ps[p as int].collection.add(cards), ..ps[p as int] })
}

/// The holdings after every deal has gone to the seat `to` names for it.
pub open spec fn award_all(ps: Seq<PlayerView>, ds: Seq<DealView>, to: spec_fn(DealView) -> PlayerId) -> Seq<PlayerView>
    decreases ds.len(),
{
    if ds.len() == 0 {
        ps
    } else {
        give(award_all(ps, ds.drop_last(), to), to(ds.last()), deal_ids(ds.last().cards))
    }
}

/// The awards reported when every deal goes to the seat `to` names.
pub open spec fn handout_events(ds: Seq<DealView>, to: spec_fn(DealView) -> PlayerId) -> Seq<EventView> {
    ds.map_values(|d: DealView| EventView::CardsAwarded { player: to(d), cards: deal_ids(d.cards) })
}

/// Buyer mode: who receives a deal once `seller`'s deal was chosen.
pub open spec fn bought_by(buyer: PlayerId, seller: PlayerId) -> spec_fn(DealView) -> PlayerId {
    |d: DealView| if d.seller == seller { buyer } else { d.seller }
}

/// Two-player mode: who receives a pile after the response.
pub open spec fn responded_to(reverse: bool) -> spec_fn(DealView) -> PlayerId {
    |d: DealView| if reverse { (1 - d.seller) as PlayerId } else { d.seller }
}

/// Why choosing a deal is refused, if it is.
pub open spec fn choose_reject(v: GameView, seller: PlayerId) -> Option<RulesErrorView> {
    if !(v.phase is BuyerChoosesDeal) {
        Some(wrong_phase(v))
    } else if deal_index(v.deals, seller) is None {
        Some(RulesErrorView::NoSuchDeal(seller))
    } else {
        None
    }
}

/// The game once every deal was handed out and `leader` leads, before the
/// mandatory trade-in.
pub open spec fn awarded(v: GameView, to: spec_fn(DealView) -> PlayerId, leader: PlayerId) -> GameView {
    GameView { players: award_all(v.players, v.deals, to), deals: Seq::empty(), turn_leader: leader, ..v }
}

/// Why a response is refused, if it is.
pub open spec fn respond_reject(v: GameView) -> Option<RulesErrorView> {
    if !(v.phase is RespondToDeal) {
        Some(wrong_phase(v))
    } else {
        None
    }
}

/// Who receives the deals under the rule in force: the chosen seller's
/// deal goes to the buyer in buyer mode, piles go by the response in
/// two-player mode.
pub open spec fn recipients(chosen: Option<PlayerId>, buyer: PlayerId, reverse: bool) -> spec_fn(DealView) -> PlayerId {
    match chosen {
        Some(seller) => bought_by(buyer, seller),
        None => responded_to(reverse),
    }
}

/// What choosing `seller`'s deal reports before the trade-in.
pub open spec fn chosen_events(v: GameView, seller: PlayerId) -> Seq<EventView> {
    seq![EventView::DealChosen { buyer: v.turn_leader, seller }]
        .add(handout_events(v.deals, bought_by(v.turn_leader, seller)))
        .add(seq![EventView::TurnLeaderPassed { new_leader: seller }])
}

/// What a two-player response reports before the trade-in.
pub open spec fn responded_events(v: GameView, reverse: bool) -> Seq<EventView> {
    seq![EventView::DealResponded { active: v.turn_leader, reverse }]
        .add(handout_events(v.deals, responded_to(reverse)))
        .add(seq![EventView::TurnLeaderPassed { new_leader: (1 - v.turn_leader) as PlayerId }])
}

/// What taking `taken` reports before the trade-in scan resumes.
pub open spec fn stolen_events(v: GameView, player: PlayerId, taken: Seq<CardId>) -> Seq<EventView> {
    if taken.len() > 0 {
        seq![EventView::CardsStolen { from: v.phase->NastyResolution_pending.player, to: player, cards: taken }]
    } else {
        Seq::empty()
    }
}

/// How many cards a nasty effect lets the beneficiary take.
pub open spec fn steal_cap(e: NastyEffect) -> int {
    match e {
        NastyEffect::BuyerMayStealUpToNCards(n) => n as int,
        NastyEffect::BuyerStealsOnePointToken => 0,
    }
}

/// Why resolving a pending nasty set is refused, if it is.
pub open spec fn resolve_reject(v: GameView, taken: Seq<CardId>) -> Option<RulesErrorView> {
    match v.phase {
        PhaseView::NastyResolution { pending } => {
            if taken.len() > steal_cap(v.catalog.nasty_effect_of(pending.kind)) {
                Some(RulesErrorView::TooManyCardsTaken)
            } else if !all_distinct(taken) {
                Some(RulesErrorView::DuplicateCardTaken)
            } else {
                match first_missing(taken, v.collection(pending.player)) {
                    Some(c) => Some(RulesErrorView::CardNotInCollection(c)),
                    None => None,
                }
            }
        },
        _ => Some(wrong_phase(v)),
    }
}

/// The game once the beneficiary took `taken` from the loser's
/// collection into its own, before the trade-in scan resumes.
pub open spec fn stolen(v: GameView, player: PlayerId, taken: Seq<CardId>) -> GameView {
    let loser = v.phase->NastyResolution_pending.player;
    let v1 = with_collection(v, loser, remove_all(v.collection(loser), taken));
    with_collection(v1, player, v1.collection(player).add(taken))
}

/// Number of cards of `kind` in `cards`.
pub open spec fn count_kind(kinds: Seq<CardKind>, cards: Seq<CardId>, kind: CardKind) -> int
    decreases cards.len(),
{
    if cards.len() == 0 {
        0
    } else {
        count_kind(kinds, cards.drop_last(), kind) + if kind_in(kinds, cards.last()) == kind { 1int } else { 0int }
    }
}

/// Seat `w` has won: it holds at least the threshold and strictly more
/// point tokens than every other seat.
pub open spec fn wins(v: GameView, w: PlayerId) -> bool {
    &&& w < v.num_players
    &&& v.tokens(w) >= v.win_threshold
    &&& forall|q: PlayerId| q < v.num_players && q != w ==> #[trigger] v.tokens(q) < v.tokens(w)
}

/// No seat holds a complete nasty set.
pub open spec fn nasty_settled(v: GameView) -> bool {
    forall|p: PlayerId, k: crate::card::NastyKind| p < v.num_players && v.catalog.has_nasty(k) ==>
        #[trigger] count_kind(v.kinds, v.collection(p), CardKind::Nasty(k)) < v.catalog.nasty_size(k)
}

/// No seat holds a complete creature set.
pub open spec fn creatures_settled(v: GameView) -> bool {
    forall|p: PlayerId, t: crate::card::Tier| p < v.num_players && v.catalog.has_tier(t) ==>
        #[trigger] count_kind(v.kinds, v.collection(p), CardKind::Creature(t)) < v.catalog.tier_size(t)
}

/// Every hand is full, unless both piles ran dry.
pub open spec fn hands_full(v: GameView) -> bool {
    forall|p: PlayerId| p < v.num_players ==> #[trigger] v.hand(p).len() >= 5
        || (v.draw_pile.len() == 0 && v.discard_pile.len() == 0)
}

/// Nothing is left to trade in and every hand is full, unless the piles ran
/// dry.
pub open spec fn settled(v: GameView) -> bool {
    &&& nasty_settled(v)
    &&& creatures_settled(v)
    &&& hands_full(v)
}

/// `w` is played at the same table as `v`: the same seats, rule variant,
/// catalog, deck composition and cards, and so the same menu ceiling.
pub open spec fn same_table(v: GameView, w: GameView) -> bool {
    &&& w.num_players == v.num_players
    &&& w.mode == v.mode
    &&& w.catalog == v.catalog
    &&& w.deck_counts == v.deck_counts
    &&& w.max_legal_actions == v.max_legal_actions
    &&& w.kinds == v.kinds
}

/// No hand holds more than the five cards a refill tops it up to.
pub open spec fn hands_small(v: GameView) -> bool {
    forall|p: int| 0 <= p < v.players.len() ==> (#[trigger] v.players[p]).hand.len() <= 5
}

/// `fin` differs from `mid` at most in the seats' holdings (same number of
/// seats), the piles and the phase.
pub open spec fn holdings_only(mid: GameView, fin: GameView) -> bool {
    &&& fin == GameView {
        players: fin.players,
        draw_pile: fin.draw_pile,
        discard_pile: fin.discard_pile,
        phase: fin.phase,
        ..mid
    }
    &&& fin.players.len() == mid.players.len()
}

/// Every seat's point tokens have room for as many more as there are cards.
pub open spec fn tokens_room(v: GameView) -> bool {
    forall|p: PlayerId| p < v.num_players ==> #[trigger] v.tokens(p) + v.card_count() < u32::MAX
}

/// What the mandatory trade-in, refill and win check lead to from `mid`:
/// only the seats' holdings, the piles and the phase change; the game
/// either waits for a nasty penalty to be resolved, or everything is
/// settled and it is over with a winner, or a new turn starts with nobody
/// having won.
pub open spec fn traded_in(mid: GameView, fin: GameView) -> bool {
    &&& holdings_only(mid, fin)
    &&& fin.card_count() == mid.card_count()
    &&& crate::places::game_ids(fin) == crate::places::game_ids(mid)
    &&& hands_small(mid) ==> hands_small(fin)
    &&& match fin.phase {
        PhaseView::NastyResolution { pending } => fin.catalog.nasty_effect_of(pending.kind) is BuyerMayStealUpToNCards,
        PhaseView::GameOver { winner } => settled(fin) && wins(fin, winner),
        _ => settled(fin) && fin.phase == new_turn_phase(fin.mode, fin.turn_leader, fin.num_players)
            && forall|w: PlayerId| !wins(fin, w),
    }
}

/// Why an action is refused, if it is: the game is over, someone else is
/// up, or the action's own checks fail.
pub open spec fn reject(v: GameView, player: PlayerId, a: ActionView) -> Option<RulesErrorView> {
    if v.phase is GameOver {
        Some(RulesErrorView::GameAlreadyOver)
    } else if active_player_spec(v) != Some(player) {
        Some(RulesErrorView::NotActivePlayer(player))
    } else {
        match a {
            ActionView::SubmitDeal { cards } => submit_reject(v, player, cards),
            ActionView::TwoPlayerSubmitDeal { own_pile, other_pile } => split_reject(v, player, own_pile, other_pile),
            ActionView::RevealCard { card } => reveal_reject(v, player, card),
            ActionView::BuyerPeek { target_seller } => peek_reject(v, target_seller),
            ActionView::PlayThingamabob { card, params } => play_reject(v, player, card, params),
            ActionView::PassThingamabobWindow => if v.phase is ThingamabobWindow { None } else { Some(wrong_phase(v)) },
            ActionView::ChooseDeal { seller } => choose_reject(v, seller),
            ActionView::RespondToDeal { .. } => respond_reject(v),
            ActionView::ResolveNastyPenalty { taken_cards } => resolve_reject(v, taken_cards),
        }
    }
}


/// What an accepted action does, memory aside: `w` is the game after it
/// (with the statistics and turn counter as before) and `evs` what it
/// reports (for the end of a turn, what it reports first).
pub open spec fn transition(v: GameView, player: PlayerId, a: ActionView, w: GameView, evs: Seq<EventView>) -> bool {
    match a {
        ActionView::SubmitDeal { cards } => w == submit_result(v, player, cards)
            && evs == seq![EventView::DealSubmitted { player }],
        ActionView::TwoPlayerSubmitDeal { own_pile, other_pile } => w == split_result(v, player, own_pile, other_pile)
            && evs == seq![EventView::DealSubmitted { player }],
        ActionView::RevealCard { card } => w == reveal_result(v, player, card)
            && evs == seq![EventView::CardRevealed { seller: player, card }],
        ActionView::BuyerPeek { target_seller } => exists|k: int|
            0 <= k < hidden_ids(v.deals[deal_index(v.deals, target_seller)->0].cards).len()
            && w == peek_result(v, target_seller, k)
            && evs == seq![EventView::BuyerPeeked { target_seller, card: peeked_card(v, target_seller, k) }],
        ActionView::PlayThingamabob { card, params } => w == play_result(v, player, card, params)
            && evs == seq![EventView::ThingamabobPlayed { player, card, kind: played_kind(v, card) }].add(effect_events(player, params)),
        ActionView::PassThingamabobWindow => w == pass_result(v)
            && evs == (if pass_closes(v) { seq![EventView::ThingamabobWindowClosed] } else { Seq::empty() }),
        ActionView::ChooseDeal { seller } => traded_in(awarded(v, bought_by(v.turn_leader, seller), seller), w)
            && evs.take(chosen_events(v, seller).len() as int) == chosen_events(v, seller)
            && crate::turn_end::turn_end_exact(awarded(v, bought_by(v.turn_leader, seller), seller), w,
                evs.skip(chosen_events(v, seller).len() as int)),
        ActionView::RespondToDeal { reverse } => traded_in(awarded(v, responded_to(reverse), (1 - v.turn_leader) as PlayerId), w)
            && evs.take(responded_events(v, reverse).len() as int) == responded_events(v, reverse)
            && crate::turn_end::turn_end_exact(awarded(v, responded_to(reverse), (1 - v.turn_leader) as PlayerId), w,
                evs.skip(responded_events(v, reverse).len() as int)),
        ActionView::ResolveNastyPenalty { taken_cards } => traded_in(stolen(v, player, taken_cards), w)
            && evs.take(stolen_events(v, player, taken_cards).len() as int) == stolen_events(v, player, taken_cards)
            && crate::turn_end::turn_end_exact(stolen(v, player, taken_cards), w,
                evs.skip(stolen_events(v, player, taken_cards).len() as int)),
    }
}

/// What the phase offers is what a turn's deals allow: while deals are
/// being offered each lies at its three cards and the buyer is not among
/// the sellers to come; a two-player offer awaiting its reveal lays three
/// cards down in one or two piles, its first pile holding some; the
/// buyer's peek, the buyer-mode response window and the buyer's choice each
/// have at least one deal and fewer deals than seats; and a two-player
/// response window has at most the two piles.
pub open spec fn offers_ok(v: GameView) -> bool {
    let few_deals = 0 < v.deals.len() < v.num_players;
    match v.phase {
        PhaseView::DealOffer { entries, .. } => entries.len() < v.num_players
            && forall|k: int| 0 <= k < v.deals.len() ==> (#[trigger] v.deals[k]).cards.len() == 3,
        PhaseView::TwoPlayerDealOffer { step } => step == TwoPlayerDealStep::AwaitingReveal
            ==> 0 < v.deals.len() <= 2 && v.deals[0].cards.len() > 0 && crate::game::deals_cards(v.deals) == 3,
        PhaseView::BuyerPeek => few_deals,
        PhaseView::ThingamabobWindow { .. } => if v.mode == GameMode::Buyer { few_deals } else { v.deals.len() <= 2 },
        PhaseView::BuyerChoosesDeal => few_deals,
        _ => true,
    }
}

/// No event of `evs` reports a nasty set traded in.
pub open spec fn no_nasty_trade_ins(evs: Seq<EventView>) -> bool {
    forall|i: int| 0 <= i < evs.len() ==> !((#[trigger] evs[i]) is NastySetTradedIn)
}

/// No event of `evs` reports a creature set traded in.
pub open spec fn no_creature_trade_ins(evs: Seq<EventView>) -> bool {
    forall|i: int| 0 <= i < evs.len() ==> !((#[trigger] evs[i]) is CreatureSetTradedIn)
}

/// Every nasty trade-in of `evs` is reported before every creature
/// trade-in.
pub open spec fn nasties_first(evs: Seq<EventView>) -> bool {
    forall|i: int, j: int| 0 <= i < j < evs.len() ==>
        !((#[trigger] evs[i]) is CreatureSetTradedIn && (#[trigger] evs[j]) is NastySetTradedIn)
}

/// The statistics after folding in `evs`, each event skipped that would
/// push a counter past its range.
pub open spec fn remember_stats(stats: Seq<crate::stats::PlayerStats>, evs: Seq<EventView>) -> Seq<crate::stats::PlayerStats>
    decreases evs.len(),
{
    if evs.len() == 0 {
        stats
    } else {
        let s = remember_stats(stats, evs.drop_last());
        if crate::stats::record_fits(s, evs.last()) { crate::stats::record_spec(s, evs.last()) } else { s }
    }
}

/// The turn counter after `evs`: one more per change of turn leader, up
/// to the counter's range.
pub open spec fn remember_turns(t: u32, evs: Seq<EventView>) -> u32
    decreases evs.len(),
{
    if evs.len() == 0 {
        t
    } else {
        let u = remember_turns(t, evs.drop_last());
        if evs.last() is TurnLeaderPassed && u < u32::MAX { (u + 1) as u32 } else { u }
    }
}

/// `v` with its memory replaced.
pub open spec fn with_memory(v: GameView, stats: Seq<crate::stats::PlayerStats>, turn_index: u32) -> GameView {
    GameView { stats, turn_index, ..v }
}

/// The machine limits the rules take on trust: the response window's turn
/// counter has room, and every seat's point tokens have room for what a
/// turn can bring.
pub open spec fn action_ok(v: GameView, a: ActionView) -> bool {
    &&& v.phase matches PhaseView::ThingamabobWindow { turn_idx, .. } ==> turn_idx < usize::MAX
    &&& tokens_room(v)
}
} // verus!
