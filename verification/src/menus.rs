//! How long each phase's menu of legal actions can get, held against
//! `max_legal_actions`, and the invariants of the table those bounds rest
//! on.

use vstd::prelude::*;
use crate::card::{CardId, CardKind, PlayerId};
use crate::combinatorics::{binomial_spec, combinations_spec};
use crate::deal::{DealView, deal_ids};
use crate::events::GameMode;
use crate::game::{GameView, deal_index, deals_cards};
use crate::legal::{
    all_deal_ids, class_distinct_spec, class_distinct_combinations_spec, dedup_by_class, dedup_splits,
    split_candidates, legal_options,
};
use crate::phase::{DealOfferStep, PhaseView, TwoPlayerDealStep};
use crate::rules::{active_player_spec, hands_small, offers_ok};
use crate::places::{ids_unique, lemma_unique_holdings};
use crate::bounds::{max_legal_actions_spec, deal_offer_spec, max_deals_spec, deal_cards_spec, removal_options, window_term, window_spec};
use crate::legal::{richer_seats, expander_plays, optimeter_plays, removal_targets, keep_runs, removal_combinations_spec, card_plays, plays_of, window_options, has_class, class_in};
use crate::combinatorics::binomial_steps;
use crate::legal::{class_key, resolve_options, lemma_combination_lengths, lemma_dedup_subset};
use crate::bounds::{nasty_menu_spec, max_steal_spec};
use crate::action::{ActionView, ParamsView};
use crate::card::{ThingamabobEffect, ThingamabobKind, class_index_spec};
use crate::deck::Catalog;
use crate::game::count_class;
use crate::seqs::all_distinct;
use crate::events::EventView;
use crate::rules::{reject, transition};

verus! {

/// Whether card `c` is a thingamabob whose effect adds a hand card to a
/// deal.
pub open spec fn expands(v: GameView, c: CardId) -> bool {
    v.kind(c) matches CardKind::Thingamabob(k) && v.catalog.thingamabob_effect_of(k) is AddHiddenHandCardToDeal
}

/// How many cards of `s` add hand cards to deals.
pub open spec fn expansions(v: GameView, s: Seq<CardId>) -> int
    decreases s.len(),
{
    if s.len() == 0 {
        0
    } else {
        expansions(v, s.drop_last()) + if expands(v, s.last()) { 1int } else { 0int }
    }
}

/// The deals hold at most their three cards each plus one per card in the
/// discard pile that added a hand card to a deal.
pub open spec fn table_ok(v: GameView) -> bool {
    deals_cards(v.deals) <= 3 * v.deals.len() + expansions(v, v.discard_pile)
}

/// Adding cards to a pile adds to its count of deal-expanding cards.
proof fn lemma_expansions_add(v: GameView, s: Seq<CardId>, t: Seq<CardId>)
    ensures
        expansions(v, s + t) >= expansions(v, s),
        expansions(v, s) >= 0,
    decreases t.len(),
{
    if t.len() > 0 {
        lemma_expansions_add(v, s, t.drop_last());
        assert((s + t).drop_last() =~= s + t.drop_last());
    } else {
        assert(s + t =~= s);
        if s.len() > 0 {
            lemma_expansions_nonneg(v, s);
        }
    }
}

/// A count of cards is never negative.
pub proof fn lemma_expansions_nonneg(v: GameView, s: Seq<CardId>)
    ensures
        expansions(v, s) >= 0,
    decreases s.len(),
{
    if s.len() > 0 {
        lemma_expansions_nonneg(v, s.drop_last());
    }
}

/// The count reads only the cards' kinds and the catalog.
proof fn lemma_expansions_same(v: GameView, w: GameView, s: Seq<CardId>)
    requires
        w.kinds == v.kinds,
        w.catalog == v.catalog,
    ensures
        expansions(w, s) == expansions(v, s),
    decreases s.len(),
{
    if s.len() > 0 {
        lemma_expansions_same(v, w, s.drop_last());
    }
}

/// Statistics and the turn counter play no part in the table's bound.
pub proof fn lemma_table_ok_memory(v: GameView, w: GameView)
    requires
        crate::places::same_places(v, w),
        w.kinds == v.kinds,
        w.catalog == v.catalog,
        table_ok(v),
    ensures
        table_ok(w),
{
    lemma_expansions_same(v, w, w.discard_pile);
}

/// The cards of the deals after one deal changes.
pub proof fn lemma_deals_cards_update(ds: Seq<DealView>, i: int, d: DealView)
    requires
        0 <= i < ds.len(),
    ensures
        deals_cards(ds.update(i, d)) == deals_cards(ds) - ds[i].cards.len() + d.cards.len(),
    decreases ds.len(),
{
    if i < ds.len() - 1 {
        assert(ds.update(i, d).drop_last() =~= ds.drop_last().update(i, d));
        lemma_deals_cards_update(ds.drop_last(), i, d);
    } else {
        assert(ds.update(i, d).drop_last() =~= ds.drop_last());
    }
}

/// The cards of the deals after one more deal.
proof fn lemma_deals_cards_push(ds: Seq<DealView>, d: DealView)
    ensures
        deals_cards(ds.push(d)) == deals_cards(ds) + d.cards.len(),
{
    assert(ds.push(d).drop_last() =~= ds);
}

/// An accepted action keeps the deals within three cards each plus the
/// expansions in the discard pile.
pub proof fn lemma_transition_table_ok(v: GameView, player: PlayerId, a: ActionView, w: GameView, evs: Seq<EventView>)
    requires
        v.wf(),
        reject(v, player, a) is None,
        transition(v, player, a, w, evs),
        table_ok(v),
        a matches ActionView::SubmitDeal { cards } ==> cards.len() == 3,
    ensures
        table_ok(w),
{
    lemma_expansions_nonneg(v, v.discard_pile);
    crate::turn::lemma_transition_table(v, player, a, w, evs);
    lemma_expansions_same(v, w, w.discard_pile);
    lemma_expansions_nonneg(w, w.discard_pile);
    match a {
        ActionView::SubmitDeal { cards } => {
            lemma_deals_cards_push(v.deals, DealView { seller: player, cards: crate::deal::hidden_pile(cards) });
        },
        ActionView::TwoPlayerSubmitDeal { own_pile, other_pile } => {
            crate::game::lemma_deals_cards_split(player, own_pile, other_pile);
            assert(v.deals.len() == 0);
            assert(w.deals =~= crate::rules::split_deals(player, own_pile, other_pile));
            assert(crate::rules::both_piles(own_pile, other_pile).len() == 3);
        },
        ActionView::RevealCard { card } => {
            let i = match v.phase {
                PhaseView::DealOffer { .. } => deal_index(v.deals, player)->0,
                _ => crate::rules::deal_holding(v.deals, card)->0,
            };
            match v.phase {
                PhaseView::DealOffer { .. } => {
                    crate::turn::lemma_deal_index(v.deals, player);
                },
                _ => {
                    crate::turn::lemma_deal_holding(v.deals, card);
                },
            }
            deal_ids(v.deals[i].cards).index_of_first_ensures(card);
            lemma_deals_cards_update(v.deals, i, crate::rules::reveal_in(v.deals[i], card));
        },
        ActionView::BuyerPeek { target_seller } => {
            let i = deal_index(v.deals, target_seller)->0;
            crate::turn::lemma_deal_index(v.deals, target_seller);
            let k = choose|k: int| 0 <= k < crate::deal::hidden_ids(v.deals[i].cards).len()
                && w == crate::rules::peek_result(v, target_seller, k)
                && evs == seq![EventView::BuyerPeeked { target_seller, card: crate::rules::peeked_card(v, target_seller, k) }];
            let c = crate::rules::peeked_card(v, target_seller, k);
            crate::deal::lemma_hidden_ids_member(v.deals[i].cards, c);
            let m = choose|m: int| 0 <= m < v.deals[i].cards.len() && v.deals[i].cards[m].card == c
                && !v.deals[i].cards[m].revealed;
            assert(deal_ids(v.deals[i].cards)[m] == c);
            deal_ids(v.deals[i].cards).index_of_first_ensures(c);
            lemma_deals_cards_update(v.deals, i, crate::rules::reveal_in(v.deals[i], c));
        },
        ActionView::PlayThingamabob { card, params } => {
            let e = crate::rules::effect_result(v, player, params);
            match params {
                ParamsView::RemoveFromDeals { removals } => {
                    crate::turn::lemma_removals_frame(v, removals);
                    lemma_expansions_add(v, v.discard_pile, crate::rules::removal_cards(removals));
                    assert(e.discard_pile == v.discard_pile + crate::rules::removal_cards(removals));
                    assert(deals_cards(e.deals) <= 3 * v.deals.len() + expansions(v, e.discard_pile));
                },
                ParamsView::CryptozooticExpander { hand_card, target_deal } => {
                    crate::turn::lemma_deal_index(v.deals, target_deal);
                    let i = deal_index(v.deals, target_deal)->0;
                    lemma_deals_cards_update(v.deals, i, DealView {
                        cards: v.deals[i].cards.push(crate::deal::DealCard { card: hand_card, revealed: false }),
                        ..v.deals[i]
                    });
                    assert(expands(v, card));
                    assert(e.discard_pile == v.discard_pile);
                    assert(deals_cards(e.deals) == deals_cards(v.deals) + 1);
                },
                ParamsView::SpectroelectricOptimeter { target_deal, target_card } => {
                    crate::turn::lemma_deal_index(v.deals, target_deal);
                    let i = deal_index(v.deals, target_deal)->0;
                    crate::deal::lemma_hidden_ids_member(v.deals[i].cards, target_card);
                    let m = choose|m: int| 0 <= m < v.deals[i].cards.len() && v.deals[i].cards[m].card == target_card
                        && !v.deals[i].cards[m].revealed;
                    assert(deal_ids(v.deals[i].cards)[m] == target_card);
                    deal_ids(v.deals[i].cards).index_of_first_ensures(target_card);
                    lemma_deals_cards_update(v.deals, i, crate::rules::reveal_in(v.deals[i], target_card));
                },
                _ => {},
            }
            assert(deals_cards(e.deals) <= 3 * v.deals.len() + expansions(v, e.discard_pile)
                + if expands(v, card) { 1int } else { 0int });
            assert(w.discard_pile == e.discard_pile.push(card));
            assert(w.discard_pile.drop_last() =~= e.discard_pile);
            lemma_expansions_nonneg(v, e.discard_pile);
        },
        _ => {},
    }
}

/// Only the Cryptozootic Expander adds hand cards to deals: the effect is
/// bound to no other thingamabob kind.
pub open spec fn only_expander_expands(c: Catalog) -> bool {
    forall|k: ThingamabobKind| #[trigger] c.thingamabob_effect_of(k) is AddHiddenHandCardToDeal
        ==> k == ThingamabobKind::CryptozooticExpander
}

/// The ids below `n` whose card is of class `c`.
pub open spec fn class_set(kinds: Seq<CardKind>, c: int, n: int) -> Set<CardId> {
    Set::new(|i: CardId| i < n && class_index_spec(kinds[i as int]) == c)
}

/// The ids of a class form a finite set, as large as the class's count.
proof fn lemma_class_set(kinds: Seq<CardKind>, c: int, n: int)
    requires
        0 <= n <= kinds.len(),
        kinds.len() <= u32::MAX,
    ensures
        class_set(kinds, c, n).finite(),
        class_set(kinds, c, n).len() == count_class(kinds.take(n), c),
    decreases n,
{
    if n == 0 {
        assert(class_set(kinds, c, 0) =~= Set::<CardId>::empty());
        assert(kinds.take(0) =~= Seq::<CardKind>::empty());
    } else {
        lemma_class_set(kinds, c, n - 1);
        let prev = class_set(kinds, c, n - 1);
        let x = (n - 1) as CardId;
        assert(kinds.take(n).drop_last() =~= kinds.take(n - 1));
        assert(kinds.take(n).last() == kinds[n - 1]);
        if class_index_spec(kinds[n - 1]) == c {
            assert(class_set(kinds, c, n) =~= prev.insert(x));
            assert(!prev.contains(x));
        } else {
            assert(class_set(kinds, c, n) =~= prev);
        }
    }
}

/// The deal-expanding cards of a list, in order.
pub open spec fn expanding_cards(v: GameView, s: Seq<CardId>) -> Seq<CardId>
    decreases s.len(),
{
    if s.len() == 0 {
        Seq::empty()
    } else if expands(v, s.last()) {
        expanding_cards(v, s.drop_last()).push(s.last())
    } else {
        expanding_cards(v, s.drop_last())
    }
}

/// The deal-expanding cards of a list are as many as it counts, come from
/// it, and name no card twice when it names none twice.
proof fn lemma_expanding_cards(v: GameView, s: Seq<CardId>)
    ensures
        expansions(v, s) == expanding_cards(v, s).len(),
        all_distinct(s) ==> expanding_cards(v, s).no_duplicates(),
        forall|x: CardId| #[trigger] expanding_cards(v, s).contains(x) ==> s.contains(x) && expands(v, x),
    decreases s.len(),
{
    if s.len() > 0 {
        let pre = s.drop_last();
        let fp = expanding_cards(v, pre);
        lemma_expanding_cards(v, pre);
        assert forall|x: CardId| #[trigger] expanding_cards(v, s).contains(x) implies s.contains(x) && expands(v, x) by {
            if fp.contains(x) {
                let j = choose|j: int| 0 <= j < pre.len() && pre[j] == x;
                assert(s[j] == x);
            } else {
                assert(x == s.last());
                assert(s[s.len() - 1] == x);
            }
        };
        if all_distinct(s) && expands(v, s.last()) {
            assert(all_distinct(pre));
            if fp.contains(s.last()) {
                let j = choose|j: int| 0 <= j < pre.len() && pre[j] == s.last();
                assert(s[j] == s[s.len() - 1]);
            }
            let g = fp.push(s.last());
            assert forall|i: int, j: int| 0 <= i < g.len() && 0 <= j < g.len() && i != j implies g[i] != g[j] by {
                if i < g.len() - 1 && j < g.len() - 1 {
                    assert(g[i] == fp[i] && g[j] == fp[j]);
                } else if i == g.len() - 1 {
                    assert(fp.contains(g[j]));
                } else {
                    assert(fp.contains(g[i]));
                }
            };
        }
    }
}

/// A pile naming no card twice holds at most as many deal-expanding cards
/// as the game has Cryptozootic Expanders, where only those expand deals.
pub proof fn lemma_expansions_bound(v: GameView, s: Seq<CardId>)
    requires
        all_distinct(s),
        only_expander_expands(v.catalog),
        v.kinds.len() <= u32::MAX,
    ensures
        expansions(v, s) <= count_class(v.kinds, 10),
{
    let f = expanding_cards(v, s);
    lemma_expanding_cards(v, s);
    let n = v.kinds.len() as int;
    lemma_class_set(v.kinds, 10, n);
    assert(v.kinds.take(n) =~= v.kinds);
    let b = class_set(v.kinds, 10, n);
    assert forall|x: CardId| f.to_set().contains(x) implies b.contains(x) by {
        assert(f.contains(x));
        assert(expands(v, x));
        if x >= n {
            assert(v.kind(x) == crate::game::placeholder_kind());
        }
        let k = v.kind(x)->Thingamabob_0;
        assert(v.catalog.thingamabob_effect_of(k) is AddHiddenHandCardToDeal);
    };
    f.unique_seq_to_set();
    vstd::set_lib::lemma_len_subset(f.to_set(), b);
}

/// `n choose k` by Pascal's rule.
pub open spec fn pascal(n: nat, k: nat) -> nat
    decreases n, k,
{
    if k == 0 {
        1
    } else if n < k {
        0
    } else {
        pascal((n - 1) as nat, (k - 1) as nat) + pascal((n - 1) as nat, k)
    }
}

/// There are `n choose k` combinations of `k` items of `n`.
proof fn lemma_combinations_count<T>(s: Seq<T>, k: nat)
    ensures
        combinations_spec(s, k).len() == pascal(s.len(), k),
    decreases s.len(), k,
{
    if k > 0 && s.len() >= k {
        lemma_combinations_count(s.drop_first(), (k - 1) as nat);
        lemma_combinations_count(s.drop_first(), k);
    }
}

/// A hand of at most five cards has at most ten three-card picks.
proof fn lemma_three_of_five<T>(s: Seq<T>)
    requires
        s.len() <= 5,
    ensures
        combinations_spec(s, 3).len() <= 10,
{
    lemma_combinations_count(s, 3);
    assert(pascal(0, 0) == 1);
    assert(pascal(1, 0) == 1);
    assert(pascal(2, 0) == 1);
    assert(pascal(3, 0) == 1);
    assert(pascal(4, 0) == 1);
    assert(pascal(0, 1) == 0);
    assert(pascal(1, 1) == 1);
    assert(pascal(2, 1) == 2);
    assert(pascal(3, 1) == 3);
    assert(pascal(4, 1) == 4);
    assert(pascal(0, 2) == 0);
    assert(pascal(1, 2) == 0);
    assert(pascal(2, 2) == 1);
    assert(pascal(3, 2) == 3);
    assert(pascal(4, 2) == 6);
    assert(pascal(0, 3) == 0);
    assert(pascal(1, 3) == 0);
    assert(pascal(2, 3) == 0);
    assert(pascal(3, 3) == 1);
    assert(pascal(4, 3) == 4);
    assert(pascal(5, 3) == 10);
}

/// Deduplicating keeps at most as many picks as there were.
proof fn lemma_dedup_len(kinds: Seq<CardKind>, cs: Seq<Seq<CardId>>)
    ensures
        dedup_by_class(kinds, cs).len() <= cs.len(),
    decreases cs.len(),
{
    if cs.len() > 0 {
        lemma_dedup_len(kinds, cs.drop_last());
    }
}

/// Keeping one card per class keeps at most as many cards as there were.
proof fn lemma_class_distinct_len(kinds: Seq<CardKind>, s: Seq<CardId>)
    ensures
        class_distinct_spec(kinds, s).len() <= s.len(),
    decreases s.len(),
{
    if s.len() > 0 {
        lemma_class_distinct_len(kinds, s.drop_last());
    }
}

/// Deduplicating split candidates keeps at most as many as there were.
proof fn lemma_dedup_splits_len(kinds: Seq<CardKind>, ps: Seq<(Seq<CardId>, int)>)
    ensures
        dedup_splits(kinds, ps).len() <= ps.len(),
    decreases ps.len(),
{
    if ps.len() > 0 {
        lemma_dedup_splits_len(kinds, ps.drop_last());
    }
}

/// Every pick is split eight ways.
proof fn lemma_split_candidates_len(cs: Seq<Seq<CardId>>)
    ensures
        split_candidates(cs).len() == 8 * cs.len(),
    decreases cs.len(),
{
    if cs.len() > 0 {
        lemma_split_candidates_len(cs.drop_last());
    }
}

/// The table's ids are as many as the cards lying in the deals.
proof fn lemma_all_deal_ids_len(ds: Seq<DealView>)
    ensures
        all_deal_ids(ds).len() == deals_cards(ds),
    decreases ds.len(),
{
    if ds.len() > 0 {
        lemma_all_deal_ids_len(ds.drop_last());
    }
}

/// The ceiling covers a deal-offer menu of a five-card hand, a menu of one
/// action per deal, and the reveal and response menus.
proof fn lemma_ceiling_covers(v: GameView)
    requires
        v.wf(),
    ensures
        max_legal_actions_spec(v.catalog, v.deck_counts, v.mode, v.num_players) >= deal_offer_spec(v.mode),
        max_legal_actions_spec(v.catalog, v.deck_counts, v.mode, v.num_players) >= max_deals_spec(v.mode, v.num_players),
        max_legal_actions_spec(v.catalog, v.deck_counts, v.mode, v.num_players) >= 3,
        deal_offer_spec(v.mode) == (if v.mode == GameMode::Buyer { 10int } else { 80int }),
{
    reveal_with_fuel(crate::combinatorics::binomial_steps, 3);
    assert(crate::combinatorics::binomial_steps(5, 0) == 1);
    assert(1 * (5 - 0) == 5);
    assert(crate::combinatorics::binomial_steps(5, 1) == 5);
    assert(5 * (5 - (2 - 1)) == 20);
    assert(20int / 2 == 10);
    assert(crate::combinatorics::binomial_steps(5, 2) == 10);
    assert(binomial_spec(5, 3) == 10);
}

/// The deck's composition is the tally of the cards' classes.
pub open spec fn deck_matches(v: GameView) -> bool {
    forall|c: int| 0 <= c < 12 ==> #[trigger] v.deck_counts[c] == count_class(v.kinds, c)
}

/// The seats richer than `player` among the first `t` exclude `player`.
proof fn lemma_richer_len(v: GameView, player: PlayerId, t: int)
    requires
        0 <= t,
    ensures
        richer_seats(v, player, t).len() <= t - (if player < t { 1int } else { 0int }),
    decreases t,
{
    if t > 0 {
        lemma_richer_len(v, player, t - 1);
    }
}

/// Each hand card is offered into each deal.
proof fn lemma_expander_len(card: CardId, reps: Seq<CardId>, deals: Seq<DealView>)
    ensures
        expander_plays(card, reps, deals).len() == reps.len() * deals.len(),
    decreases reps.len(),
{
    if reps.len() > 0 {
        lemma_expander_len(card, reps.drop_last(), deals);
        let r = reps.len() as int;
        let d = deals.len() as int;
        assert((r - 1) * d + d == r * d) by (nonlinear_arith);
    }
}

/// Each hidden card of each deal is offered once.
proof fn lemma_optimeter_len(card: CardId, deals: Seq<DealView>)
    ensures
        optimeter_plays(card, deals).len() <= deals_cards(deals),
    decreases deals.len(),
{
    if deals.len() > 0 {
        lemma_optimeter_len(card, deals.drop_last());
        crate::deal::lemma_hidden_revealed_len(deals.last().cards);
    }
}

/// Every card on the table is a removal target.
proof fn lemma_targets_len(ds: Seq<DealView>)
    ensures
        removal_targets(ds).len() == deals_cards(ds),
    decreases ds.len(),
{
    if ds.len() > 0 {
        lemma_targets_len(ds.drop_last());
    }
}

/// Keeping some removal lists keeps at most all of them.
proof fn lemma_keep_runs_len(cs: Seq<Seq<(PlayerId, CardId)>>, md: int)
    ensures
        keep_runs(cs, md).len() <= cs.len(),
    decreases cs.len(),
{
    if cs.len() > 0 {
        lemma_keep_runs_len(cs.drop_last(), md);
    }
}

/// `sum_{k <= m} (n choose k)`.
pub open spec fn pascal_sum(n: nat, m: int) -> int
    decreases m + 1,
{
    if m < 0 {
        0
    } else {
        pascal_sum(n, m - 1) + pascal(n, m as nat)
    }
}

/// Removal lists of at most `m` targets are at most the subsets of at most
/// `m` of the table's cards.
proof fn lemma_removal_len(ds: Seq<DealView>, m: int, md: int)
    ensures
        removal_combinations_spec(ds, m, md).len() <= pascal_sum(deals_cards(ds) as nat, m),
    decreases m + 1,
{
    if m >= 0 {
        lemma_removal_len(ds, m - 1, md);
        lemma_targets_len(ds);
        let cs = combinations_spec(removal_targets(ds), m as nat);
        lemma_combinations_count(removal_targets(ds), m as nat);
        lemma_keep_runs_len(cs, md);
    }
}

/// One and two out of `n`.
proof fn lemma_pascal_small(n: nat)
    ensures
        pascal(n, 1) == n,
        2 * pascal(n, 2) == n * (n - 1),
    decreases n,
{
    if n > 0 {
        let m = (n - 1) as nat;
        lemma_pascal_small(m);
        assert(pascal(m, 0) == 1);
        assert(pascal(n, 1) == pascal(m, 0) + pascal(m, 1));
        if n >= 2 {
            assert(pascal(n, 2) == pascal(m, 1) + pascal(m, 2));
        } else {
            assert(pascal(n, 2) == 0);
        }
        assert(2 * m + m * (m - 1) == n * (n - 1)) by (nonlinear_arith)
            requires
                m == n - 1;
    }
}

/// The saturating binomial of the bounds is the true one for one and two
/// out of a deal pool.
proof fn lemma_binomial_small(d: usize)
    requires
        d <= 40000,
    ensures
        binomial_spec(d, 0) == 1,
        binomial_spec(d, 1) == d,
        binomial_spec(d, 2) == (d * (d - 1)) / 2,
{
    reveal_with_fuel(binomial_steps, 3);
    assert(binomial_steps(d, 0) == 1);
    assert(1 * (d - 0) == d);
    assert(binomial_steps(d, 1) == d);
    if d >= 4 {
        assert(d * (d - 1) <= 40000 * 40000) by (nonlinear_arith)
            requires
                d <= 40000,
                d >= 2;
        assert(binomial_steps(d, 2) == (d * (d - 1)) / 2);
        assert(binomial_spec(d, 2) == binomial_steps(d, 2));
    } else if d == 3 {
        assert(binomial_spec(d, 2) == binomial_steps(d, 1));
        assert(d * (d - 1) == 6) by (nonlinear_arith)
            requires
                d == 3;
    } else if d == 2 {
        assert(binomial_spec(d, 2) == binomial_steps(d, 0));
        assert(d * (d - 1) == 2) by (nonlinear_arith)
            requires
                d == 2;
    } else {
        assert(binomial_spec(d, 2) == 0);
        assert(d * (d - 1) == 0) by (nonlinear_arith)
            requires
                d <= 1;
    }
    if d == 1 {
        assert(binomial_spec(d, 1) == binomial_steps(d, 0));
    } else if d == 0 {
        assert(binomial_spec(d, 1) == 0);
    } else if d == 2 {
        assert(binomial_spec(d, 1) == binomial_steps(d, 1));
    } else {
        assert(binomial_spec(d, 1) == binomial_steps(d, 1));
    }
}

/// Choosing from more cards gives at least as many ways.
proof fn lemma_pascal_mono(t: nat, d: nat, j: nat)
    requires
        t <= d,
    ensures
        pascal(t, j) <= pascal(d, j),
    decreases d,
{
    if t < d {
        lemma_pascal_mono(t, (d - 1) as nat, j);
        if j > 0 && d >= j {
            assert(pascal(d, j) == pascal((d - 1) as nat, (j - 1) as nat) + pascal((d - 1) as nat, j));
        } else if j > 0 {
            assert(pascal((d - 1) as nat, j) == 0);
        }
    }
}

/// Removals of at most `m` of `t` table cards are no more than the removal
/// options of a pool of `d >= t` cards, where the pool's binomials are exact.
proof fn lemma_removal_options_general(t: nat, d: usize, m: int)
    requires
        t <= d,
        forall|j: int| 0 <= j <= m ==> #[trigger] binomial_spec(d, j as usize) == pascal(d as nat, j as nat),
    ensures
        pascal_sum(t, m) <= removal_options(d, m),
    decreases m + 1,
{
    if m > 0 {
        lemma_removal_options_general(t, d, m - 1);
        lemma_pascal_mono(t, d as nat, m as nat);
        assert(binomial_spec(d, m as usize) == pascal(d as nat, m as nat));
    } else if m == 0 {
        assert(binomial_spec(d, 0) == pascal(d as nat, 0));
        assert(pascal_sum(t, 0) == pascal_sum(t, -1) + pascal(t, 0));
    } else {
        lemma_removal_options_nonneg(d, m);
    }
}

/// Every removal and steal limit of the catalog is at most two, the
/// largest a deck file can name.
pub open spec fn limits_at_most_two(c: Catalog) -> bool {
    &&& forall|i: int| 0 <= i < 5 ==> (#[trigger] c.thingamabob_effect@[i] matches Some(
        ThingamabobEffect::RemoveCardsFromDeals { max_cards, .. },
    ) ==> max_cards <= 2)
    &&& forall|i: int| 0 <= i < 3 ==> (#[trigger] c.nasty_effect@[i] matches Some(
        crate::card::NastyEffect::BuyerMayStealUpToNCards(n),
    ) ==> n <= 2)
}

/// A thingamabob class in the deck that removes cards from deals has its
/// share of the ceiling counted exactly: each binomial of the deal pool it
/// takes is the true one, and their sum fits a `usize`.
pub open spec fn removal_exact(catalog: Catalog, counts: Seq<u32>, mode: GameMode, n: usize, k: ThingamabobKind) -> bool {
    let pool = deal_cards_spec(counts, mode, n);
    counts[class_index_spec(CardKind::Thingamabob(k))] > 0 ==> (catalog.thingamabob_effect_of(k) matches
        ThingamabobEffect::RemoveCardsFromDeals { max_cards, .. } ==> (
        (forall|j: int| 0 <= j <= max_cards ==> #[trigger] binomial_spec(pool as usize, j as usize)
            == pascal(pool as nat, j as nat))
        && removal_options(pool as usize, max_cards as int) <= usize::MAX))
}

/// The ceiling is exact for this deck and table: its deal pool, its
/// removal and penalty binomials (no product in them was held at
/// `usize::MAX`) and its window and penalty terms all fit a `usize`. Far
/// beyond any deck file (a pool of tens of thousands of cards, or removal
/// and steal limits in the dozens) the saturating ceiling falls short of
/// the true counts.
pub open spec fn ceiling_exact(catalog: Catalog, counts: Seq<u32>, mode: GameMode, n: usize) -> bool {
    &&& deal_cards_spec(counts, mode, n) <= usize::MAX
    &&& forall|k: ThingamabobKind| #[trigger] removal_exact(catalog, counts, mode, n, k)
    &&& forall|k: int| 1 <= k <= max_steal_spec(catalog) ==> #[trigger] binomial_spec((11 + k) as usize, k as usize)
        == pascal((11 + k) as nat, k as nat)
    &&& window_spec(catalog, counts, mode, n) <= usize::MAX
    &&& nasty_menu_spec(max_steal_spec(catalog)) <= usize::MAX
}

/// The ceiling of a deck of fewer than 32768 cards whose removal and steal
/// limits are at most two (every deck a deck file can describe) is exact.
pub proof fn lemma_small_decks_have_exact_ceilings(v: GameView)
    requires
        v.wf(),
        deck_matches(v),
        v.kinds.len() < 32768,
        limits_at_most_two(v.catalog),
    ensures
        ceiling_exact(v.catalog, v.deck_counts, v.mode, v.num_players),
{
    lemma_window_small(v);
    crate::game::lemma_count_class(v.kinds, 10);
    assert(v.deck_counts[10] == count_class(v.kinds, 10));
    let pool = deal_cards_spec(v.deck_counts, v.mode, v.num_players);
    assert(0 <= pool <= 40000);
    lemma_binomial_small(pool as usize);
    lemma_pascal_small(pool as nat);
    assert(pascal(pool as nat, 2) == (pool * (pool - 1)) / 2);
    assert forall|k: ThingamabobKind| #[trigger] removal_exact(v.catalog, v.deck_counts, v.mode, v.num_players, k) by {
        let j = crate::deck::thingamabob_index_spec(k);
        let c = class_index_spec(CardKind::Thingamabob(k));
        if v.deck_counts[c] > 0 {
            crate::game::lemma_count_class(v.kinds, c);
            let i = choose|i: int| 0 <= i < v.kinds.len() && class_index_spec(#[trigger] v.kinds[i]) == c;
            assert(v.kinds[i] == CardKind::Thingamabob(k));
            assert(v.catalog.has_thingamabob(k));
        }
        match v.catalog.thingamabob_effect@[j] {
            Some(ThingamabobEffect::RemoveCardsFromDeals { max_cards, .. }) => {
                assert(max_cards <= 2);
                lemma_removal_options_small(pool as usize, max_cards as int);
                assert forall|i: int| 0 <= i <= max_cards implies #[trigger] binomial_spec(pool as usize, i as usize)
                    == pascal(pool as nat, i as nat) by {
                    if i == 0 {
                        assert(pascal(pool as nat, 0) == 1);
                    }
                };
            },
            _ => {},
        }
    };
    let top = max_steal_spec(v.catalog);
    assert(top <= 2) by {
        assert(v.catalog.nasty_effect@[0] matches Some(crate::card::NastyEffect::BuyerMayStealUpToNCards(n)) ==> n <= 2);
        assert(v.catalog.nasty_effect@[1] matches Some(crate::card::NastyEffect::BuyerMayStealUpToNCards(n)) ==> n <= 2);
        assert(v.catalog.nasty_effect@[2] matches Some(crate::card::NastyEffect::BuyerMayStealUpToNCards(n)) ==> n <= 2);
    };
    lemma_binomial_small(12);
    lemma_binomial_small(13);
    lemma_pascal_small(12);
    lemma_pascal_small(13);
    assert((13 * (13 - 1)) / 2 == 78int);
    assert(pascal(13, 2) == 78);
    lemma_nasty_menu_exact(top);
    assert(multiset_sum(0) == 1) by {
        assert(multiset_sum(0) == multiset_sum(-1) + pascal(11, 0));
    };
    assert(multiset_sum(1) == 13);
    assert(multiset_sum(2) == 91);
}

/// A class some card has is counted.
proof fn lemma_class_counted(kinds: Seq<CardKind>, i: int)
    requires
        0 <= i < kinds.len(),
    ensures
        count_class(kinds, class_index_spec(kinds[i])) >= 1,
    decreases kinds.len(),
{
    crate::game::lemma_count_class(kinds.drop_last(), class_index_spec(kinds[i]));
    if i < kinds.len() - 1 {
        lemma_class_counted(kinds.drop_last(), i);
        assert(kinds.drop_last()[i] == kinds[i]);
    }
}

/// The removal menu of a deal pool never comes out negative.
proof fn lemma_removal_options_nonneg(d: usize, m: int)
    ensures
        removal_options(d, m) >= 0,
    decreases m,
{
    if m > 0 {
        lemma_removal_options_nonneg(d, m - 1);
    }
}

/// The removal menu of a pool of at most 40000 cards stays under
/// 800_020_001 options.
proof fn lemma_removal_options_small(d: usize, m: int)
    requires
        d <= 40000,
        0 <= m <= 2,
    ensures
        0 <= removal_options(d, m) <= 800_020_001,
{
    lemma_binomial_small(d);
    reveal_with_fuel(removal_options, 3);
    assert(d * (d - 1) <= 40000 * 39999) by (nonlinear_arith)
        requires
            d <= 40000;
    assert(d * (d - 1) >= 0) by (nonlinear_arith)
        requires
            d >= 0;
}

/// Under 32768 cards, the response window's share of the ceiling fits in
/// a `usize`.
proof fn lemma_window_small(v: GameView)
    requires
        v.wf(),
        deck_matches(v),
        v.kinds.len() < 32768,
        limits_at_most_two(v.catalog),
    ensures
        window_spec(v.catalog, v.deck_counts, v.mode, v.num_players) <= 4_000_100_006,
{
    crate::game::lemma_count_class(v.kinds, 10);
    assert(v.deck_counts[10] == count_class(v.kinds, 10));
    let pool = deal_cards_spec(v.deck_counts, v.mode, v.num_players);
    assert(0 <= pool <= 40000);
    assert forall|k: ThingamabobKind| #[trigger] window_term(v.catalog, v.deck_counts, v.mode, v.num_players, k)
        <= 800_020_001 by {
        let c = class_index_spec(CardKind::Thingamabob(k));
        if v.deck_counts[c] > 0 {
            crate::game::lemma_count_class(v.kinds, c);
            let i = choose|i: int| 0 <= i < v.kinds.len() && class_index_spec(#[trigger] v.kinds[i]) == c;
            assert(v.kinds[i] == CardKind::Thingamabob(k));
            assert(v.catalog.has_thingamabob(k));
            let j = crate::deck::thingamabob_index_spec(k);
            match v.catalog.thingamabob_effect_of(k) {
                ThingamabobEffect::RemoveCardsFromDeals { max_cards, .. } => {
                    assert(v.catalog.thingamabob_effect@[j] matches Some(
                        ThingamabobEffect::RemoveCardsFromDeals { max_cards, .. },
                    ));
                    lemma_removal_options_small(pool as usize, max_cards as int);
                },
                _ => {},
            }
        }
    };
}

/// The cards on the table during the response window are within the pool
/// the ceiling allows for: three per deal plus the deck's expanders.
proof fn lemma_table_within_pool(v: GameView)
    requires
        v.wf(),
        offers_ok(v),
        table_ok(v),
        deck_matches(v),
        only_expander_expands(v.catalog),
        ids_unique(v),
        v.phase is ThingamabobWindow,
    ensures
        v.deals.len() <= max_deals_spec(v.mode, v.num_players),
        deals_cards(v.deals) <= deal_cards_spec(v.deck_counts, v.mode, v.num_players),
{
    lemma_unique_holdings(v);
    lemma_expansions_bound(v, v.discard_pile);
    crate::game::lemma_count_class(v.kinds, 10);
    assert(v.deck_counts[10] == count_class(v.kinds, 10));
}

/// Each thingamabob in the response window offers at most its class's
/// share of the ceiling.
proof fn lemma_card_plays_bound(v: GameView, player: PlayerId, x: CardId, k: ThingamabobKind)
    requires
        v.wf(),
        offers_ok(v),
        hands_small(v),
        table_ok(v),
        deck_matches(v),
        only_expander_expands(v.catalog),
        ids_unique(v),
        ceiling_exact(v.catalog, v.deck_counts, v.mode, v.num_players),
        v.phase is ThingamabobWindow,
        player < v.num_players,
        v.kind(x) == CardKind::Thingamabob(k),
    ensures
        card_plays(v, player, x).len() <= window_term(v.catalog, v.deck_counts, v.mode, v.num_players, k),
{
    let n = v.num_players;
    let md = max_deals_spec(v.mode, n);
    let pool = deal_cards_spec(v.deck_counts, v.mode, n);
    if x >= v.kinds.len() {
        assert(v.kind(x) == crate::game::placeholder_kind());
    }
    lemma_class_counted(v.kinds, x as int);
    assert(v.deck_counts[class_index_spec(CardKind::Thingamabob(k))] >= 1);
    lemma_table_within_pool(v);
    assert(v.catalog.has_thingamabob(k));
    match v.catalog.thingamabob_effect_of(k) {
        ThingamabobEffect::StealPointTokenFromRicherPlayer => {
            lemma_richer_len(v, player, n as int);
        },
        ThingamabobEffect::RemoveCardsFromDeals { max_cards, max_deals } => {
            assert(v.catalog.thingamabob_effect@[crate::deck::thingamabob_index_spec(k)] matches Some(
                ThingamabobEffect::RemoveCardsFromDeals { max_cards, max_deals },
            ));
            assert(removal_exact(v.catalog, v.deck_counts, v.mode, n, k));
            assert(0 <= pool <= usize::MAX);
            assert(pool as usize == pool);
            crate::trade::lemma_deals_cards_nonneg(v.deals);
            lemma_removal_len(v.deals, max_cards as int, max_deals as int);
            lemma_removal_options_general(deals_cards(v.deals) as nat, pool as usize, max_cards as int);
        },
        ThingamabobEffect::AddHiddenHandCardToDeal => {
            let reps = class_distinct_spec(v.kinds, v.hand(player));
            lemma_expander_len(x, reps, v.deals);
            lemma_class_distinct_len(v.kinds, v.hand(player));
            assert(v.players[player as int].hand.len() <= 5);
            let r = reps.len() as int;
            let d = v.deals.len() as int;
            assert(r * d <= 5 * md) by (nonlinear_arith)
                requires
                    0 <= r <= 5,
                    0 <= d <= md;
        },
        ThingamabobEffect::RevealCardInDeal => {
            lemma_optimeter_len(x, v.deals);
        },
    }
}

/// Whether a class-distinct list holds a card of thingamabob kind `k`.
pub open spec fn holds_kind(kinds: Seq<CardKind>, reps: Seq<CardId>, k: ThingamabobKind) -> bool {
    has_class(kinds, reps, class_index_spec(CardKind::Thingamabob(k)))
}

/// The share of the ceiling of the thingamabob kinds a list holds.
pub open spec fn held_terms(v: GameView, reps: Seq<CardId>) -> int {
    let t = |k: ThingamabobKind| if holds_kind(v.kinds, reps, k) {
        window_term(v.catalog, v.deck_counts, v.mode, v.num_players, k)
    } else {
        0
    };
    t(ThingamabobKind::PlatonicIsolator) + t(ThingamabobKind::DetritalRepositioner)
        + t(ThingamabobKind::SuperDetritalRepositioner) + t(ThingamabobKind::CryptozooticExpander)
        + t(ThingamabobKind::SpectroelectricOptimeter)
}

/// A list with one more card holds a class if it held it or the card has it.
proof fn lemma_has_class_push(kinds: Seq<CardKind>, r: Seq<CardId>, x: CardId, c: int)
    ensures
        has_class(kinds, r.push(x), c) <==> (has_class(kinds, r, c) || class_in(kinds, x) == c),
{
    let p = r.push(x);
    if has_class(kinds, r, c) {
        let i = choose|i: int| 0 <= i < r.len() && class_in(kinds, #[trigger] r[i]) == c;
        assert(p[i] == r[i]);
    }
    if class_in(kinds, x) == c {
        assert(p[r.len() as int] == x);
    }
    if has_class(kinds, p, c) {
        let i = choose|i: int| 0 <= i < p.len() && class_in(kinds, #[trigger] p[i]) == c;
        if i < r.len() {
            assert(p[i] == r[i]);
        }
    }
}

/// The plays of one card per class stay within the shares of the kinds
/// held.
proof fn lemma_plays_of_bound(v: GameView, player: PlayerId, s: Seq<CardId>)
    requires
        v.wf(),
        offers_ok(v),
        hands_small(v),
        table_ok(v),
        deck_matches(v),
        only_expander_expands(v.catalog),
        ids_unique(v),
        ceiling_exact(v.catalog, v.deck_counts, v.mode, v.num_players),
        v.phase is ThingamabobWindow,
        player < v.num_players,
    ensures
        plays_of(v, player, class_distinct_spec(v.kinds, s)).len() <= held_terms(v, class_distinct_spec(v.kinds, s)),
    decreases s.len(),
{
    if s.len() == 0 {
        let e = class_distinct_spec(v.kinds, s);
        assert(e =~= Seq::<CardId>::empty());
        assert forall|c: int| !has_class(v.kinds, e, c) by {};
    } else {
        let pre = s.drop_last();
        let x = s.last();
        let r = class_distinct_spec(v.kinds, pre);
        lemma_plays_of_bound(v, player, pre);
        if !has_class(v.kinds, r, class_in(v.kinds, x)) {
            let rx = r.push(x);
            assert(rx.drop_last() =~= r);
            assert(plays_of(v, player, rx) == plays_of(v, player, r) + card_plays(v, player, x));
            lemma_has_class_push(v.kinds, r, x, 7);
            lemma_has_class_push(v.kinds, r, x, 8);
            lemma_has_class_push(v.kinds, r, x, 9);
            lemma_has_class_push(v.kinds, r, x, 10);
            lemma_has_class_push(v.kinds, r, x, 11);
            match v.kind(x) {
                CardKind::Thingamabob(k) => {
                    lemma_card_plays_bound(v, player, x, k);
                },
                _ => {
                    assert(card_plays(v, player, x) =~= Seq::<ActionView>::empty());
                },
            }
        }
    }
}

/// In every phase but the response window and the nasty penalty, the
/// actions `legal_actions` offers the seat to act fit in the action space
/// of `max_legal_actions` slots: at most ten three-card deals from a hand
/// of five (eighty splits in two-player mode), a reveal among three cards,
/// one peek or choice per deal, and the two responses.
pub proof fn law_offer_menus_fit_the_action_space(v: GameView, player: PlayerId)
    requires
        v.wf(),
        offers_ok(v),
        hands_small(v),
        v.max_legal_actions == max_legal_actions_spec(v.catalog, v.deck_counts, v.mode, v.num_players),
        active_player_spec(v) == Some(player),
        !(v.phase is ThingamabobWindow),
        !(v.phase is NastyResolution),
    ensures
        legal_options(v, player).len() <= v.max_legal_actions,
{
    lemma_ceiling_covers(v);
    crate::places::lemma_active_in_range(v);
    match v.phase {
        PhaseView::DealOffer { entries, idx, step } => {
            if step == DealOfferStep::AwaitingSubmit {
                let hand = v.hand(player);
                assert(hand.len() <= 5);
                lemma_three_of_five(hand);
                lemma_dedup_len(v.kinds, combinations_spec(hand, 3));
            } else {
                crate::turn::lemma_deal_index(v.deals, player);
                let i = deal_index(v.deals, player)->0;
                assert(v.deals[i].cards.len() == 3);
                lemma_class_distinct_len(v.kinds, deal_ids(v.deals[i].cards));
            }
        },
        PhaseView::TwoPlayerDealOffer { step } => {
            if step == TwoPlayerDealStep::AwaitingSplit {
                let hand = v.hand(player);
                assert(hand.len() <= 5);
                let cs = class_distinct_combinations_spec(v.kinds, hand, 3);
                lemma_three_of_five(hand);
                lemma_dedup_len(v.kinds, combinations_spec(hand, 3));
                lemma_split_candidates_len(cs);
                lemma_dedup_splits_len(v.kinds, split_candidates(cs));
            } else {
                lemma_all_deal_ids_len(v.deals);
                lemma_class_distinct_len(v.kinds, all_deal_ids(v.deals));
            }
        },
        _ => {},
    }
}

/// A class's share of the ceiling is never negative.
proof fn lemma_window_term_nonneg(v: GameView, k: ThingamabobKind)
    requires
        v.wf(),
    ensures
        window_term(v.catalog, v.deck_counts, v.mode, v.num_players, k) >= 0,
{
    match v.catalog.thingamabob_effect_of(k) {
        ThingamabobEffect::RemoveCardsFromDeals { max_cards, .. } => {
            lemma_removal_options_nonneg(
                crate::bounds::sat(deal_cards_spec(v.deck_counts, v.mode, v.num_players)) as usize,
                max_cards as int,
            );
        },
        _ => {},
    }
}

/// In the response window, the actions `legal_actions` offers the seat to
/// act fit in the action space of `max_legal_actions` slots: passing, and
/// for each thingamabob class in the collection at most its share of the
/// ceiling. This holds where the deck's composition is the tally of the
/// cards' classes (no card pinned over to another class) and only the
/// Cryptozootic Expander adds hand cards to deals, as the ceiling's
/// derivation takes, wherever the ceiling is exact (see [`ceiling_exact`]
/// and [`lemma_small_decks_have_exact_ceilings`]).
pub proof fn law_window_menu_fits_the_action_space(v: GameView, player: PlayerId)
    requires
        v.wf(),
        ids_unique(v),
        offers_ok(v),
        hands_small(v),
        table_ok(v),
        deck_matches(v),
        only_expander_expands(v.catalog),
        ceiling_exact(v.catalog, v.deck_counts, v.mode, v.num_players),
        v.max_legal_actions == max_legal_actions_spec(v.catalog, v.deck_counts, v.mode, v.num_players),
        active_player_spec(v) == Some(player),
        v.phase is ThingamabobWindow,
    ensures
        legal_options(v, player).len() <= v.max_legal_actions,
{
    crate::places::lemma_active_in_range(v);
    let reps = class_distinct_spec(v.kinds, v.collection(player));
    lemma_plays_of_bound(v, player, v.collection(player));
    lemma_window_term_nonneg(v, ThingamabobKind::PlatonicIsolator);
    lemma_window_term_nonneg(v, ThingamabobKind::DetritalRepositioner);
    lemma_window_term_nonneg(v, ThingamabobKind::SuperDetritalRepositioner);
    lemma_window_term_nonneg(v, ThingamabobKind::CryptozooticExpander);
    lemma_window_term_nonneg(v, ThingamabobKind::SpectroelectricOptimeter);
    assert(held_terms(v, reps) + 1 <= window_spec(v.catalog, v.deck_counts, v.mode, v.num_players));
    assert(window_options(v, player).len() == 1 + plays_of(v, player, reps).len());
}

/// Deduplicated picks come from the picks and differ pairwise in their
/// class multiset.
pub proof fn lemma_dedup_keys(kinds: Seq<CardKind>, cs: Seq<Seq<CardId>>)
    ensures
        forall|i: int, j: int| 0 <= i < j < dedup_by_class(kinds, cs).len() ==>
            class_key(kinds, #[trigger] dedup_by_class(kinds, cs)[i]) != class_key(kinds, #[trigger] dedup_by_class(kinds, cs)[j]),
    decreases cs.len(),
{
    if cs.len() > 0 {
        lemma_dedup_keys(kinds, cs.drop_last());
        let r = dedup_by_class(kinds, cs.drop_last());
        let d = dedup_by_class(kinds, cs);
        if !(exists|i: int| 0 <= i < r.len() && class_key(kinds, #[trigger] r[i]) == class_key(kinds, cs.last())) {
            assert(d == r.push(cs.last()));
            assert forall|i: int, j: int| 0 <= i < j < d.len() implies
                class_key(kinds, #[trigger] d[i]) != class_key(kinds, #[trigger] d[j]) by {
                assert(d[i] == r[i]);
                if j < r.len() {
                    assert(d[j] == r[j]);
                } else {
                    assert(d[j] == cs.last());
                }
            };
        }
    }
}

/// `sum_{k <= m} ((11 + k) choose k)`: the class multisets of at most `m`
/// cards over the twelve classes.
pub open spec fn multiset_sum(m: int) -> int
    decreases m + 1,
{
    if m < 0 {
        0
    } else {
        multiset_sum(m - 1) + pascal((11 + m) as nat, m as nat)
    }
}

/// The penalty options for a steal of at most `m` cards are at most the
/// class multisets of at most `m` cards.
proof fn lemma_resolve_len(kinds: Seq<CardKind>, coll: Seq<CardId>, m: int)
    ensures
        resolve_options(kinds, coll, m).len() <= multiset_sum(m),
    decreases m + 1,
{
    if m >= 0 {
        lemma_resolve_len(kinds, coll, m - 1);
        crate::counting::lemma_dedup_multisets_len(kinds, coll, m as nat);
    }
}

/// More cards allowed give at least as many multisets.
proof fn lemma_multiset_sum_mono(a: int, b: int)
    requires
        a <= b,
    ensures
        multiset_sum(a) <= multiset_sum(b),
    decreases b - a,
{
    if a < b {
        lemma_multiset_sum_mono(a, b - 1);
        if b >= 0 {
            assert(multiset_sum(b) == multiset_sum(b - 1) + pascal((11 + b) as nat, b as nat));
        }
    }
}

/// Where its binomials are exact, the ceiling's penalty term counts the
/// class multisets.
proof fn lemma_nasty_menu_exact(m: int)
    requires
        forall|k: int| 1 <= k <= m ==> #[trigger] binomial_spec((11 + k) as usize, k as usize) == pascal((11 + k) as nat, k as nat),
    ensures
        m >= 0 ==> nasty_menu_spec(m) == multiset_sum(m),
    decreases m + 1,
{
    if m > 0 {
        lemma_nasty_menu_exact(m - 1);
        assert(nasty_menu_spec(m) == nasty_menu_spec(m - 1) + binomial_spec((crate::card::NUM_CARD_CLASSES + m - 1) as usize, m as usize));
        assert((crate::card::NUM_CARD_CLASSES + m - 1) as usize == (11 + m) as usize);
    } else if m == 0 {
        reveal_with_fuel(crate::combinatorics::binomial_steps, 1);
        assert(binomial_spec(crate::card::NUM_CARD_CLASSES, 0) == 1);
        assert(multiset_sum(0) == multiset_sum(-1) + pascal(11, 0));
    }
}

/// The nasty penalty's menu fits in the action space of
/// `max_legal_actions` slots: its beneficiary chooses among one steal per
/// class multiset of at most the steal's limit of cards, at most as many
/// as the catalog's largest steal allows, where the ceiling's binomials
/// are exact.
pub proof fn law_penalty_menu_fits_the_action_space(v: GameView, player: PlayerId)
    requires
        v.wf(),
        ceiling_exact(v.catalog, v.deck_counts, v.mode, v.num_players),
        v.max_legal_actions == max_legal_actions_spec(v.catalog, v.deck_counts, v.mode, v.num_players),
        active_player_spec(v) == Some(player),
        v.phase is NastyResolution,
    ensures
        legal_options(v, player).len() <= v.max_legal_actions,
{
    let pending = v.phase->NastyResolution_pending;
    let i = crate::deck::nasty_index_spec(pending.kind);
    assert(0 <= i < 3);
    assert(v.catalog.nasty_set_size@[i] is Some);
    assert(v.catalog.nasty_effect@[i] is Some);
    let e = v.catalog.nasty_effect_of(pending.kind);
    let cap = crate::rules::steal_cap(e);
    assert(cap == crate::bounds::steal_cap(v.catalog.nasty_effect@[i]));
    assert(0 <= cap);
    let top = max_steal_spec(v.catalog);
    assert(cap <= top);
    lemma_resolve_len(v.kinds, v.collection(pending.player), cap);
    lemma_multiset_sum_mono(cap, top);
    lemma_nasty_menu_exact(top);
    assert(nasty_menu_spec(top) >= legal_options(v, player).len());
}

/// `legal_actions` never offers more actions than `max_legal_actions`
/// slots, in any phase: the action space is wide enough that no legal
/// action is ever out of reach. This holds in every game that a deck
/// whose only deal-expanding thingamabob is the Cryptozootic Expander set
/// up and accepted actions carried on, as long as no card has been pinned
/// over to another class (the ceiling counts the deck's expanders),
/// wherever the ceiling is exact (see [`ceiling_exact`]).
pub proof fn law_legal_count_within_ceiling(v: GameView, player: PlayerId)
    requires
        v.wf(),
        ids_unique(v),
        offers_ok(v),
        hands_small(v),
        table_ok(v),
        deck_matches(v),
        only_expander_expands(v.catalog),
        ceiling_exact(v.catalog, v.deck_counts, v.mode, v.num_players),
        v.max_legal_actions == max_legal_actions_spec(v.catalog, v.deck_counts, v.mode, v.num_players),
        active_player_spec(v) == Some(player),
    ensures
        legal_options(v, player).len() <= v.max_legal_actions,
{
    match v.phase {
        PhaseView::ThingamabobWindow { .. } => {
            law_window_menu_fits_the_action_space(v, player);
        },
        PhaseView::NastyResolution { .. } => {
            law_penalty_menu_fits_the_action_space(v, player);
        },
        _ => {
            law_offer_menus_fit_the_action_space(v, player);
        },
    }
}

} // verus!
