//! What the legal-action menu and the thingamabob effects must contain:
//! every Platonic Isolator target the rules accept and every removal list
//! they accept is offered, and a Cryptozootic Expander lays its hand card
//! into the target deal face down.

use vstd::prelude::*;
use crate::action::{ActionView, ParamsView};
use crate::card::{CardId, CardKind, PlayerId, ThingamabobEffect, class_index_spec};
use crate::combinatorics::combinations_spec;
use crate::deal::{DealView, deal_ids, hidden_ids};
use crate::events::EventView;
use crate::game::{GameView, deal_index, kind_in, sellers_distinct};
use crate::legal::{
    class_in, class_distinct_spec, has_class, lemma_class_distinct_subset, card_plays, plays_of, legal_options,
    play, richer_seats, removal_targets, seller_runs, keep_runs, removal_combinations_spec,
};
use crate::rules::{distinct_count, removal_sellers, reject, transition, play_reject, effect_reject};

verus! {

// ---- the class representative a menu offers for a card ----

/// The first card of each class keeps every class of `cards`.
proof fn lemma_class_distinct_covers(kinds: Seq<CardKind>, cards: Seq<CardId>, i: int)
    requires
        0 <= i < cards.len(),
    ensures
        has_class(kinds, class_distinct_spec(kinds, cards), class_in(kinds, cards[i])),
    decreases cards.len(),
{
    let r = class_distinct_spec(kinds, cards.drop_last());
    if i < cards.len() - 1 {
        lemma_class_distinct_covers(kinds, cards.drop_last(), i);
        assert(cards.drop_last()[i] == cards[i]);
        let j = choose|j: int| 0 <= j < r.len() && class_in(kinds, #[trigger] r[j]) == class_in(kinds, cards[i]);
        let d = class_distinct_spec(kinds, cards);
        if !has_class(kinds, r, class_in(kinds, cards.last())) {
            assert(d[j] == r[j]);
        }
    } else {
        let d = class_distinct_spec(kinds, cards);
        if has_class(kinds, r, class_in(kinds, cards.last())) {
        } else {
            assert(d[r.len() as int] == cards.last());
        }
    }
}

/// Cards of one class are of one kind.
proof fn lemma_same_class_same_kind(kinds: Seq<CardKind>, a: CardId, b: CardId)
    requires
        class_in(kinds, a) == class_in(kinds, b),
    ensures
        kind_in(kinds, a) == kind_in(kinds, b),
{
    crate::card::lemma_class_index_bijection(kind_in(kinds, a));
    crate::card::lemma_class_index_bijection(kind_in(kinds, b));
}

/// A play of one of `reps` is among the plays of `reps`.
proof fn lemma_plays_of_contains(v: GameView, player: PlayerId, reps: Seq<CardId>, c: CardId, a: ActionView)
    requires
        reps.contains(c),
        card_plays(v, player, c).contains(a),
    ensures
        plays_of(v, player, reps).contains(a),
    decreases reps.len(),
{
    let pre = plays_of(v, player, reps.drop_last());
    let last = card_plays(v, player, reps.last());
    assert(plays_of(v, player, reps) == pre + last);
    if reps.last() == c {
        let q = choose|q: int| 0 <= q < last.len() && last[q] == a;
        assert((pre + last)[pre.len() + q] == a);
    } else {
        let i = choose|i: int| 0 <= i < reps.len() && reps[i] == c;
        assert(reps.drop_last()[i] == c);
        lemma_plays_of_contains(v, player, reps.drop_last(), c, a);
        let q = choose|q: int| 0 <= q < pre.len() && pre[q] == a;
        assert((pre + last)[q] == a);
    }
}

/// In the response window, some card of `x`'s class in the collection is
/// the one whose plays the menu offers.
proof fn lemma_window_rep(v: GameView, player: PlayerId, x: CardId) -> (c: CardId)
    requires
        v.collection(player).contains(x),
    ensures
        v.collection(player).contains(c),
        class_distinct_spec(v.kinds, v.collection(player)).contains(c),
        v.kind(c) == v.kind(x),
        forall|a: ActionView| card_plays(v, player, c).contains(a) && v.phase is ThingamabobWindow
            ==> legal_options(v, player).contains(a),
{
    let coll = v.collection(player);
    let reps = class_distinct_spec(v.kinds, coll);
    let i = choose|i: int| 0 <= i < coll.len() && coll[i] == x;
    lemma_class_distinct_covers(v.kinds, coll, i);
    let j = choose|j: int| 0 <= j < reps.len() && class_in(v.kinds, #[trigger] reps[j]) == class_in(v.kinds, coll[i]);
    let c = reps[j];
    lemma_class_distinct_subset(v.kinds, coll);
    lemma_same_class_same_kind(v.kinds, c, x);
    assert forall|a: ActionView| card_plays(v, player, c).contains(a) && v.phase is ThingamabobWindow
        implies legal_options(v, player).contains(a) by {
        lemma_plays_of_contains(v, player, reps, c, a);
        let opts = seq![ActionView::PassThingamabobWindow] + plays_of(v, player, reps);
        let q = choose|q: int| 0 <= q < plays_of(v, player, reps).len() && plays_of(v, player, reps)[q] == a;
        assert(opts[q + 1] == a);
    };
    c
}

// ---- the Platonic Isolator ----

/// Every richer seat among the first `t` is listed.
proof fn lemma_richer_seats_contains(v: GameView, player: PlayerId, t: int, q: PlayerId)
    requires
        q < t,
        q != player,
        v.tokens(q) > v.tokens(player),
    ensures
        richer_seats(v, player, t).contains(q),
    decreases t,
{
    let r = richer_seats(v, player, t - 1);
    if q == t - 1 {
        assert(richer_seats(v, player, t) == r.push(q));
        assert(r.push(q)[r.len() as int] == q);
    } else {
        lemma_richer_seats_contains(v, player, t - 1, q);
        let i = choose|i: int| 0 <= i < r.len() && r[i] == q;
        if t - 1 != player && v.tokens((t - 1) as PlayerId) > v.tokens(player) {
            assert(r.push((t - 1) as PlayerId)[i] == q);
        }
    }
}

/// In the response window, a seat holding a Platonic Isolator is offered a
/// play of it against every other seat holding more point tokens than it
/// does (one card of the class stands for all its copies).
pub proof fn law_isolator_menu_reaches_every_richer_seat(v: GameView, player: PlayerId, x: CardId, q: PlayerId)
    requires
        v.phase is ThingamabobWindow,
        v.collection(player).contains(x),
        v.kind(x) matches CardKind::Thingamabob(k)
            && v.catalog.thingamabob_effect_of(k) is StealPointTokenFromRicherPlayer,
        q < v.num_players,
        q != player,
        v.tokens(q) > v.tokens(player),
    ensures
        exists|c: CardId| v.collection(player).contains(c) && v.kind(c) == v.kind(x)
            && legal_options(v, player).contains(
                ActionView::PlayThingamabob { card: c, params: ParamsView::PlatonicIsolator { target_player: q } },
            ),
{
    let c = lemma_window_rep(v, player, x);
    lemma_richer_seats_contains(v, player, v.num_players as int, q);
    let r = richer_seats(v, player, v.num_players as int);
    let i = choose|i: int| 0 <= i < r.len() && r[i] == q;
    let plays = r.map_values(|t: PlayerId| play(c, ParamsView::PlatonicIsolator { target_player: t }));
    assert(card_plays(v, player, c) == plays);
    assert(plays[i] == ActionView::PlayThingamabob { card: c, params: ParamsView::PlatonicIsolator { target_player: q } });
}

// ---- removal lists ----

/// The deal a removal target comes from, by position.
pub open spec fn target_deal(deals: Seq<DealView>, pos: int) -> int
    decreases deals.len(),
{
    if deals.len() == 0 {
        0
    } else if pos < removal_targets(deals.drop_last()).len() {
        target_deal(deals.drop_last(), pos)
    } else {
        deals.len() - 1
    }
}

/// Targets come deal by deal: each names its deal's seller, and later
/// targets come from the same or later deals.
proof fn lemma_target_deal(deals: Seq<DealView>)
    ensures
        forall|pos: int| 0 <= pos < removal_targets(deals).len() ==> 0 <= #[trigger] target_deal(deals, pos) < deals.len()
            && removal_targets(deals)[pos].0 == deals[target_deal(deals, pos)].seller,
        forall|a: int, b: int| 0 <= a <= b < removal_targets(deals).len()
            ==> #[trigger] target_deal(deals, a) <= #[trigger] target_deal(deals, b),
    decreases deals.len(),
{
    if deals.len() > 0 {
        let pre = deals.drop_last();
        lemma_target_deal(pre);
        let tp = removal_targets(pre);
        let add = deal_ids(deals.last().cards).map_values(|c: CardId| (deals.last().seller, c));
        assert(removal_targets(deals) == tp + add);
        assert forall|pos: int| 0 <= pos < removal_targets(deals).len() implies 0 <= #[trigger] target_deal(deals, pos) < deals.len()
            && removal_targets(deals)[pos].0 == deals[target_deal(deals, pos)].seller by {
            if pos < tp.len() {
                assert(removal_targets(deals)[pos] == tp[pos]);
                assert(pre[target_deal(pre, pos)] == deals[target_deal(pre, pos)]);
            } else {
                assert(removal_targets(deals)[pos] == add[pos - tp.len()]);
            }
        };
        assert forall|a: int, b: int| 0 <= a <= b < removal_targets(deals).len()
            implies #[trigger] target_deal(deals, a) <= #[trigger] target_deal(deals, b) by {
            if b < tp.len() {
                assert(target_deal(deals, a) == target_deal(pre, a));
                assert(target_deal(deals, b) == target_deal(pre, b));
                assert(target_deal(pre, a) <= target_deal(pre, b));
            } else if a < tp.len() {
                assert(target_deal(deals, a) == target_deal(pre, a));
                assert(target_deal(pre, a) < pre.len());
                assert(target_deal(deals, b) == deals.len() - 1);
            } else {
                assert(target_deal(deals, a) == deals.len() - 1);
                assert(target_deal(deals, b) == deals.len() - 1);
            }
        };
    }
}

/// A removal list whose sellers come in runs names as many sellers as it
/// has runs.
proof fn lemma_runs_within_sellers(r: Seq<(PlayerId, CardId)>)
    requires
        forall|a: int, b: int, c: int| 0 <= a < b < c < r.len() && #[trigger] r[a].0 == #[trigger] r[c].0
            ==> #[trigger] r[b].0 == r[a].0,
    ensures
        seller_runs(r) <= distinct_count(removal_sellers(r)),
    decreases r.len(),
{
    if r.len() > 0 {
        let p = r.drop_last();
        assert forall|a: int, b: int, c: int| 0 <= a < b < c < p.len() && #[trigger] p[a].0 == #[trigger] p[c].0
            implies #[trigger] p[b].0 == p[a].0 by {
            assert(p[a] == r[a] && p[b] == r[b] && p[c] == r[c]);
        };
        lemma_runs_within_sellers(p);
        let s = removal_sellers(r);
        assert(s.drop_last() =~= removal_sellers(p));
        if r.len() == 1 {
            assert(removal_sellers(p) =~= Seq::<PlayerId>::empty());
            assert(distinct_count(s.drop_last()) == 0);
        } else if r.last().0 != r[r.len() - 2].0 {
            assert(!removal_sellers(p).contains(r.last().0)) by {
                if removal_sellers(p).contains(r.last().0) {
                    let a = choose|a: int| 0 <= a < removal_sellers(p).len() && removal_sellers(p)[a] == r.last().0;
                    assert(r[a].0 == r[r.len() - 1].0);
                    assert(a < r.len() - 2);
                    assert(r[r.len() - 2].0 == r[a].0);
                }
            };
        }
    }
}

/// Positions picked in increasing order give one of the combinations.
proof fn lemma_picks_are_combinations<T>(s: Seq<T>, idx: Seq<int>)
    requires
        forall|i: int, j: int| 0 <= i < j < idx.len() ==> #[trigger] idx[i] < #[trigger] idx[j],
        forall|i: int| 0 <= i < idx.len() ==> 0 <= #[trigger] idx[i] < s.len(),
    ensures
        combinations_spec(s, idx.len()).contains(Seq::new(idx.len(), |i: int| s[idx[i]])),
    decreases s.len(),
{
    let k = idx.len();
    let l = Seq::new(k, |i: int| s[idx[i]]);
    if k == 0 {
        assert(l =~= Seq::<T>::empty());
        assert(combinations_spec(s, 0)[0] == Seq::<T>::empty());
    } else {
        assert(s.len() >= k) by {
            lemma_picks_bound(idx, k - 1);
        };
        let t = s.drop_first();
        let a = combinations_spec(t, (k - 1) as nat).map_values(|c: Seq<T>| seq![s[0]] + c);
        let b = combinations_spec(t, k);
        assert(combinations_spec(s, k) == a + b);
        if idx[0] == 0 {
            let idx2 = Seq::new((k - 1) as nat, |i: int| idx[i + 1] - 1);
            assert forall|i: int, j: int| 0 <= i < j < idx2.len() implies #[trigger] idx2[i] < #[trigger] idx2[j] by {
                assert(idx[i + 1] < idx[j + 1]);
            };
            assert forall|i: int| 0 <= i < idx2.len() implies 0 <= #[trigger] idx2[i] < t.len() by {
                assert(idx[0] < idx[i + 1]);
            };
            lemma_picks_are_combinations(t, idx2);
            let l2 = Seq::new(idx2.len(), |i: int| t[idx2[i]]);
            let cs = combinations_spec(t, (k - 1) as nat);
            let j = choose|j: int| 0 <= j < cs.len() && cs[j] == l2;
            assert(seq![s[0]] + l2 =~= l);
            assert(a[j] == l);
            assert((a + b)[j] == l);
        } else {
            let idx2 = Seq::new(k, |i: int| idx[i] - 1);
            assert forall|i: int, j: int| 0 <= i < j < idx2.len() implies #[trigger] idx2[i] < #[trigger] idx2[j] by {
                assert(idx[i] < idx[j]);
            };
            assert forall|i: int| 0 <= i < idx2.len() implies 0 <= #[trigger] idx2[i] < t.len() by {
                if i > 0 {
                    assert(idx[0] < idx[i]);
                }
            };
            lemma_picks_are_combinations(t, idx2);
            let l2 = Seq::new(idx2.len(), |i: int| t[idx2[i]]);
            assert(l2 =~= l);
            let j = choose|j: int| 0 <= j < b.len() && b[j] == l2;
            assert((a + b)[a.len() + j] == l);
        }
    }
}

/// Increasing positions are at least their rank.
proof fn lemma_picks_bound(idx: Seq<int>, i: int)
    requires
        forall|a: int, b: int| 0 <= a < b < idx.len() ==> #[trigger] idx[a] < #[trigger] idx[b],
        forall|a: int| 0 <= a < idx.len() ==> 0 <= #[trigger] idx[a],
        0 <= i < idx.len(),
    ensures
        idx[i] >= i,
    decreases i,
{
    if i > 0 {
        lemma_picks_bound(idx, i - 1);
        assert(idx[i - 1] < idx[i]);
    }
}

/// A combination with few enough runs is kept.
proof fn lemma_keep_runs_contains(cs: Seq<Seq<(PlayerId, CardId)>>, md: int, l: Seq<(PlayerId, CardId)>)
    requires
        cs.contains(l),
        seller_runs(l) <= md,
    ensures
        keep_runs(cs, md).contains(l),
    decreases cs.len(),
{
    let pre = keep_runs(cs.drop_last(), md);
    if cs.last() == l {
        assert(keep_runs(cs, md) == pre.push(l));
        assert(pre.push(l)[pre.len() as int] == l);
    } else {
        let i = choose|i: int| 0 <= i < cs.len() && cs[i] == l;
        assert(cs.drop_last()[i] == l);
        lemma_keep_runs_contains(cs.drop_last(), md, l);
        let j = choose|j: int| 0 <= j < pre.len() && pre[j] == l;
        if seller_runs(cs.last()) <= md {
            assert(pre.push(cs.last())[j] == l);
        }
    }
}

/// A kept combination of at most `m` targets is among the removal lists.
proof fn lemma_removal_combinations_contains(deals: Seq<DealView>, m: int, md: int, l: Seq<(PlayerId, CardId)>)
    requires
        l.len() <= m,
        keep_runs(combinations_spec(removal_targets(deals), l.len()), md).contains(l),
    ensures
        removal_combinations_spec(deals, m, md).contains(l),
    decreases m + 1,
{
    let pre = removal_combinations_spec(deals, m - 1, md);
    let add = keep_runs(combinations_spec(removal_targets(deals), m as nat), md);
    assert(removal_combinations_spec(deals, m, md) == pre + add);
    if l.len() == m {
        let j = choose|j: int| 0 <= j < add.len() && add[j] == l;
        assert((pre + add)[pre.len() + j] == l);
    } else {
        lemma_removal_combinations_contains(deals, m - 1, md, l);
        let j = choose|j: int| 0 <= j < pre.len() && pre[j] == l;
        assert((pre + add)[j] == l);
    }
}

/// In the response window, every removal list the rules accept for a
/// card-removing thingamabob of the collection, naming its targets in the
/// order they lie on the table (deal by deal, each deal's cards in order),
/// is offered as a play of that class's card: any number of cards up to
/// the limit, from any number of deals up to the limit.
pub proof fn law_removal_menu_offers_every_accepted_list(
    v: GameView,
    player: PlayerId,
    x: CardId,
    removals: Seq<(PlayerId, CardId)>,
    idx: Seq<int>,
)
    requires
        v.wf(),
        v.phase is ThingamabobWindow,
        play_reject(v, player, x, ParamsView::RemoveFromDeals { removals }) is None,
        idx.len() == removals.len(),
        forall|i: int, j: int| 0 <= i < j < idx.len() ==> #[trigger] idx[i] < #[trigger] idx[j],
        forall|i: int| 0 <= i < idx.len() ==> 0 <= #[trigger] idx[i] < removal_targets(v.deals).len()
            && removals[i] == removal_targets(v.deals)[idx[i]],
    ensures
        exists|c: CardId| v.collection(player).contains(c) && v.kind(c) == v.kind(x)
            && legal_options(v, player).contains(
                ActionView::PlayThingamabob { card: c, params: ParamsView::RemoveFromDeals { removals } },
            ),
{
    let k = match v.kind(x) {
        CardKind::Thingamabob(k) => k,
        _ => crate::card::ThingamabobKind::PlatonicIsolator,
    };
    assert(v.kind(x) == CardKind::Thingamabob(k));
    let e = v.catalog.thingamabob_effect_of(k);
    let (max_cards, max_deals) = match e {
        ThingamabobEffect::RemoveCardsFromDeals { max_cards, max_deals } => (max_cards, max_deals),
        _ => (0u8, 0u8),
    };
    assert(e == ThingamabobEffect::RemoveCardsFromDeals { max_cards, max_deals });
    let targets = removal_targets(v.deals);
    let l = Seq::new(idx.len(), |i: int| targets[idx[i]]);
    assert(l =~= removals);
    lemma_picks_are_combinations(targets, idx);
    lemma_target_deal(v.deals);
    assert(sellers_distinct(v.deals));
    assert forall|a: int, b: int, c: int| 0 <= a < b < c < removals.len() && #[trigger] removals[a].0 == #[trigger] removals[c].0
        implies #[trigger] removals[b].0 == removals[a].0 by {
        assert(idx[a] < idx[b] && idx[b] < idx[c]);
        let da = target_deal(v.deals, idx[a]);
        let db = target_deal(v.deals, idx[b]);
        let dc = target_deal(v.deals, idx[c]);
        assert(da <= db && db <= dc);
        if da != dc {
            if da < dc {
                assert(v.deals[da].seller != v.deals[dc].seller);
            }
        }
    };
    lemma_runs_within_sellers(removals);
    lemma_keep_runs_contains(combinations_spec(targets, removals.len()), max_deals as int, removals);
    lemma_removal_combinations_contains(v.deals, max_cards as int, max_deals as int, removals);
    let c = lemma_window_rep(v, player, x);
    let rcs = removal_combinations_spec(v.deals, max_cards as int, max_deals as int);
    let plays = rcs.map_values(|rs: Seq<(PlayerId, CardId)>| play(c, ParamsView::RemoveFromDeals { removals: rs }));
    assert(card_plays(v, player, c) == plays);
    let j = choose|j: int| 0 <= j < rcs.len() && rcs[j] == removals;
    assert(plays[j] == ActionView::PlayThingamabob { card: c, params: ParamsView::RemoveFromDeals { removals } });
}

// ---- the Cryptozooptic Expander ----

/// An accepted Cryptozooptic Expander play moves the hand card out of the
/// player's hand into the target deal face down: the deal's hidden cards
/// gain it at the end, the deal's cards gain it at the end, every card
/// already in the deal keeps its place and face, and the other deals are
/// untouched.
pub proof fn law_expander_adds_the_card_face_down(
    v: GameView,
    player: PlayerId,
    card: CardId,
    hand_card: CardId,
    target_deal: PlayerId,
    w: GameView,
    evs: Seq<EventView>,
)
    requires
        v.wf(),
        reject(v, player, ActionView::PlayThingamabob {
            card,
            params: ParamsView::CryptozooticExpander { hand_card, target_deal },
        }) is None,
        transition(v, player, ActionView::PlayThingamabob {
            card,
            params: ParamsView::CryptozooticExpander { hand_card, target_deal },
        }, w, evs),
    ensures
        deal_index(v.deals, target_deal) is Some,
        w.deals.len() == v.deals.len(),
        ({
            let i = deal_index(v.deals, target_deal)->0;
            &&& hidden_ids(w.deals[i].cards) == hidden_ids(v.deals[i].cards).push(hand_card)
            &&& deal_ids(w.deals[i].cards) == deal_ids(v.deals[i].cards).push(hand_card)
            &&& w.deals[i].cards.len() == v.deals[i].cards.len() + 1
            &&& forall|j: int| 0 <= j < v.deals[i].cards.len() ==> #[trigger] w.deals[i].cards[j] == v.deals[i].cards[j]
            &&& w.deals[i].seller == v.deals[i].seller
            &&& forall|j: int| 0 <= j < v.deals.len() && j != i ==> #[trigger] w.deals[j] == v.deals[j]
        }),
        v.hand(player).contains(hand_card),
        w.players[player as int].hand.to_multiset() == v.hand(player).to_multiset().remove(hand_card),
        w.players[player as int].hand.len() == v.hand(player).len() - 1,
{
    let params = ParamsView::CryptozooticExpander { hand_card, target_deal };
    assert(play_reject(v, player, card, params) is None);
    let k = match v.kind(card) {
        CardKind::Thingamabob(k) => k,
        _ => crate::card::ThingamabobKind::PlatonicIsolator,
    };
    assert(v.kind(card) == CardKind::Thingamabob(k));
    assert(effect_reject(v, player, v.catalog.thingamabob_effect_of(k), params) is None);
    assert(v.hand(player).contains(hand_card));
    assert(deal_index(v.deals, target_deal) is Some);
    let i = deal_index(v.deals, target_deal)->0;
    crate::turn::lemma_deal_index(v.deals, target_deal);
    crate::places::lemma_active_in_range(v);
    assert(player < v.players.len());
    let d = v.deals[i];
    let nd = crate::deal::DealView { cards: d.cards.push(crate::deal::DealCard { card: hand_card, revealed: false }), ..d };
    assert(w.deals == v.deals.update(i, nd));
    assert(nd.cards.drop_last() =~= d.cards);
    assert(hidden_ids(nd.cards) == hidden_ids(d.cards).push(hand_card));
    crate::seqs::lemma_remove_first(v.hand(player), hand_card);
    assert(deal_ids(nd.cards) =~= deal_ids(d.cards).push(hand_card));
}

// ---- the Cryptozooptic Expander and Spectroelectric Optimeter menus ----

/// Every hand card of `reps` is offered into every deal.
proof fn lemma_expander_plays_contains(card: CardId, reps: Seq<CardId>, deals: Seq<DealView>, h: CardId, j: int)
    requires
        reps.contains(h),
        0 <= j < deals.len(),
    ensures
        crate::legal::expander_plays(card, reps, deals).contains(
            play(card, ParamsView::CryptozooticExpander { hand_card: h, target_deal: deals[j].seller }),
        ),
    decreases reps.len(),
{
    let pre = crate::legal::expander_plays(card, reps.drop_last(), deals);
    let add = deals.map_values(
        |d: DealView| play(card, ParamsView::CryptozooticExpander { hand_card: reps.last(), target_deal: d.seller }),
    );
    assert(crate::legal::expander_plays(card, reps, deals) == pre + add);
    if reps.last() == h {
        assert((pre + add)[pre.len() + j] == add[j]);
    } else {
        let i = choose|i: int| 0 <= i < reps.len() && reps[i] == h;
        assert(reps.drop_last()[i] == h);
        lemma_expander_plays_contains(card, reps.drop_last(), deals, h, j);
        let a = play(card, ParamsView::CryptozooticExpander { hand_card: h, target_deal: deals[j].seller });
        let q = choose|q: int| 0 <= q < pre.len() && pre[q] == a;
        assert((pre + add)[q] == a);
    }
}

/// In the response window, a seat holding a Cryptozooptic Expander is
/// offered a play of it laying a card of each class of its hand into each
/// deal on the table (one card of a class stands for all its copies).
pub proof fn law_expander_menu_offers_every_hand_card_and_deal(
    v: GameView,
    player: PlayerId,
    x: CardId,
    h: CardId,
    s: PlayerId,
)
    requires
        v.phase is ThingamabobWindow,
        v.collection(player).contains(x),
        v.kind(x) matches CardKind::Thingamabob(k)
            && v.catalog.thingamabob_effect_of(k) is AddHiddenHandCardToDeal,
        v.hand(player).contains(h),
        deal_index(v.deals, s) is Some,
    ensures
        exists|c: CardId, h2: CardId| v.collection(player).contains(c) && v.kind(c) == v.kind(x)
            && v.hand(player).contains(h2) && v.kind(h2) == v.kind(h)
            && legal_options(v, player).contains(
                ActionView::PlayThingamabob { card: c, params: ParamsView::CryptozooticExpander { hand_card: h2, target_deal: s } },
            ),
{
    let c = lemma_window_rep(v, player, x);
    let hand = v.hand(player);
    let reps = class_distinct_spec(v.kinds, hand);
    let i = choose|i: int| 0 <= i < hand.len() && hand[i] == h;
    lemma_class_distinct_covers(v.kinds, hand, i);
    let j = choose|j: int| 0 <= j < reps.len() && class_in(v.kinds, #[trigger] reps[j]) == class_in(v.kinds, hand[i]);
    let h2 = reps[j];
    lemma_class_distinct_subset(v.kinds, hand);
    lemma_same_class_same_kind(v.kinds, h2, h);
    crate::turn::lemma_deal_index(v.deals, s);
    let d = deal_index(v.deals, s)->0;
    assert(reps.contains(h2));
    assert(v.deals[d].seller == s);
    lemma_expander_plays_contains(c, reps, v.deals, h2, d);
    assert(card_plays(v, player, c) == crate::legal::expander_plays(c, reps, v.deals));
    let a = ActionView::PlayThingamabob { card: c, params: ParamsView::CryptozooticExpander { hand_card: h2, target_deal: s } };
    assert(card_plays(v, player, c).contains(a));
    assert(legal_options(v, player).contains(a));
    assert(hand.contains(h2));
    assert(v.kind(h2) == v.kind(h));
}

/// Every hidden card of every deal is offered.
proof fn lemma_optimeter_plays_contains(card: CardId, deals: Seq<DealView>, j: int, t: CardId)
    requires
        0 <= j < deals.len(),
        hidden_ids(deals[j].cards).contains(t),
    ensures
        crate::legal::optimeter_plays(card, deals).contains(
            play(card, ParamsView::SpectroelectricOptimeter { target_deal: deals[j].seller, target_card: t }),
        ),
    decreases deals.len(),
{
    let pre = crate::legal::optimeter_plays(card, deals.drop_last());
    let add = hidden_ids(deals.last().cards).map_values(
        |c: CardId| play(card, ParamsView::SpectroelectricOptimeter { target_deal: deals.last().seller, target_card: c }),
    );
    assert(crate::legal::optimeter_plays(card, deals) == pre + add);
    let a = play(card, ParamsView::SpectroelectricOptimeter { target_deal: deals[j].seller, target_card: t });
    if j == deals.len() - 1 {
        let q = choose|q: int| 0 <= q < hidden_ids(deals[j].cards).len() && hidden_ids(deals[j].cards)[q] == t;
        assert((pre + add)[pre.len() + q] == a);
    } else {
        assert(deals.drop_last()[j] == deals[j]);
        lemma_optimeter_plays_contains(card, deals.drop_last(), j, t);
        let q = choose|q: int| 0 <= q < pre.len() && pre[q] == a;
        assert((pre + add)[q] == a);
    }
}

/// In the response window, a seat holding a Spectroelectric Optimeter is
/// offered a play of it revealing every hidden card of every deal.
pub proof fn law_optimeter_menu_offers_every_hidden_card(
    v: GameView,
    player: PlayerId,
    x: CardId,
    s: PlayerId,
    t: CardId,
)
    requires
        v.phase is ThingamabobWindow,
        v.collection(player).contains(x),
        v.kind(x) matches CardKind::Thingamabob(k)
            && v.catalog.thingamabob_effect_of(k) is RevealCardInDeal,
        deal_index(v.deals, s) is Some,
        hidden_ids(v.deals[deal_index(v.deals, s)->0].cards).contains(t),
    ensures
        exists|c: CardId| v.collection(player).contains(c) && v.kind(c) == v.kind(x)
            && legal_options(v, player).contains(
                ActionView::PlayThingamabob { card: c, params: ParamsView::SpectroelectricOptimeter { target_deal: s, target_card: t } },
            ),
{
    let c = lemma_window_rep(v, player, x);
    crate::turn::lemma_deal_index(v.deals, s);
    let d = deal_index(v.deals, s)->0;
    lemma_optimeter_plays_contains(c, v.deals, d, t);
    assert(card_plays(v, player, c) == crate::legal::optimeter_plays(c, v.deals));
}

// ---- what the Isolator and the Optimeter do ----

/// An accepted Platonic Isolator play moves one point token from the
/// target to the player and reports it; every other seat's tokens stay.
pub proof fn law_isolator_moves_one_token(
    v: GameView,
    player: PlayerId,
    card: CardId,
    target: PlayerId,
    w: GameView,
    evs: Seq<EventView>,
)
    requires
        v.wf(),
        reject(v, player, ActionView::PlayThingamabob { card, params: ParamsView::PlatonicIsolator { target_player: target } }) is None,
        transition(v, player, ActionView::PlayThingamabob { card, params: ParamsView::PlatonicIsolator { target_player: target } }, w, evs),
    ensures
        target != player,
        target < v.num_players,
        v.tokens(target) > v.tokens(player),
        w.tokens(target) == v.tokens(target) - 1,
        w.tokens(player) == v.tokens(player) + 1,
        forall|q: PlayerId| q < v.num_players && q != player && q != target ==> #[trigger] w.tokens(q) == v.tokens(q),
        evs.contains(EventView::PointTokenStolen { from: target, to: player, amount: 1 }),
{
    let params = ParamsView::PlatonicIsolator { target_player: target };
    assert(play_reject(v, player, card, params) is None);
    let k = match v.kind(card) {
        CardKind::Thingamabob(k) => k,
        _ => crate::card::ThingamabobKind::PlatonicIsolator,
    };
    assert(v.kind(card) == CardKind::Thingamabob(k));
    assert(effect_reject(v, player, v.catalog.thingamabob_effect_of(k), params) is None);
    crate::places::lemma_active_in_range(v);
    assert(player < v.players.len());
    let e = EventView::PointTokenStolen { from: target, to: player, amount: 1 };
    let head = seq![EventView::ThingamabobPlayed { player, card, kind: crate::rules::played_kind(v, card) }];
    assert(evs == head.add(seq![e]));
    assert(evs[1] == e);
}

/// An accepted Spectroelectric Optimeter play turns the target card of the
/// target deal face up: its first place in the deal now holds it face up,
/// every other place of that deal and every other deal is as it was, and
/// the reveal is reported.
pub proof fn law_optimeter_reveals_the_card(
    v: GameView,
    player: PlayerId,
    card: CardId,
    s: PlayerId,
    t: CardId,
    w: GameView,
    evs: Seq<EventView>,
)
    requires
        reject(v, player, ActionView::PlayThingamabob { card, params: ParamsView::SpectroelectricOptimeter { target_deal: s, target_card: t } }) is None,
        transition(v, player, ActionView::PlayThingamabob { card, params: ParamsView::SpectroelectricOptimeter { target_deal: s, target_card: t } }, w, evs),
    ensures
        deal_index(v.deals, s) is Some,
        w.deals.len() == v.deals.len(),
        ({
            let i = deal_index(v.deals, s)->0;
            let cs = v.deals[i].cards;
            &&& hidden_ids(cs).contains(t)
            &&& deal_ids(cs).contains(t)
            &&& w.deals[i].cards.len() == cs.len()
            &&& w.deals[i].seller == v.deals[i].seller
            &&& w.deals[i].cards[deal_ids(cs).index_of_first(t)->0] == crate::deal::DealCard { card: t, revealed: true }
            &&& forall|j: int| 0 <= j < cs.len() && j != deal_ids(cs).index_of_first(t)->0
                ==> #[trigger] w.deals[i].cards[j] == cs[j]
            &&& forall|j: int| 0 <= j < v.deals.len() && j != i ==> #[trigger] w.deals[j] == v.deals[j]
        }),
        evs.contains(EventView::CardRevealed { seller: s, card: t }),
{
    let params = ParamsView::SpectroelectricOptimeter { target_deal: s, target_card: t };
    assert(play_reject(v, player, card, params) is None);
    let k = match v.kind(card) {
        CardKind::Thingamabob(k) => k,
        _ => crate::card::ThingamabobKind::PlatonicIsolator,
    };
    assert(v.kind(card) == CardKind::Thingamabob(k));
    assert(effect_reject(v, player, v.catalog.thingamabob_effect_of(k), params) is None);
    crate::turn::lemma_deal_index(v.deals, s);
    let i = deal_index(v.deals, s)->0;
    let cs = v.deals[i].cards;
    assert(hidden_ids(cs).contains(t));
    lemma_hidden_in_deal(cs, t);
    deal_ids(cs).index_of_first_ensures(t);
    let e = EventView::CardRevealed { seller: s, card: t };
    let head = seq![EventView::ThingamabobPlayed { player, card, kind: crate::rules::played_kind(v, card) }];
    assert(evs == head.add(seq![e]));
    assert(evs[1] == e);
}

/// A hidden card of a deal is one of its cards.
proof fn lemma_hidden_in_deal(cs: Seq<crate::deal::DealCard>, t: CardId)
    requires
        hidden_ids(cs).contains(t),
    ensures
        deal_ids(cs).contains(t),
    decreases cs.len(),
{
    if cs.len() > 0 {
        let pre = cs.drop_last();
        if hidden_ids(pre).contains(t) {
            lemma_hidden_in_deal(pre, t);
            let j = choose|j: int| 0 <= j < deal_ids(pre).len() && deal_ids(pre)[j] == t;
            assert(deal_ids(cs)[j] == t);
        } else {
            if !cs.last().revealed {
                let h = hidden_ids(pre);
                let q = choose|q: int| 0 <= q < h.push(cs.last().card).len() && h.push(cs.last().card)[q] == t;
                if q < h.len() {
                    assert(h[q] == t);
                }
            }
            assert(cs.last().card == t);
            assert(deal_ids(cs)[cs.len() - 1] == t);
        }
    }
}

// ---- what a removal does ----

/// The cards a removal list takes from seller `s`'s deal, in order.
pub open spec fn taken_from(rs: Seq<(PlayerId, CardId)>, s: PlayerId) -> Seq<CardId>
    decreases rs.len(),
{
    if rs.len() == 0 {
        Seq::empty()
    } else {
        taken_from(rs.drop_last(), s) + if rs.last().0 == s { seq![rs.last().1] } else { Seq::empty() }
    }
}

/// What a list takes from one deal it names.
proof fn lemma_taken_from_listed(rs: Seq<(PlayerId, CardId)>, s: PlayerId, c: CardId)
    requires
        taken_from(rs, s).contains(c),
    ensures
        crate::rules::removal_cards(rs).contains(c),
    decreases rs.len(),
{
    let p = rs.drop_last();
    let t = taken_from(p, s);
    let cards = crate::rules::removal_cards(rs);
    assert(cards.drop_last() =~= crate::rules::removal_cards(p));
    if t.contains(c) {
        lemma_taken_from_listed(p, s, c);
        let j = choose|j: int| 0 <= j < crate::rules::removal_cards(p).len() && crate::rules::removal_cards(p)[j] == c;
        assert(cards[j] == c);
    } else {
        if rs.last().0 == s {
            assert(taken_from(rs, s) =~= t.push(rs.last().1));
            let q = choose|q: int| 0 <= q < taken_from(rs, s).len() && taken_from(rs, s)[q] == c;
            if q < t.len() {
                assert(t[q] == c);
                assert(false);
            }
        } else {
            assert(taken_from(rs, s) =~= t);
        }
        assert(cards[rs.len() - 1] == c);
    }
}

/// Taking the listed cards out of the deals one by one: each deal loses
/// exactly the cards listed for its seller, the deals and their sellers
/// stay, and the cards go to the discard pile in list order.
proof fn lemma_removals_result(v: GameView, rs: Seq<(PlayerId, CardId)>)
    requires
        sellers_distinct(v.deals),
        crate::rules::bad_removal(v, rs) is None,
        crate::seqs::all_distinct(crate::rules::removal_cards(rs)),
    ensures
        crate::rules::removals_result(v, rs).deals.len() == v.deals.len(),
        forall|j: int| 0 <= j < v.deals.len() ==> #[trigger] crate::rules::removals_result(v, rs).deals[j].seller
            == v.deals[j].seller,
        forall|j: int| 0 <= j < v.deals.len() ==> #[trigger] deal_ids(crate::rules::removals_result(v, rs).deals[j].cards)
            .to_multiset().add(taken_from(rs, v.deals[j].seller).to_multiset()) == deal_ids(v.deals[j].cards).to_multiset(),
        crate::rules::removals_result(v, rs).discard_pile == v.discard_pile + crate::rules::removal_cards(rs),
        crate::rules::removals_result(v, rs).players == v.players,
        crate::rules::removals_result(v, rs).phase == v.phase,
    decreases rs.len(),
{
    broadcast use vstd::multiset::group_multiset_axioms;
    broadcast use vstd::seq_lib::group_to_multiset_ensures;
    if rs.len() == 0 {
        assert forall|j: int| 0 <= j < v.deals.len() implies #[trigger] deal_ids(crate::rules::removals_result(v, rs).deals[j].cards)
            .to_multiset().add(taken_from(rs, v.deals[j].seller).to_multiset()) == deal_ids(v.deals[j].cards).to_multiset() by {
            assert(taken_from(rs, v.deals[j].seller).to_multiset() =~= vstd::multiset::Multiset::empty());
            assert(deal_ids(v.deals[j].cards).to_multiset().add(vstd::multiset::Multiset::empty()) =~= deal_ids(v.deals[j].cards).to_multiset());
        };
        assert(v.discard_pile + crate::rules::removal_cards(rs) =~= v.discard_pile);
    } else {
        let p = rs.drop_last();
        let cards = crate::rules::removal_cards(rs);
        assert(cards.drop_last() =~= crate::rules::removal_cards(p));
        assert(crate::seqs::all_distinct(crate::rules::removal_cards(p))) by {
            assert forall|a: int, b: int| 0 <= a < b < crate::rules::removal_cards(p).len() implies
                crate::rules::removal_cards(p)[a] != crate::rules::removal_cards(p)[b] by {
                assert(cards[a] != cards[b]);
            };
        };
        lemma_removals_result(v, p);
        let w = crate::rules::removals_result(v, p);
        let (s, c) = rs.last();
        assert(rs.last().1 == cards[rs.len() - 1]);
        crate::turn::lemma_deal_index(v.deals, s);
        let i = deal_index(v.deals, s)->0;
        assert(deal_ids(v.deals[i].cards).contains(c));
        assert(w.deals.map_values(|d: DealView| d.seller) =~= v.deals.map_values(|d: DealView| d.seller));
        assert(deal_index(w.deals, s) == deal_index(v.deals, s));
        let old_ids = deal_ids(w.deals[i].cards);
        let tk = taken_from(p, s);
        assert(!tk.contains(c)) by {
            if tk.contains(c) {
                lemma_taken_from_listed(p, s, c);
                let j = choose|j: int| 0 <= j < crate::rules::removal_cards(p).len() && crate::rules::removal_cards(p)[j] == c;
                assert(cards[j] == c);
            }
        };
        assert(tk.to_multiset().count(c) == 0);
        assert(old_ids.to_multiset().add(tk.to_multiset()) == deal_ids(v.deals[i].cards).to_multiset());
        assert(deal_ids(v.deals[i].cards).to_multiset().count(c) > 0);
        assert(old_ids.to_multiset().count(c) > 0);
        assert(old_ids.contains(c));
        let nd = crate::rules::remove_in(w.deals[i], c);
        old_ids.index_of_first_ensures(c);
        let kx = old_ids.index_of_first(c)->0;
        assert(0 <= kx < w.deals[i].cards.len());
        assert(nd.cards == w.deals[i].cards.remove(kx));
        assert(deal_ids(nd.cards) =~= old_ids.remove(kx));
        assert(deal_ids(nd.cards) =~= crate::seqs::remove_first(old_ids, c));
        crate::seqs::lemma_remove_first(old_ids, c);
        let u = crate::rules::removals_result(v, rs);
        assert(u.deals == w.deals.update(i, nd));
        assert forall|j: int| 0 <= j < v.deals.len() implies #[trigger] deal_ids(u.deals[j].cards)
            .to_multiset().add(taken_from(rs, v.deals[j].seller).to_multiset()) == deal_ids(v.deals[j].cards).to_multiset() by {
            if j == i {
                assert(taken_from(rs, s) =~= tk.push(c));
                assert(deal_ids(u.deals[j].cards).to_multiset().add(tk.push(c).to_multiset())
                    =~= old_ids.to_multiset().add(tk.to_multiset()));
            } else {
                assert(v.deals[j].seller != s) by {
                    if j < i {
                        assert(v.deals[j].seller != v.deals[i].seller);
                    } else {
                        assert(v.deals[i].seller != v.deals[j].seller);
                    }
                };
                assert(taken_from(rs, v.deals[j].seller) =~= taken_from(p, v.deals[j].seller));
                assert(u.deals[j] == w.deals[j]);
            }
        };
        assert(v.discard_pile + cards =~= (v.discard_pile + crate::rules::removal_cards(p)).push(c));
    }
}

/// An accepted removal play takes exactly the listed cards out of the
/// deals, each from its seller's deal, and discards them in list order
/// followed by the played card: every deal keeps its seller, loses the
/// cards listed for it and nothing else, and the discard is reported.
pub proof fn law_removal_discards_exactly_the_listed_cards(
    v: GameView,
    player: PlayerId,
    card: CardId,
    removals: Seq<(PlayerId, CardId)>,
    w: GameView,
    evs: Seq<EventView>,
)
    requires
        v.wf(),
        reject(v, player, ActionView::PlayThingamabob { card, params: ParamsView::RemoveFromDeals { removals } }) is None,
        transition(v, player, ActionView::PlayThingamabob { card, params: ParamsView::RemoveFromDeals { removals } }, w, evs),
    ensures
        w.discard_pile == v.discard_pile + crate::rules::removal_cards(removals) + seq![card],
        w.deals.len() == v.deals.len(),
        forall|j: int| 0 <= j < v.deals.len() ==> #[trigger] w.deals[j].seller == v.deals[j].seller
            && deal_ids(w.deals[j].cards).to_multiset().add(taken_from(removals, v.deals[j].seller).to_multiset())
                == deal_ids(v.deals[j].cards).to_multiset(),
        evs.contains(EventView::CardsDiscarded { cards: crate::rules::removal_cards(removals) }),
{
    let params = ParamsView::RemoveFromDeals { removals };
    assert(play_reject(v, player, card, params) is None);
    let k = match v.kind(card) {
        CardKind::Thingamabob(k) => k,
        _ => crate::card::ThingamabobKind::PlatonicIsolator,
    };
    assert(v.kind(card) == CardKind::Thingamabob(k));
    assert(effect_reject(v, player, v.catalog.thingamabob_effect_of(k), params) is None);
    assert(sellers_distinct(v.deals));
    lemma_removals_result(v, removals);
    let e = EventView::CardsDiscarded { cards: crate::rules::removal_cards(removals) };
    let head = seq![EventView::ThingamabobPlayed { player, card, kind: crate::rules::played_kind(v, card) }];
    assert(evs == head.add(seq![e]));
    assert(evs[1] == e);
}

} // verus!
