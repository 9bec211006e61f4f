//! The end of a turn, step by step, as spec functions: nasty sets are
//! traded in first, seat by seat and kind by kind, then creature sets, and
//! each set moves the first cards of its kind, one by one, from the
//! collection to the end of the discard pile.

use vstd::prelude::*;
use crate::card::{CardId, CardKind, NastyEffect, NastyKind, PlayerId, Tier};
use crate::events::EventView;
use crate::game::{GameView, kind_in, players_cards};
use crate::phase::{PendingNasty, PhaseView};
use crate::rules::{beneficiary, count_kind, with_collection, with_discard, with_tokens};

verus! {

/// Position of the first card of `kind` in `c` (its length when none).
pub open spec fn first_kind_index(kinds: Seq<CardKind>, c: Seq<CardId>, kind: CardKind) -> int
    decreases c.len(),
{
    if c.len() == 0 {
        0
    } else if kind_in(kinds, c[0]) == kind {
        0
    } else {
        1 + first_kind_index(kinds, c.drop_first(), kind)
    }
}

/// The first card of `kind` is at `i` when it is there and none comes
/// before it.
pub proof fn lemma_first_kind_index(kinds: Seq<CardKind>, c: Seq<CardId>, kind: CardKind, i: int)
    requires
        0 <= i < c.len(),
        kind_in(kinds, c[i]) == kind,
        forall|j: int| 0 <= j < i ==> kind_in(kinds, #[trigger] c[j]) != kind,
    ensures
        first_kind_index(kinds, c, kind) == i,
    decreases i,
{
    if i > 0 {
        let d = c.drop_first();
        assert forall|j: int| 0 <= j < i - 1 implies kind_in(kinds, #[trigger] d[j]) != kind by {
            assert(d[j] == c[j + 1]);
        };
        lemma_first_kind_index(kinds, d, kind, i - 1);
    }
}

/// `m` cards of `kind` moved from `p`'s collection to the end of the
/// discard pile, one by one, each time the first of that kind left.
pub open spec fn discard_kind(v: GameView, p: PlayerId, kind: CardKind, m: nat) -> GameView
    decreases m,
{
    if m == 0 {
        v
    } else {
        let w = discard_kind(v, p, kind, (m - 1) as nat);
        let c = w.collection(p);
        let i = first_kind_index(w.kinds, c, kind);
        with_discard(with_collection(w, p, c.remove(i)), w.discard_pile.push(c[i]))
    }
}

/// The tier in class position `i`.
pub open spec fn tier_of(i: int) -> Tier {
    if i == 0 {
        Tier::Giant
    } else if i == 1 {
        Tier::Big
    } else if i == 2 {
        Tier::Medium
    } else {
        Tier::Tiny
    }
}

/// The nasty kind in class position `i`.
pub open spec fn nasty_of(i: int) -> NastyKind {
    if i == 0 {
        NastyKind::PoisonPillBug
    } else if i == 1 {
        NastyKind::LoanShark
    } else {
        NastyKind::TrojanHorse
    }
}

/// One creature set of tier `t` traded in by `p`: its cards go to the
/// discard pile and `p` gains one point token.
pub open spec fn creature_set(v: GameView, p: PlayerId, t: Tier) -> GameView {
    let w = discard_kind(v, p, CardKind::Creature(t), v.catalog.tier_size(t) as nat);
    with_tokens(w, p, (w.tokens(p) + 1) as u32)
}

/// `n` creature sets of tier `t` traded in by `p`, with their reports.
pub open spec fn creature_sets(v: GameView, p: PlayerId, t: Tier, n: nat) -> (GameView, Seq<EventView>)
    decreases n,
{
    if n == 0 {
        (v, Seq::empty())
    } else {
        let r = creature_sets(creature_set(v, p, t), p, t, (n - 1) as nat);
        (r.0, seq![EventView::CreatureSetTradedIn { player: p, tier: t, tokens_gained: 1 }] + r.1)
    }
}

/// How many complete sets of tier `t` seat `p` holds.
pub open spec fn sets_held(v: GameView, p: PlayerId, t: Tier) -> int {
    count_kind(v.kinds, v.collection(p), CardKind::Creature(t)) / (v.catalog.tier_size(t) as int)
}

/// Seat `p` trades in every complete set of the listed tiers from class
/// position `ti` on, tier by tier.
pub open spec fn tiers_from(v: GameView, p: PlayerId, ti: int) -> (GameView, Seq<EventView>)
    decreases 4 - ti,
{
    if ti >= 4 || ti < 0 {
        (v, Seq::empty())
    } else {
        let t = tier_of(ti);
        let a = if v.catalog.has_tier(t) {
            creature_sets(v, p, t, sets_held(v, p, t) as nat)
        } else {
            (v, Seq::empty())
        };
        let b = tiers_from(a.0, p, ti + 1);
        (b.0, a.1 + b.1)
    }
}

/// Seats `p`, `p + 1`, ... below `n` trade in their creature sets in turn.
pub open spec fn seats_from(v: GameView, p: int, n: int) -> (GameView, Seq<EventView>)
    decreases n - p,
{
    if p >= n || p < 0 {
        (v, Seq::empty())
    } else {
        let a = tiers_from(v, p as PlayerId, 0);
        let b = seats_from(a.0, p + 1, n);
        (b.0, a.1 + b.1)
    }
}

/// The creature trade-in: every seat in order, every listed tier in class
/// order, as long as the seat holds a complete set of it.
pub open spec fn creature_trade(v: GameView) -> (GameView, Seq<EventView>) {
    seats_from(v, 0, v.num_players as int)
}

/// The first seat below `n` from `p` (and, at `p`, the first nasty kind
/// from class position `i`) holding a complete nasty set.
pub open spec fn first_nasty_from(v: GameView, p: int, i: int, n: int) -> Option<(PlayerId, NastyKind)>
    decreases n - p, 3 - i,
{
    if p >= n || p < 0 || i < 0 {
        None
    } else if i >= 3 {
        first_nasty_from(v, p + 1, 0, n)
    } else {
        let k = nasty_of(i);
        if v.catalog.has_nasty(k) && count_kind(v.kinds, v.collection(p as PlayerId), CardKind::Nasty(k))
            >= v.catalog.nasty_size(k) {
            Some((p as PlayerId, k))
        } else {
            first_nasty_from(v, p, i + 1, n)
        }
    }
}

/// The first complete nasty set, seat by seat and kind by kind.
pub open spec fn first_nasty(v: GameView) -> Option<(PlayerId, NastyKind)> {
    first_nasty_from(v, 0, 0, v.num_players as int)
}

/// Seat `p` trades in one nasty set of kind `k`: its cards go to the
/// discard pile; a point-token set moves one token (if the loser has one)
/// to the beneficiary; a card-stealing set waits for the beneficiary's
/// choice. The flag says whether the trade-in waits.
pub open spec fn nasty_set(v: GameView, p: PlayerId, k: NastyKind) -> (GameView, Seq<EventView>, bool) {
    let w = discard_kind(v, p, CardKind::Nasty(k), v.catalog.nasty_size(k) as nat);
    let traded = seq![EventView::NastySetTradedIn { player: p, kind: k }];
    match v.catalog.nasty_effect_of(k) {
        NastyEffect::BuyerStealsOnePointToken => {
            let b = beneficiary(v, p);
            let taken: u32 = if w.tokens(p) >= 1 { 1 } else { 0 };
            let w2 = with_tokens(w, p, (w.tokens(p) - taken) as u32);
            let w3 = with_tokens(w2, b, (w2.tokens(b) + taken) as u32);
            let stolen = if taken > 0 {
                seq![EventView::PointTokenStolen { from: p, to: b, amount: taken }]
            } else {
                Seq::empty()
            };
            (w3, traded + stolen, false)
        },
        NastyEffect::BuyerMayStealUpToNCards(_) => (
            GameView {
                phase: PhaseView::NastyResolution { pending: PendingNasty { player: p, kind: k } },
                ..w
            },
            traded,
            true,
        ),
    }
}

/// Nasty sets traded in one after another until none is complete or one
/// waits for its beneficiary; the flag says whether it waits.
pub open spec fn nasty_trade(v: GameView) -> (GameView, Seq<EventView>, bool)
    decreases players_cards(v.players),
{
    match first_nasty(v) {
        None => (v, Seq::empty(), false),
        Some((p, k)) => {
            let s = nasty_set(v, p, k);
            if s.2 || !(0 <= players_cards(s.0.players) < players_cards(v.players)) {
                s
            } else {
                let r = nasty_trade(s.0);
                (r.0, s.1 + r.1, r.2)
            }
        },
    }
}

/// A report a refill or the win check makes.
pub open spec fn refill_report(e: EventView) -> bool {
    e is HandRefilled || e is DrawPileReshuffledFromDiscard || e is GameOver
}

/// Every hand of `fin` starts with the same seat's hand in `v`: hands only
/// grew.
pub open spec fn hands_grew(v: GameView, fin: GameView) -> bool {
    &&& fin.players.len() == v.players.len()
    &&& forall|q: int| 0 <= q < fin.players.len() ==> (#[trigger] fin.players[q]).hand.len() >= v.players[q].hand.len()
        && fin.players[q].hand.take(v.players[q].hand.len() as int) == v.players[q].hand
}

/// Cards held in all the hands.
pub open spec fn hand_cards(ps: Seq<crate::player::PlayerView>) -> int
    decreases ps.len(),
{
    if ps.len() == 0 { 0 } else { hand_cards(ps.drop_last()) + ps.last().hand.len() }
}

/// Whether `evs` reports the discard pile reshuffled into the draw pile.
pub open spec fn reshuffle_reported(evs: Seq<EventView>) -> bool {
    exists|i: int| 0 <= i < evs.len() && (#[trigger] evs[i]) is DrawPileReshuffledFromDiscard
}

/// Cards the hand-refill reports of `evs` count.
pub open spec fn refilled_total(evs: Seq<EventView>) -> int
    decreases evs.len(),
{
    if evs.len() == 0 {
        0
    } else {
        refilled_total(evs.drop_last()) + match evs.last() {
            EventView::HandRefilled { drawn, .. } => drawn as int,
            _ => 0int,
        }
    }
}

/// A refill from `v` part of the way to `w`, having reported `evs` and
/// drawn `pending` cards not yet reported: the reports and `pending` count
/// every card drawn; the discard pile was reshuffled into the draw pile
/// exactly when more cards were drawn than the draw pile held; and without
/// a reshuffle the discard pile is left alone and every card drawn came
/// off the end of the draw pile.
pub open spec fn refill_part(v: GameView, w: GameView, evs: Seq<EventView>, pending: int) -> bool {
    let g = hand_cards(w.players) - hand_cards(v.players);
    &&& refilled_total(evs) + pending == g
    &&& reshuffle_reported(evs) <==> g > v.draw_pile.len()
    &&& !reshuffle_reported(evs) ==> w.discard_pile == v.discard_pile && 0 <= g
        && w.draw_pile == v.draw_pile.take(v.draw_pile.len() - g)
}

/// A whole refill from `v` to `fin` reporting `evs`, every card drawn
/// reported.
pub open spec fn drawn_from_top(v: GameView, fin: GameView, evs: Seq<EventView>) -> bool {
    refill_part(v, fin, evs, 0)
}

/// One more report is a reshuffle report exactly when it is one or one
/// came before.
pub proof fn lemma_reported_push(evs: Seq<EventView>, x: EventView)
    ensures
        reshuffle_reported(evs.push(x)) == (reshuffle_reported(evs) || x is DrawPileReshuffledFromDiscard),
{
    let e = evs.push(x);
    if reshuffle_reported(evs) {
        let i = choose|i: int| 0 <= i < evs.len() && (#[trigger] evs[i]) is DrawPileReshuffledFromDiscard;
        assert(e[i] == evs[i]);
    }
    if x is DrawPileReshuffledFromDiscard {
        assert(e[evs.len() as int] == x);
    }
    if reshuffle_reported(e) {
        let i = choose|i: int| 0 <= i < e.len() && (#[trigger] e[i]) is DrawPileReshuffledFromDiscard;
        if i < evs.len() {
            assert(e[i] == evs[i]);
        }
    }
}

/// A report that is not a hand refill adds nothing to the count of cards
/// drawn; a hand refill adds its count.
pub proof fn lemma_refilled_push(evs: Seq<EventView>, x: EventView)
    ensures
        refilled_total(evs.push(x)) == refilled_total(evs) + match x {
            EventView::HandRefilled { drawn, .. } => drawn as int,
            _ => 0int,
        },
{
    assert(evs.push(x).drop_last() =~= evs);
}

/// Cards held in the hands after one seat's holdings change.
pub proof fn lemma_hand_cards_update(ps: Seq<crate::player::PlayerView>, i: int, x: crate::player::PlayerView)
    requires
        0 <= i < ps.len(),
    ensures
        hand_cards(ps.update(i, x)) == hand_cards(ps) - ps[i].hand.len() + x.hand.len(),
    decreases ps.len(),
{
    if i == ps.len() - 1 {
        assert(ps.update(i, x).drop_last() =~= ps.drop_last());
    } else {
        lemma_hand_cards_update(ps.drop_last(), i, x);
        assert(ps.update(i, x).drop_last() =~= ps.drop_last().update(i, x));
    }
}

/// Cards seat `q` still needs to hold five.
pub open spec fn refill_need(v: GameView, q: int) -> int {
    if v.players[q].hand.len() >= 5 { 0 } else { 5 - v.players[q].hand.len() }
}

/// Cards the refill from `v` hands to the seats before `q`: seat by seat,
/// each takes what it needs or what is left in both piles.
pub open spec fn refill_taken(v: GameView, q: int) -> int
    decreases q,
{
    if q <= 0 {
        0
    } else {
        let t = refill_taken(v, q - 1);
        let left = v.draw_pile.len() + v.discard_pile.len() - t;
        t + if refill_need(v, q - 1) <= left { refill_need(v, q - 1) } else { left }
    }
}

/// The order the refill from draw pile `d` draws cards in, once the
/// discard pile has been reshuffled into `sh`: the draw pile from its end,
/// then `sh` from its end.
pub open spec fn draw_order(d: Seq<CardId>, sh: Seq<CardId>) -> Seq<CardId> {
    Seq::new(d.len() + sh.len(), |i: int| if i < d.len() { d[d.len() - 1 - i] } else { sh[sh.len() - 1 - (i - d.len())] })
}

/// `fin` is the refill of `v` where the discard pile, when needed, was
/// reshuffled into `sh`: seat `q` gains the cards `refill_taken(v, q)` up
/// to `refill_taken(v, q + 1)` of the drawing order at the end of its
/// hand, nothing else of the seats changes, and the piles keep what was
/// not drawn (the draw pile's remaining prefix and the untouched discard
/// pile, or, after the reshuffle, the unreached prefix of `sh` and an empty
/// discard pile).
pub open spec fn refill_result(v: GameView, fin: GameView, sh: Seq<CardId>) -> bool {
    let n = v.players.len() as int;
    let total = refill_taken(v, n);
    let d = v.draw_pile;
    &&& sh.to_multiset() == v.discard_pile.to_multiset()
    &&& sh.len() == v.discard_pile.len()
    &&& fin.players.len() == n
    &&& forall|q: int| 0 <= q < n ==> #[trigger] fin.players[q] == crate::player::PlayerView {
        hand: v.players[q].hand + draw_order(d, sh).subrange(refill_taken(v, q), refill_taken(v, q + 1)),
        ..v.players[q]
    }
    &&& total <= d.len() ==> fin.draw_pile == d.take(d.len() - total) && fin.discard_pile == v.discard_pile
    &&& total > d.len() ==> fin.draw_pile == sh.take(sh.len() - (total - d.len()))
        && fin.discard_pile == Seq::<CardId>::empty()
}

/// The reports of the refill from `v` for the seats before `m`: for each
/// seat, the reshuffle if its draws ran the draw pile out, then how many
/// cards it drew, if any.
pub open spec fn refill_events(v: GameView, m: int) -> Seq<EventView>
    decreases m,
{
    if m <= 0 {
        Seq::empty()
    } else {
        let a = refill_taken(v, m - 1);
        let b = refill_taken(v, m);
        refill_events(v, m - 1)
            + (if a <= v.draw_pile.len() < b { seq![EventView::DrawPileReshuffledFromDiscard] } else { Seq::empty() })
            + (if b > a { seq![EventView::HandRefilled { player: (m - 1) as usize, drawn: (b - a) as usize }] } else { Seq::empty() })
    }
}

/// The refill hands out no more than both piles hold, in seat order.
pub proof fn lemma_refill_taken(v: GameView, q: int)
    requires
        0 <= q,
    ensures
        0 <= refill_taken(v, q) <= v.draw_pile.len() + v.discard_pile.len(),
        refill_taken(v, q) <= refill_taken(v, q + 1),
    decreases q,
{
    if q > 0 {
        lemma_refill_taken(v, q - 1);
    }
    assert(refill_need(v, q) >= 0);
}

/// The refill from `v` part of the way to `w`: the seats before `p` are
/// done, seat `p` has drawn up to card `t` of the drawing order, the seats
/// after it are untouched, the piles hold what was not drawn, and `evs`
/// reports the finished seats and a reshuffle seat `p`'s draws ran into.
pub open spec fn refill_progress(v: GameView, w: GameView, evs: Seq<EventView>, p: int, t: int, sh: Seq<CardId>) -> bool {
    let d = v.draw_pile;
    let n = v.players.len() as int;
    let o = draw_order(d, sh);
    &&& 0 <= p <= n
    &&& refill_taken(v, p) <= t <= d.len() + v.discard_pile.len()
    &&& p < n ==> t - refill_taken(v, p) <= refill_need(v, p)
    &&& p == n ==> t == refill_taken(v, p)
    &&& sh.to_multiset() == v.discard_pile.to_multiset()
    &&& sh.len() == v.discard_pile.len()
    &&& w.players.len() == n
    &&& forall|q: int| 0 <= q < p ==> #[trigger] w.players[q] == crate::player::PlayerView {
        hand: v.players[q].hand + o.subrange(refill_taken(v, q), refill_taken(v, q + 1)),
        ..v.players[q]
    }
    &&& p < n ==> w.players[p] == crate::player::PlayerView {
        hand: v.players[p].hand + o.subrange(refill_taken(v, p), t),
        ..v.players[p]
    }
    &&& forall|q: int| p < q < n ==> #[trigger] w.players[q] == v.players[q]
    &&& t <= d.len() ==> w.draw_pile == d.take(d.len() - t) && w.discard_pile == v.discard_pile
    &&& t > d.len() ==> w.draw_pile == sh.take(sh.len() - (t - d.len())) && w.discard_pile == Seq::<CardId>::empty()
    &&& evs == refill_events(v, p) + (if refill_taken(v, p) <= d.len() < t {
        seq![EventView::DrawPileReshuffledFromDiscard]
    } else {
        Seq::empty()
    })
}

/// Before anything is drawn.
pub proof fn lemma_progress_start(v: GameView)
    ensures
        refill_progress(v, v, Seq::empty(), 0, 0, v.discard_pile),
{
    assert(v.draw_pile.take(v.draw_pile.len() as int) =~= v.draw_pile);
    if v.players.len() > 0 {
        assert(v.players[0].hand + draw_order(v.draw_pile, v.discard_pile).subrange(0, 0) =~= v.players[0].hand);
    }
    assert(refill_events(v, 0) + Seq::<EventView>::empty() =~= Seq::<EventView>::empty());
}

/// Seat `p` draws one more card, after reshuffling the discard pile into
/// `shuffled` if the draw pile is empty.
pub proof fn lemma_progress_draw(
    v: GameView,
    w: GameView,
    evs: Seq<EventView>,
    p: int,
    t: int,
    sh: Seq<CardId>,
    shuffled: Seq<CardId>,
    w2: GameView,
    evs2: Seq<EventView>,
    sh2: Seq<CardId>,
)
    requires
        refill_progress(v, w, evs, p, t, sh),
        p < v.players.len(),
        p <= usize::MAX,
        w.players[p].hand.len() < 5,
        w.draw_pile.len() > 0 || w.discard_pile.len() > 0,
        w.draw_pile.len() > 0 ==> evs2 == evs && sh2 == sh
            && w2 == crate::rules::with_player(crate::rules::with_draw(w, w.draw_pile.drop_last()), p as usize,
                crate::player::PlayerView { hand: w.players[p].hand.push(w.draw_pile.last()), ..w.players[p] }),
        w.draw_pile.len() == 0 ==> shuffled.to_multiset() == w.discard_pile.to_multiset()
            && shuffled.len() == w.discard_pile.len()
            && evs2 == evs.push(EventView::DrawPileReshuffledFromDiscard) && sh2 == shuffled
            && w2 == crate::rules::with_player(
                crate::rules::with_draw(crate::rules::with_discard(w, Seq::empty()), shuffled.drop_last()), p as usize,
                crate::player::PlayerView { hand: w.players[p].hand.push(shuffled.last()), ..w.players[p] }),
    ensures
        refill_progress(v, w2, evs2, p, t + 1, sh2),
{
    let d = v.draw_pile;
    let x = v.discard_pile;
    let tp = refill_taken(v, p);
    lemma_refill_taken(v, p);
    assert(draw_order(d, sh).len() == d.len() + sh.len());
    assert(draw_order(d, shuffled).len() == d.len() + shuffled.len());
    assert(t - tp < refill_need(v, p)) by {
        assert(w.players[p].hand.len() == v.players[p].hand.len() + (t - tp));
    };
    if w.draw_pile.len() > 0 {
        let o = draw_order(d, sh);
        if t < d.len() {
            assert(w.draw_pile == d.take(d.len() - t));
            assert(w.draw_pile.last() == o[t]);
            assert(w2.draw_pile =~= d.take(d.len() - (t + 1)));
        } else {
            assert(w.draw_pile == sh.take(sh.len() - (t - d.len())));
            assert(w.draw_pile.last() == o[t]);
            assert(w2.draw_pile =~= sh.take(sh.len() - (t + 1 - d.len())));
        }
        assert((p as usize) as int == p);
        assert(w.players[p].hand == v.players[p].hand + o.subrange(tp, t));
        assert(w2.players[p].hand == w.players[p].hand.push(o[t]));
        assert(w2.players[p].hand =~= v.players[p].hand + o.subrange(tp, t + 1));
        assert forall|q: int| 0 <= q < v.players.len() && q != p implies #[trigger] w2.players[q] == w.players[q] by {};
    } else {
        assert(t == d.len()) by {
            if t > d.len() {
                assert(w.draw_pile.len() == sh.len() - (t - d.len()));
            }
        };
        assert(w.discard_pile == x);
        let o = draw_order(d, sh);
        let o2 = draw_order(d, shuffled);
        vstd::seq_lib::lemma_multiset_commutative(x, x);
        assert(shuffled.to_multiset() == x.to_multiset());
        assert(shuffled.len() > 0);
        assert(shuffled.last() == o2[t]);
        assert(w2.draw_pile =~= shuffled.take(shuffled.len() - (t + 1 - d.len())));
        assert forall|a: int, b: int| 0 <= a <= b <= d.len() implies #[trigger] o.subrange(a, b) == o2.subrange(a, b) by {
            assert(o.subrange(a, b) =~= o2.subrange(a, b));
        };
        assert forall|q: int| 0 <= q < p implies #[trigger] w2.players[q] == crate::player::PlayerView {
            hand: v.players[q].hand + o2.subrange(refill_taken(v, q), refill_taken(v, q + 1)),
            ..v.players[q]
        } by {
            lemma_taken_mono(v, q, q + 1);
            lemma_taken_mono(v, q + 1, p);
            lemma_refill_taken(v, q);
            assert(w2.players[q] == w.players[q]);
            assert(w.players[q] == crate::player::PlayerView {
                hand: v.players[q].hand + o.subrange(refill_taken(v, q), refill_taken(v, q + 1)),
                ..v.players[q]
            });
            assert(o.subrange(refill_taken(v, q), refill_taken(v, q + 1)) == o2.subrange(refill_taken(v, q), refill_taken(v, q + 1)));
        };
        assert(o.subrange(tp, t) == o2.subrange(tp, t));
        assert((p as usize) as int == p);
        assert(w.players[p].hand == v.players[p].hand + o.subrange(tp, t));
        assert(w2.players[p].hand == w.players[p].hand.push(o2[t]));
        assert(w2.players[p].hand =~= v.players[p].hand + o2.subrange(tp, t + 1));
        assert forall|q: int| 0 <= q < v.players.len() && q != p implies #[trigger] w2.players[q] == w.players[q] by {};
        assert(evs2 =~= refill_events(v, p) + seq![EventView::DrawPileReshuffledFromDiscard]);
    }
}

/// Refills hand out more to later seats.
pub proof fn lemma_taken_mono(v: GameView, a: int, b: int)
    requires
        0 <= a <= b,
    ensures
        refill_taken(v, a) <= refill_taken(v, b),
    decreases b - a,
{
    if a < b {
        lemma_taken_mono(v, a, b - 1);
        lemma_refill_taken(v, b - 1);
    }
}

/// Seat `p` has drawn what it needs or all there was: it is done.
pub proof fn lemma_progress_seat_done(v: GameView, w: GameView, evs: Seq<EventView>, p: int, t: int, sh: Seq<CardId>)
    requires
        refill_progress(v, w, evs, p, t, sh),
        p < v.players.len(),
        p <= usize::MAX,
        w.players[p].hand.len() >= 5 || (w.draw_pile.len() == 0 && w.discard_pile.len() == 0),
    ensures
        t == refill_taken(v, p + 1),
        refill_progress(v, w,
            evs + (if t > refill_taken(v, p) {
                seq![EventView::HandRefilled { player: p as usize, drawn: (t - refill_taken(v, p)) as usize }]
            } else {
                Seq::empty()
            }), p + 1, t, sh),
{
    let d = v.draw_pile;
    let tp = refill_taken(v, p);
    lemma_refill_taken(v, p);
    assert(w.players[p].hand.len() == v.players[p].hand.len() + (t - tp));
    if !(w.players[p].hand.len() >= 5) {
        if t <= d.len() {
            assert(w.draw_pile.len() == d.len() - t);
        } else {
            assert(w.draw_pile.len() == sh.len() - (t - d.len()));
        }
    }
    assert(t == refill_taken(v, p + 1));
    let e = (if t > tp {
        seq![EventView::HandRefilled { player: p as usize, drawn: (t - tp) as usize }]
    } else {
        Seq::empty()
    });
    let r = (if tp <= d.len() < t { seq![EventView::DrawPileReshuffledFromDiscard] } else { Seq::<EventView>::empty() });
    assert(refill_events(v, p + 1) == refill_events(v, p) + r + e);
    assert(evs + e =~= refill_events(v, p + 1) + Seq::<EventView>::empty());
    if p + 1 < v.players.len() {
        assert(w.players[p + 1].hand + draw_order(d, sh).subrange(t, t) =~= w.players[p + 1].hand);
    }
}

/// All seats are done: the refill is complete.
pub proof fn lemma_progress_done(v: GameView, w: GameView, evs: Seq<EventView>, t: int, sh: Seq<CardId>)
    requires
        refill_progress(v, w, evs, v.players.len() as int, t, sh),
    ensures
        refill_result(v, w, sh),
        evs == refill_events(v, v.players.len() as int),
{
    let n = v.players.len() as int;
    assert(evs =~= refill_events(v, n));
}

/// The creature trade-in and then the refill from `v`: `fin`'s collections
/// and point tokens are those the creature trade-in leaves, hands only
/// grew, the reports are the creature trade-in's, then only refill and
/// game-over reports, and without a reshuffle the cards drawn came off the
/// end of the draw pile.
pub open spec fn creatures_then_refill(v: GameView, fin: GameView, evs: Seq<EventView>) -> bool {
    let ct = creature_trade(v);
    &&& hands_grew(ct.0, fin)
    &&& forall|q: int| 0 <= q < fin.players.len() ==> (#[trigger] fin.players[q]).collection == ct.0.players[q].collection
        && fin.players[q].point_tokens == ct.0.players[q].point_tokens
    &&& evs.len() >= ct.1.len()
    &&& evs.take(ct.1.len() as int) == ct.1
    &&& forall|i: int| ct.1.len() <= i < evs.len() ==> refill_report(#[trigger] evs[i])
    &&& drawn_from_top(ct.0, fin, evs.skip(ct.1.len() as int))
    &&& exists|sh: Seq<CardId>| refill_result(ct.0, fin, sh)
    &&& evs.skip(ct.1.len() as int) == refill_events(ct.0, ct.0.players.len() as int) + match fin.phase {
        PhaseView::GameOver { winner } => seq![EventView::GameOver { winner }],
        _ => Seq::empty(),
    }
}

/// The end of a turn from `mid`, reporting `evs`: the nasty trade-in; if it
/// waits for a beneficiary, that is all; otherwise the creature trade-in
/// and the refill follow.
pub open spec fn turn_end_exact(mid: GameView, fin: GameView, evs: Seq<EventView>) -> bool {
    let nt = nasty_trade(mid);
    if nt.2 {
        fin == nt.0 && evs == nt.1
    } else {
        &&& evs.len() >= nt.1.len()
        &&& evs.take(nt.1.len() as int) == nt.1
        &&& creatures_then_refill(nt.0, fin, evs.skip(nt.1.len() as int))
    }
}

} // verus!
