//! Where the cards are: the multiset of card ids over every zone of the
//! game, and how each kind of move between zones leaves it as it was.

use vstd::prelude::*;
use vstd::multiset::Multiset;
use crate::card::{CardId, PlayerId};
use crate::deal::{DealCard, DealView, deal_ids, hidden_pile, lemma_hidden_pile};
use crate::game::{GameView, freshly_dealt, deck_ids};
use crate::deck::DeckConfig;
use crate::player::PlayerView;
use crate::rules::{
    award_all, give, remove_all, first_missing, with_player, with_deals, with_discard, with_hand, with_collection,
    reveal_in, remove_in, active_player_spec, submit_reject, submit_result, split_reject, split_result, split_deals,
    both_piles, bad_removal, removal_cards, removals_result, play_reject, play_result, effect_result, with_tokens,
    played_kind, awarded, resolve_reject, stolen, params_in_range, with_draw, reject, transition, action_ok,
    reveal_result, peek_result, peeked_card, pass_result, bought_by, responded_to, deal_holding, traded_in,
};
use crate::action::ActionView;
use crate::events::EventView;
use crate::phase::PhaseView;
use crate::action::ParamsView;
use crate::game::deal_index;
use crate::legal::all_deal_ids;
use crate::seqs::{all_distinct, remove_first};

verus! {

/// The ids one seat holds, hand and collection together.
pub open spec fn seat_ids(p: PlayerView) -> Multiset<CardId> {
    p.hand.to_multiset().add(p.collection.to_multiset())
}

/// The ids all the seats hold.
pub open spec fn seats_ids(ps: Seq<PlayerView>) -> Multiset<CardId>
    decreases ps.len(),
{
    if ps.len() == 0 {
        Multiset::empty()
    } else {
        seats_ids(ps.drop_last()).add(seat_ids(ps.last()))
    }
}

/// The ids lying in the deals on the table.
pub open spec fn table_ids(ds: Seq<DealView>) -> Multiset<CardId>
    decreases ds.len(),
{
    if ds.len() == 0 {
        Multiset::empty()
    } else {
        table_ids(ds.drop_last()).add(deal_ids(ds.last().cards).to_multiset())
    }
}

/// Every card id in play, over every zone: seats, deals and both piles.
pub open spec fn game_ids(v: GameView) -> Multiset<CardId> {
    seats_ids(v.players).add(table_ids(v.deals)).add(v.draw_pile.to_multiset()).add(v.discard_pile.to_multiset())
}

/// Every card is in exactly one place: no id is in play twice.
pub open spec fn ids_unique(v: GameView) -> bool {
    forall|c: CardId| #[trigger] game_ids(v).count(c) <= 1
}

/// Changing one seat's holdings changes the seats' ids by that seat's.
pub proof fn lemma_seats_ids_update(ps: Seq<PlayerView>, i: int, x: PlayerView)
    requires
        0 <= i < ps.len(),
    ensures
        seats_ids(ps.update(i, x)).add(seat_ids(ps[i])) =~= seats_ids(ps).add(seat_ids(x)),
    decreases ps.len(),
{
    broadcast use vstd::multiset::group_multiset_axioms;
    let u = ps.update(i, x);
    if i == ps.len() - 1 {
        assert(u.drop_last() =~= ps.drop_last());
        assert(u.last() == x);
        assert(seats_ids(u) == seats_ids(ps.drop_last()).add(seat_ids(x)));
        assert(seats_ids(ps) == seats_ids(ps.drop_last()).add(seat_ids(ps[i])));
    } else {
        lemma_seats_ids_update(ps.drop_last(), i, x);
        assert(u.drop_last() =~= ps.drop_last().update(i, x));
        assert(u.last() == ps.last());
        assert(seats_ids(u) == seats_ids(ps.drop_last().update(i, x)).add(seat_ids(ps.last())));
        assert(ps.drop_last()[i] == ps[i]);
    }
    assert forall|c: CardId| #[trigger] seats_ids(u).add(seat_ids(ps[i])).count(c) == seats_ids(ps).add(seat_ids(x)).count(c) by {
        if i < ps.len() - 1 {
            assert(seats_ids(ps.drop_last().update(i, x)).add(seat_ids(ps.drop_last()[i])).count(c)
                == seats_ids(ps.drop_last()).add(seat_ids(x)).count(c));
        }
    };
}

/// Changing one deal changes the table's ids by that deal's.
pub proof fn lemma_table_ids_update(ds: Seq<DealView>, i: int, x: DealView)
    requires
        0 <= i < ds.len(),
    ensures
        table_ids(ds.update(i, x)).add(deal_ids(ds[i].cards).to_multiset())
            =~= table_ids(ds).add(deal_ids(x.cards).to_multiset()),
    decreases ds.len(),
{
    broadcast use vstd::multiset::group_multiset_axioms;
    let u = ds.update(i, x);
    if i == ds.len() - 1 {
        assert(u.drop_last() =~= ds.drop_last());
        assert(u.last() == x);
        assert(table_ids(u) == table_ids(ds.drop_last()).add(deal_ids(x.cards).to_multiset()));
        assert(table_ids(ds) == table_ids(ds.drop_last()).add(deal_ids(ds[i].cards).to_multiset()));
    } else {
        lemma_table_ids_update(ds.drop_last(), i, x);
        assert(u.drop_last() =~= ds.drop_last().update(i, x));
        assert(u.last() == ds.last());
        assert(table_ids(u) == table_ids(ds.drop_last().update(i, x)).add(deal_ids(ds.last().cards).to_multiset()));
        assert(ds.drop_last()[i] == ds[i]);
    }
    assert forall|c: CardId| #[trigger] table_ids(u).add(deal_ids(ds[i].cards).to_multiset()).count(c)
        == table_ids(ds).add(deal_ids(x.cards).to_multiset()).count(c) by {
        if i < ds.len() - 1 {
            assert(table_ids(ds.drop_last().update(i, x)).add(deal_ids(ds.drop_last()[i].cards).to_multiset()).count(c)
                == table_ids(ds.drop_last()).add(deal_ids(x.cards).to_multiset()).count(c));
        }
    };
}

/// Laying deals down adds their ids to the table.
pub proof fn lemma_table_ids_add(ds: Seq<DealView>, es: Seq<DealView>)
    ensures
        table_ids(ds + es) =~= table_ids(ds).add(table_ids(es)),
    decreases es.len(),
{
    broadcast use vstd::multiset::group_multiset_axioms;
    if es.len() > 0 {
        lemma_table_ids_add(ds, es.drop_last());
        assert((ds + es).drop_last() =~= ds + es.drop_last());
    } else {
        assert(ds + es =~= ds);
    }
}

/// Handing deals out moves the table's ids to the seats.
pub proof fn lemma_award_ids(ps: Seq<PlayerView>, ds: Seq<DealView>, to: spec_fn(DealView) -> PlayerId)
    requires
        forall|i: int| 0 <= i < ds.len() ==> (#[trigger] to(ds[i])) < ps.len(),
    ensures
        seats_ids(award_all(ps, ds, to)) =~= seats_ids(ps).add(table_ids(ds)),
        award_all(ps, ds, to).len() == ps.len(),
    decreases ds.len(),
{
    broadcast use vstd::multiset::group_multiset_axioms;
    broadcast use vstd::seq_lib::lemma_multiset_commutative;
    if ds.len() > 0 {
        let init = ds.drop_last();
        assert forall|i: int| 0 <= i < init.len() implies (#[trigger] to(init[i])) < ps.len() by {
            assert(init[i] == ds[i]);
        };
        lemma_award_ids(ps, init, to);
        let qs = award_all(ps, init, to);
        let d = ds.last();
        let p = to(d);
        assert(to(ds[ds.len() - 1]) < ps.len());
        let old_seat = qs[p as int];
        let new_seat = PlayerView { collection: old_seat.collection.add(deal_ids(d.cards)), ..old_seat };
        assert(give(qs, p, deal_ids(d.cards)) == qs.update(p as int, new_seat));
        assert(award_all(ps, ds, to) == qs.update(p as int, new_seat));
        lemma_seats_ids_update(qs, p as int, new_seat);
        assert(seat_ids(new_seat) =~= seat_ids(old_seat).add(deal_ids(d.cards).to_multiset()));
        assert(table_ids(ds) == table_ids(init).add(deal_ids(d.cards).to_multiset()));
        assert forall|c: CardId| #[trigger] seats_ids(award_all(ps, ds, to)).count(c) == seats_ids(ps).add(table_ids(ds)).count(c) by {
            assert(seats_ids(qs).count(c) == seats_ids(ps).add(table_ids(init)).count(c));
            assert(seats_ids(qs.update(p as int, new_seat)).add(seat_ids(old_seat)).count(c)
                == seats_ids(qs).add(seat_ids(new_seat)).count(c));
        };
    } else {
        assert(table_ids(ds) == Multiset::<CardId>::empty());
    }
}

/// Taking the first copy of a card out of a list takes one copy out of
/// its ids.
pub proof fn lemma_remove_first_ids(s: Seq<CardId>, x: CardId)
    ensures
        s.contains(x) ==> remove_first(s, x).to_multiset().insert(x) =~= s.to_multiset(),
        !s.contains(x) ==> remove_first(s, x) == s,
{
    broadcast use vstd::multiset::group_multiset_axioms;
    broadcast use vstd::seq_lib::group_to_multiset_ensures;
    if s.contains(x) {
        s.index_of_first_ensures(x);
        let i = s.index_of_first(x)->0;
        assert(s.remove(i).to_multiset() == s.to_multiset().remove(s[i]));
    }
}

/// Taking out cards that a list holds, each once, takes their ids out.
pub proof fn lemma_remove_all_ids(s: Seq<CardId>, cards: Seq<CardId>)
    requires
        all_distinct(cards),
        first_missing(cards, s) is None,
    ensures
        remove_all(s, cards).to_multiset().add(cards.to_multiset()) =~= s.to_multiset(),
    decreases cards.len(),
{
    broadcast use vstd::multiset::group_multiset_axioms;
    broadcast use vstd::seq_lib::group_to_multiset_ensures;
    if cards.len() > 0 {
        let init = cards.drop_last();
        let x = cards.last();
        assert forall|a: int, b: int| 0 <= a < b < init.len() implies init[a] != init[b] by {
            assert(init[a] == cards[a] && init[b] == cards[b]);
        };
        assert(first_missing(init, s) is None);
        lemma_remove_all_ids(s, init);
        let r = remove_all(s, init);
        assert(s.contains(x));
        assert(!init.contains(x)) by {
            if init.contains(x) {
                let k = choose|k: int| 0 <= k < init.len() && init[k] == x;
                assert(cards[k] == cards[cards.len() - 1]);
            }
        };
        assert(init.to_multiset().count(x) == 0);
        assert(s.to_multiset().count(x) > 0);
        assert(r.to_multiset().count(x) > 0);
        assert(r.contains(x));
        lemma_remove_first_ids(r, x);
        assert(cards == init.push(x));
        assert(cards.to_multiset() =~= init.to_multiset().insert(x));
    }
}

/// A list whose ids occur at most once each holds no card twice.
pub proof fn lemma_unique_ids_distinct(s: Seq<CardId>)
    requires
        forall|c: CardId| #[trigger] s.to_multiset().count(c) <= 1,
    ensures
        all_distinct(s),
{
    broadcast use vstd::multiset::group_multiset_axioms;
    broadcast use vstd::seq_lib::group_to_multiset_ensures;
    assert forall|c: CardId| s.to_multiset().contains(c) implies s.to_multiset().count(c) == 1 by {
        assert(s.to_multiset().count(c) <= 1);
    };
    s.lemma_multiset_has_no_duplicates_conv();
    assert forall|i: int, j: int| 0 <= i < j < s.len() implies s[i] != s[j] by {};
}


/// One seat's holdings replaced: the ids in play change by that seat's.
pub proof fn lemma_ids_with_player(v: GameView, p: PlayerId, x: PlayerView)
    requires
        p < v.players.len(),
    ensures
        forall|c: CardId| #[trigger] game_ids(with_player(v, p, x)).count(c) + seat_ids(v.players[p as int]).count(c)
            == game_ids(v).count(c) + seat_ids(x).count(c),
{
    broadcast use vstd::multiset::group_multiset_axioms;
    lemma_seats_ids_update(v.players, p as int, x);
    let w = with_player(v, p, x);
    assert forall|c: CardId| #[trigger] game_ids(w).count(c) + seat_ids(v.players[p as int]).count(c)
        == game_ids(v).count(c) + seat_ids(x).count(c) by {
        assert(seats_ids(w.players).add(seat_ids(v.players[p as int])).count(c)
            == seats_ids(v.players).add(seat_ids(x)).count(c));
    };
}

/// One deal replaced: the ids in play change by that deal's.
pub proof fn lemma_ids_with_deal(v: GameView, i: int, d: DealView)
    requires
        0 <= i < v.deals.len(),
    ensures
        forall|c: CardId| #[trigger] game_ids(with_deals(v, v.deals.update(i, d))).count(c)
            + deal_ids(v.deals[i].cards).to_multiset().count(c)
            == game_ids(v).count(c) + deal_ids(d.cards).to_multiset().count(c),
{
    broadcast use vstd::multiset::group_multiset_axioms;
    lemma_table_ids_update(v.deals, i, d);
    let w = with_deals(v, v.deals.update(i, d));
    assert forall|c: CardId| #[trigger] game_ids(w).count(c) + deal_ids(v.deals[i].cards).to_multiset().count(c)
        == game_ids(v).count(c) + deal_ids(d.cards).to_multiset().count(c) by {
        assert(table_ids(w.deals).add(deal_ids(v.deals[i].cards).to_multiset()).count(c)
            == table_ids(v.deals).add(deal_ids(d.cards).to_multiset()).count(c));
    };
}

/// Deals laid down: the ids in play grow by theirs.
pub proof fn lemma_ids_add_deals(v: GameView, es: Seq<DealView>)
    ensures
        forall|c: CardId| #[trigger] game_ids(with_deals(v, v.deals + es)).count(c)
            == game_ids(v).count(c) + table_ids(es).count(c),
{
    broadcast use vstd::multiset::group_multiset_axioms;
    lemma_table_ids_add(v.deals, es);
}

/// A card put on the discard pile: the ids in play grow by it.
pub proof fn lemma_ids_discard_push(v: GameView, x: CardId)
    ensures
        forall|c: CardId| #[trigger] game_ids(with_discard(v, v.discard_pile.push(x))).count(c)
            == game_ids(v).count(c) + (if c == x { 1int } else { 0int }),
{
    broadcast use vstd::multiset::group_multiset_axioms;
    broadcast use vstd::seq_lib::group_to_multiset_ensures;
}

/// A deal's ids after one of its cards is turned face up are its ids.
pub proof fn lemma_reveal_ids(d: DealView, card: CardId)
    requires
        deal_ids(d.cards).contains(card),
    ensures
        deal_ids(reveal_in(d, card).cards) == deal_ids(d.cards),
{
    deal_ids(d.cards).index_of_first_ensures(card);
    let k = deal_ids(d.cards).index_of_first(card)->0;
    assert(deal_ids(reveal_in(d, card).cards) =~= deal_ids(d.cards));
}

/// The ids of a single deal on the table.
proof fn lemma_table_ids_single(d: DealView)
    ensures
        table_ids(seq![d]) =~= deal_ids(d.cards).to_multiset(),
        table_ids(Seq::<DealView>::empty()) =~= Multiset::<CardId>::empty(),
{
    broadcast use vstd::multiset::group_multiset_axioms;
    broadcast use vstd::seq_lib::group_to_multiset_ensures;
    assert(seq![d].drop_last() =~= Seq::<DealView>::empty());
    assert(seq![d].last() == d);
    assert forall|c: CardId| #[trigger] table_ids(seq![d]).count(c) == deal_ids(d.cards).to_multiset().count(c) by {
        assert(table_ids(seq![d]) == table_ids(Seq::<DealView>::empty()).add(deal_ids(d.cards).to_multiset()));
    };
}

/// The ids of a pile laid down as a deal when it is not empty.
proof fn lemma_pile_ids(a: Seq<DealView>, seller: PlayerId, pile: Seq<CardId>)
    requires
        a == (if pile.len() > 0 { seq![DealView { seller, cards: hidden_pile(pile) }] } else { Seq::empty() }),
    ensures
        table_ids(a) =~= pile.to_multiset(),
{
    broadcast use vstd::multiset::group_multiset_axioms;
    broadcast use vstd::seq_lib::group_to_multiset_ensures;
    lemma_table_ids_single(DealView { seller, cards: hidden_pile(pile) });
    lemma_hidden_pile(pile);
    if pile.len() == 0 {
        assert(pile =~= Seq::<CardId>::empty());
        assert(pile.to_multiset().len() == 0);
        assert forall|c: CardId| #[trigger] table_ids(a).count(c) == pile.to_multiset().count(c) by {
            assert(pile.to_multiset().count(c) <= pile.to_multiset().len());
        };
    }
}

/// Every field the ids in play are read from.
pub open spec fn same_places(a: GameView, b: GameView) -> bool {
    &&& a.players == b.players
    &&& a.deals == b.deals
    &&& a.draw_pile == b.draw_pile
    &&& a.discard_pile == b.discard_pile
}

/// A seat's hand with the first copy of `x` taken out.
proof fn lemma_hand_less(v: GameView, p: PlayerId, h: Seq<CardId>)
    requires
        p < v.players.len(),
    ensures
        forall|c: CardId| #[trigger] game_ids(with_hand(v, p, h)).count(c) + v.hand(p).to_multiset().count(c)
            == game_ids(v).count(c) + h.to_multiset().count(c),
{
    broadcast use vstd::multiset::group_multiset_axioms;
    let x = PlayerView { hand: h, ..v.players[p as int] };
    lemma_ids_with_player(v, p, x);
}

/// A seat's collection replaced.
proof fn lemma_collection_less(v: GameView, p: PlayerId, k: Seq<CardId>)
    requires
        p < v.players.len(),
    ensures
        forall|c: CardId| #[trigger] game_ids(with_collection(v, p, k)).count(c) + v.collection(p).to_multiset().count(c)
            == game_ids(v).count(c) + k.to_multiset().count(c),
{
    broadcast use vstd::multiset::group_multiset_axioms;
    let x = PlayerView { collection: k, ..v.players[p as int] };
    lemma_ids_with_player(v, p, x);
}

/// An accepted buyer-mode submission moves the cards from the hand to a
/// new deal.
pub proof fn lemma_submit_ids(v: GameView, player: PlayerId, cards: Seq<CardId>)
    requires
        v.wf(),
        active_player_spec(v) == Some(player),
        submit_reject(v, player, cards) is None,
    ensures
        game_ids(submit_result(v, player, cards)) =~= game_ids(v),
{
    broadcast use vstd::multiset::group_multiset_axioms;
    let h = v.hand(player);
    let v1 = with_hand(v, player, remove_all(h, cards));
    let d = DealView { seller: player, cards: hidden_pile(cards) };
    let w = submit_result(v, player, cards);
    assert(player < v.players.len());
    lemma_remove_all_ids(h, cards);
    lemma_hand_less(v, player, remove_all(h, cards));
    lemma_ids_add_deals(v1, seq![d]);
    lemma_hidden_pile(cards);
    assert(v1.deals + seq![d] =~= v.deals.push(d));
    assert(same_places(w, with_deals(v1, v1.deals + seq![d])));
    lemma_table_ids_single(d);
    assert forall|c: CardId| #[trigger] game_ids(w).count(c) == game_ids(v).count(c) by {
        assert(game_ids(w).count(c) == game_ids(with_deals(v1, v1.deals + seq![d])).count(c));
        assert(game_ids(with_hand(v, player, remove_all(h, cards))).count(c) + h.to_multiset().count(c)
            == game_ids(v).count(c) + remove_all(h, cards).to_multiset().count(c));
    };
}

/// An accepted two-player split moves the cards from the hand to the
/// piles.
pub proof fn lemma_split_ids(v: GameView, player: PlayerId, own: Seq<CardId>, other: Seq<CardId>)
    requires
        v.wf(),
        active_player_spec(v) == Some(player),
        split_reject(v, player, own, other) is None,
    ensures
        game_ids(split_result(v, player, own, other)) =~= game_ids(v),
{
    broadcast use vstd::multiset::group_multiset_axioms;
    broadcast use vstd::seq_lib::lemma_multiset_commutative;
    let h = v.hand(player);
    let all = both_piles(own, other);
    let v1 = with_hand(v, player, remove_all(h, all));
    let es = split_deals(player, own, other);
    let w = split_result(v, player, own, other);
    assert(player < v.players.len());
    lemma_remove_all_ids(h, all);
    lemma_hand_less(v, player, remove_all(h, all));
    lemma_ids_add_deals(v1, es);
    lemma_hidden_pile(own);
    lemma_hidden_pile(other);
    assert(same_places(w, with_deals(v1, v1.deals + es)));
    let a = if own.len() > 0 { seq![DealView { seller: player, cards: hidden_pile(own) }] } else { Seq::empty() };
    let b = if other.len() > 0 {
        seq![DealView { seller: (1 - player) as PlayerId, cards: hidden_pile(other) }]
    } else {
        Seq::empty()
    };
    assert(es == a + b);
    lemma_table_ids_add(a, b);
    lemma_table_ids_single(DealView { seller: player, cards: hidden_pile(own) });
    lemma_table_ids_single(DealView { seller: (1 - player) as PlayerId, cards: hidden_pile(other) });
    lemma_pile_ids(a, player, own);
    lemma_pile_ids(b, (1 - player) as PlayerId, other);
    assert forall|c: CardId| #[trigger] game_ids(w).count(c) == game_ids(v).count(c) by {
        assert(game_ids(w).count(c) == game_ids(with_deals(v1, v1.deals + es)).count(c));
        assert(game_ids(with_hand(v, player, remove_all(h, all))).count(c) + h.to_multiset().count(c)
            == game_ids(v).count(c) + remove_all(h, all).to_multiset().count(c));
        assert(all.to_multiset() =~= own.to_multiset().add(other.to_multiset()));
    };
}

/// Turning a card of deal `i` face up moves nothing.
pub proof fn lemma_reveal_in_ids(v: GameView, i: int, card: CardId)
    requires
        0 <= i < v.deals.len(),
        deal_ids(v.deals[i].cards).contains(card),
    ensures
        game_ids(with_deals(v, v.deals.update(i, reveal_in(v.deals[i], card)))) =~= game_ids(v),
{
    broadcast use vstd::multiset::group_multiset_axioms;
    lemma_reveal_ids(v.deals[i], card);
    lemma_ids_with_deal(v, i, reveal_in(v.deals[i], card));
    assert forall|c: CardId| #[trigger] game_ids(with_deals(v, v.deals.update(i, reveal_in(v.deals[i], card)))).count(c)
        == game_ids(v).count(c) by {};
}

/// Taking a card out of deal `i` and discarding it moves it to the
/// discard pile.
pub proof fn lemma_remove_in_ids(v: GameView, i: int, card: CardId)
    requires
        0 <= i < v.deals.len(),
        deal_ids(v.deals[i].cards).contains(card),
    ensures
        game_ids(with_discard(with_deals(v, v.deals.update(i, remove_in(v.deals[i], card))), v.discard_pile.push(card)))
            =~= game_ids(v),
{
    broadcast use vstd::multiset::group_multiset_axioms;
    broadcast use vstd::seq_lib::group_to_multiset_ensures;
    let d = v.deals[i];
    let ids = deal_ids(d.cards);
    ids.index_of_first_ensures(card);
    let k = ids.index_of_first(card)->0;
    assert(deal_ids(remove_in(d, card).cards) =~= ids.remove(k));
    assert(ids.remove(k).to_multiset() == ids.to_multiset().remove(ids[k]));
    let v1 = with_deals(v, v.deals.update(i, remove_in(d, card)));
    lemma_ids_with_deal(v, i, remove_in(d, card));
    lemma_ids_discard_push(v1, card);
    assert forall|c: CardId| #[trigger] game_ids(with_discard(v1, v1.discard_pile.push(card))).count(c)
        == game_ids(v).count(c) by {
        assert(game_ids(v1).count(c) + ids.to_multiset().count(c) == game_ids(v).count(c)
            + deal_ids(remove_in(d, card).cards).to_multiset().count(c));
    };
}

/// Thingamabob removals move each removed card from its deal to the
/// discard pile.
pub proof fn lemma_removals_ids(v: GameView, rs: Seq<(PlayerId, CardId)>)
    requires
        bad_removal(v, rs) is None,
        all_distinct(removal_cards(rs)),
    ensures
        game_ids(removals_result(v, rs)) =~= game_ids(v),
    decreases rs.len(),
{
    if rs.len() > 0 {
        let init = rs.drop_last();
        assert(removal_cards(init) =~= removal_cards(rs).drop_last());
        assert forall|a: int, b: int| 0 <= a < b < removal_cards(init).len() implies removal_cards(init)[a] != removal_cards(init)[b] by {
            assert(removal_cards(rs)[a] != removal_cards(rs)[b]);
        };
        lemma_removals_ids(v, init);
        crate::turn::lemma_removals_frame(v, init);
        let w = removals_result(v, init);
        let (s, c) = rs.last();
        assert(w.deals.map_values(|d: DealView| d.seller) =~= v.deals.map_values(|d: DealView| d.seller));
        let i = deal_index(w.deals, s)->0;
        crate::turn::lemma_deal_index(v.deals, s);
        assert(removal_cards(rs)[rs.len() - 1] == c);
        assert(!removal_cards(init).contains(c)) by {
            if removal_cards(init).contains(c) {
                let k = choose|k: int| 0 <= k < removal_cards(init).len() && removal_cards(init)[k] == c;
                assert(removal_cards(rs)[k] == removal_cards(rs)[rs.len() - 1]);
            }
        };
        assert(deal_ids(w.deals[i].cards).contains(c));
        lemma_remove_in_ids(w, i, c);
        assert(removals_result(v, rs) == with_discard(with_deals(w, w.deals.update(i, remove_in(w.deals[i], c))), w.discard_pile.push(c)));
    }
}

/// An accepted thingamabob play moves only the cards its effect names
/// and the played card itself, which is discarded.
pub proof fn lemma_play_ids(v: GameView, player: PlayerId, card: CardId, params: ParamsView)
    requires
        v.wf(),
        player < v.num_players,
        params_in_range(v, params),
        play_reject(v, player, card, params) is None,
    ensures
        game_ids(play_result(v, player, card, params)) =~= game_ids(v),
{
    broadcast use vstd::multiset::group_multiset_axioms;
    let w = effect_result(v, player, params);
    match params {
        ParamsView::PlatonicIsolator { target_player } => {
            let v1 = with_tokens(v, target_player, (v.tokens(target_player) - 1) as u32);
            lemma_ids_with_player(v, target_player, PlayerView { point_tokens: (v.tokens(target_player) - 1) as u32, ..v.players[target_player as int] });
            lemma_ids_with_player(v1, player, PlayerView { point_tokens: (v.tokens(player) + 1) as u32, ..v1.players[player as int] });
            assert forall|c: CardId| #[trigger] game_ids(w).count(c) == game_ids(v).count(c) by {
                assert(game_ids(v1).count(c) == game_ids(v).count(c));
            };
        },
        ParamsView::RemoveFromDeals { removals } => {
            lemma_removals_ids(v, removals);
        },
        ParamsView::CryptozooticExpander { hand_card, target_deal } => {
            let h = v.hand(player);
            let v1 = with_hand(v, player, remove_first(h, hand_card));
            crate::turn::lemma_deal_index(v.deals, target_deal);
            let i = deal_index(v.deals, target_deal)->0;
            let d = v.deals[i];
            let d2 = DealView { cards: d.cards.push(DealCard { card: hand_card, revealed: false }), ..d };
            lemma_remove_first_ids(h, hand_card);
            lemma_hand_less(v, player, remove_first(h, hand_card));
            lemma_ids_with_deal(v1, i, d2);
            assert(w == with_deals(v1, v1.deals.update(i, d2)));
            assert(deal_ids(d2.cards) =~= deal_ids(d.cards).push(hand_card));
            assert forall|c: CardId| #[trigger] game_ids(w).count(c) == game_ids(v).count(c) by {
                broadcast use vstd::seq_lib::group_to_multiset_ensures;
                assert(game_ids(v1).count(c) + h.to_multiset().count(c) == game_ids(v).count(c)
                    + remove_first(h, hand_card).to_multiset().count(c));
                assert(game_ids(w).count(c) + deal_ids(d.cards).to_multiset().count(c)
                    == game_ids(v1).count(c) + deal_ids(d2.cards).to_multiset().count(c));
            };
        },
        ParamsView::SpectroelectricOptimeter { target_deal, target_card } => {
            crate::turn::lemma_deal_index(v.deals, target_deal);
            let i = deal_index(v.deals, target_deal)->0;
            crate::deal::lemma_hidden_ids_member(v.deals[i].cards, target_card);
            let m = choose|m: int| 0 <= m < v.deals[i].cards.len() && v.deals[i].cards[m].card == target_card
                && !v.deals[i].cards[m].revealed;
            assert(deal_ids(v.deals[i].cards)[m] == target_card);
            lemma_reveal_in_ids(v, i, target_card);
        },
    }
    assert(w.collection(player) == v.collection(player) && w.players.len() == v.players.len()) by {
        match params {
            ParamsView::RemoveFromDeals { removals } => {
                crate::turn::lemma_removals_frame(v, removals);
            },
            ParamsView::PlatonicIsolator { target_player } => {
                let v1 = with_tokens(v, target_player, (v.tokens(target_player) - 1) as u32);
                assert(v1.players[player as int].collection == v.players[player as int].collection);
            },
            _ => {},
        }
    };
    let coll = w.collection(player);
    let w1 = with_collection(w, player, remove_first(coll, card));
    let fin = play_result(v, player, card, params);
    lemma_remove_first_ids(coll, card);
    lemma_collection_less(w, player, remove_first(coll, card));
    lemma_ids_discard_push(w1, card);
    assert(same_places(fin, with_discard(w1, w1.discard_pile.push(card))));
    assert forall|c: CardId| #[trigger] game_ids(fin).count(c) == game_ids(v).count(c) by {
        broadcast use vstd::seq_lib::group_to_multiset_ensures;
        assert(game_ids(fin).count(c) == game_ids(with_discard(w1, w1.discard_pile.push(card))).count(c));
        assert(game_ids(w1).count(c) + coll.to_multiset().count(c) == game_ids(w).count(c)
            + remove_first(coll, card).to_multiset().count(c));
        assert(game_ids(w).count(c) == game_ids(v).count(c));
    };
}

/// Handing the deals out moves their cards into the seats' collections.
pub proof fn lemma_awarded_ids(v: GameView, to: spec_fn(DealView) -> PlayerId, leader: PlayerId)
    requires
        forall|i: int| 0 <= i < v.deals.len() ==> (#[trigger] to(v.deals[i])) < v.players.len(),
    ensures
        game_ids(awarded(v, to, leader)) =~= game_ids(v),
{
    broadcast use vstd::multiset::group_multiset_axioms;
    lemma_award_ids(v.players, v.deals, to);
    lemma_table_ids_single(DealView { seller: 0, cards: Seq::empty() });
    let w = awarded(v, to, leader);
    assert forall|c: CardId| #[trigger] game_ids(w).count(c) == game_ids(v).count(c) by {
        assert(seats_ids(w.players).count(c) == seats_ids(v.players).add(table_ids(v.deals)).count(c));
    };
}

/// The beneficiary's steal moves the taken cards from the loser's
/// collection to theirs.
pub proof fn lemma_stolen_ids(v: GameView, player: PlayerId, taken: Seq<CardId>)
    requires
        v.wf(),
        player < v.num_players,
        v.phase is NastyResolution,
        resolve_reject(v, taken) is None,
    ensures
        game_ids(stolen(v, player, taken)) =~= game_ids(v),
{
    broadcast use vstd::multiset::group_multiset_axioms;
    broadcast use vstd::seq_lib::lemma_multiset_commutative;
    let loser = v.phase->NastyResolution_pending.player;
    let k = v.collection(loser);
    let v1 = with_collection(v, loser, remove_all(k, taken));
    let k1 = v1.collection(player);
    let w = stolen(v, player, taken);
    lemma_remove_all_ids(k, taken);
    lemma_collection_less(v, loser, remove_all(k, taken));
    lemma_collection_less(v1, player, k1.add(taken));
    assert forall|c: CardId| #[trigger] game_ids(w).count(c) == game_ids(v).count(c) by {
        assert(game_ids(v1).count(c) + k.to_multiset().count(c) == game_ids(v).count(c)
            + remove_all(k, taken).to_multiset().count(c));
        assert(game_ids(w).count(c) + k1.to_multiset().count(c) == game_ids(v1).count(c)
            + k1.add(taken).to_multiset().count(c));
        assert((k1 + taken).to_multiset() =~= k1.to_multiset().add(taken.to_multiset()));
    };
}

/// A collected card moved to the discard pile.
pub proof fn lemma_discard_at_ids(v: GameView, p: PlayerId, i: int)
    requires
        p < v.players.len(),
        0 <= i < v.collection(p).len(),
    ensures
        game_ids(with_discard(with_collection(v, p, v.collection(p).remove(i)), v.discard_pile.push(v.collection(p)[i])))
            == game_ids(v),
{
    broadcast use vstd::multiset::group_multiset_axioms;
    broadcast use vstd::seq_lib::group_to_multiset_ensures;
    let k = v.collection(p);
    let x = k[i];
    let v1 = with_collection(v, p, k.remove(i));
    lemma_collection_less(v, p, k.remove(i));
    lemma_ids_discard_push(v1, x);
    assert(k.remove(i).to_multiset() == k.to_multiset().remove(x));
    assert forall|c: CardId| #[trigger] game_ids(with_discard(v1, v1.discard_pile.push(x))).count(c) == game_ids(v).count(c) by {
        assert(game_ids(v1).count(c) + k.to_multiset().count(c) == game_ids(v).count(c) + k.remove(i).to_multiset().count(c));
    };
    assert(game_ids(with_discard(v1, v1.discard_pile.push(x))) =~= game_ids(v));
}

/// Point tokens changing hands moves no card.
pub proof fn lemma_tokens_ids(v: GameView, p: PlayerId, t: u32)
    requires
        p < v.players.len(),
    ensures
        game_ids(with_tokens(v, p, t)) == game_ids(v),
{
    broadcast use vstd::multiset::group_multiset_axioms;
    lemma_ids_with_player(v, p, PlayerView { point_tokens: t, ..v.players[p as int] });
    assert forall|c: CardId| #[trigger] game_ids(with_tokens(v, p, t)).count(c) == game_ids(v).count(c) by {};
    assert(game_ids(with_tokens(v, p, t)) =~= game_ids(v));
}

/// The top card of the draw pile drawn into a hand.
pub proof fn lemma_draw_ids(v: GameView, p: PlayerId)
    requires
        p < v.players.len(),
        v.draw_pile.len() > 0,
    ensures
        game_ids(with_player(with_draw(v, v.draw_pile.drop_last()), p,
            PlayerView { hand: v.hand(p).push(v.draw_pile.last()), ..v.players[p as int] })) == game_ids(v),
{
    broadcast use vstd::multiset::group_multiset_axioms;
    broadcast use vstd::seq_lib::group_to_multiset_ensures;
    let d = v.draw_pile;
    let x = d.last();
    let v1 = with_draw(v, d.drop_last());
    let seat = PlayerView { hand: v.hand(p).push(x), ..v.players[p as int] };
    lemma_ids_with_player(v1, p, seat);
    assert(d.drop_last().push(x) =~= d);
    assert forall|c: CardId| #[trigger] game_ids(with_player(v1, p, seat)).count(c) == game_ids(v).count(c) by {
        assert(d.to_multiset() =~= d.drop_last().to_multiset().insert(x));
        assert(v.hand(p).push(x).to_multiset() =~= v.hand(p).to_multiset().insert(x));
    };
    assert(game_ids(with_player(v1, p, seat)) =~= game_ids(v));
}

/// The discard pile reshuffled into an empty draw pile.
pub proof fn lemma_reshuffle_ids(v: GameView, pile: Seq<CardId>)
    requires
        v.draw_pile.len() == 0,
        pile.to_multiset() == v.discard_pile.to_multiset(),
    ensures
        game_ids(with_draw(with_discard(v, Seq::empty()), pile)) == game_ids(v),
{
    broadcast use vstd::multiset::group_multiset_axioms;
    broadcast use vstd::seq_lib::group_to_multiset_ensures;
    assert(v.draw_pile =~= Seq::<CardId>::empty());
    assert(v.draw_pile.to_multiset().len() == 0);
    assert(Seq::<CardId>::empty().to_multiset().len() == 0);
    assert forall|c: CardId| #[trigger] game_ids(with_draw(with_discard(v, Seq::empty()), pile)).count(c) == game_ids(v).count(c) by {
        assert(v.draw_pile.to_multiset().count(c) <= v.draw_pile.to_multiset().len());
        assert(Seq::<CardId>::empty().to_multiset().count(c) <= Seq::<CardId>::empty().to_multiset().len());
    };
    assert(game_ids(with_draw(with_discard(v, Seq::empty()), pile)) =~= game_ids(v));
}


/// The seat to act is at the table.
pub proof fn lemma_active_in_range(v: GameView)
    requires
        v.wf(),
    ensures
        active_player_spec(v) matches Some(p) ==> p < v.num_players,
{
    match v.phase {
        PhaseView::ThingamabobWindow { order, turn_idx, .. } => {
            assert(order[turn_idx as int % order.len() as int] < v.num_players);
        },
        _ => {},
    }
}

/// An accepted action keeps every card id in play exactly once as often
/// as before: it only moves cards between hands, collections, deals and
/// the two piles.
pub proof fn lemma_transition_ids(v: GameView, player: PlayerId, a: ActionView, w: GameView, evs: Seq<EventView>)
    requires
        v.wf(),
        action_ok(v, a),
        reject(v, player, a) is None,
        transition(v, player, a, w, evs),
    ensures
        game_ids(w) == game_ids(v),
{
    broadcast use vstd::multiset::group_multiset_axioms;
    lemma_active_in_range(v);
    match a {
        ActionView::SubmitDeal { cards } => {
            lemma_submit_ids(v, player, cards);
        },
        ActionView::TwoPlayerSubmitDeal { own_pile, other_pile } => {
            lemma_split_ids(v, player, own_pile, other_pile);
        },
        ActionView::RevealCard { card } => {
            let i = match v.phase {
                PhaseView::DealOffer { .. } => deal_index(v.deals, player)->0,
                _ => deal_holding(v.deals, card)->0,
            };
            match v.phase {
                PhaseView::DealOffer { .. } => {
                    crate::turn::lemma_deal_index(v.deals, player);
                },
                _ => {
                    crate::turn::lemma_deal_holding(v.deals, card);
                },
            }
            lemma_reveal_in_ids(v, i, card);
            assert(same_places(w, with_deals(v, v.deals.update(i, reveal_in(v.deals[i], card)))));
        },
        ActionView::BuyerPeek { target_seller } => {
            let i = deal_index(v.deals, target_seller)->0;
            let k = choose|k: int| 0 <= k < crate::deal::hidden_ids(v.deals[i].cards).len()
                && w == peek_result(v, target_seller, k)
                && evs == seq![EventView::BuyerPeeked { target_seller, card: peeked_card(v, target_seller, k) }];
            let c = peeked_card(v, target_seller, k);
            crate::turn::lemma_deal_index(v.deals, target_seller);
            crate::deal::lemma_hidden_ids_member(v.deals[i].cards, c);
            let m = choose|m: int| 0 <= m < v.deals[i].cards.len() && v.deals[i].cards[m].card == c
                && !v.deals[i].cards[m].revealed;
            assert(deal_ids(v.deals[i].cards)[m] == c);
            lemma_reveal_in_ids(v, i, c);
            assert(same_places(w, with_deals(v, v.deals.update(i, reveal_in(v.deals[i], c)))));
        },
        ActionView::PlayThingamabob { card, params } => {
            lemma_play_ids(v, player, card, params);
        },
        ActionView::PassThingamabobWindow => {
            assert(same_places(w, v));
        },
        ActionView::ChooseDeal { seller } => {
            let to = bought_by(v.turn_leader, seller);
            assert forall|i: int| 0 <= i < v.deals.len() implies (#[trigger] to(v.deals[i])) < v.players.len() by {
                assert(v.deals[i].seller < v.num_players);
            };
            lemma_awarded_ids(v, to, seller);
        },
        ActionView::RespondToDeal { reverse } => {
            let to = responded_to(reverse);
            assert forall|i: int| 0 <= i < v.deals.len() implies (#[trigger] to(v.deals[i])) < v.players.len() by {
                assert(v.deals[i].seller < v.num_players);
            };
            lemma_awarded_ids(v, to, (1 - v.turn_leader) as PlayerId);
        },
        ActionView::ResolveNastyPenalty { taken_cards } => {
            lemma_stolen_ids(v, player, taken_cards);
        },
    }
}

/// One seat's ids are among the seats' ids.
proof fn lemma_seat_in_seats(ps: Seq<PlayerView>, i: int)
    requires
        0 <= i < ps.len(),
    ensures
        forall|c: CardId| #[trigger] seat_ids(ps[i]).count(c) <= seats_ids(ps).count(c),
    decreases ps.len(),
{
    broadcast use vstd::multiset::group_multiset_axioms;
    if i < ps.len() - 1 {
        lemma_seat_in_seats(ps.drop_last(), i);
        assert(ps.drop_last()[i] == ps[i]);
    }
}

/// The table's ids are the ids of every deal, deal by deal.
proof fn lemma_table_ids_list(ds: Seq<DealView>)
    ensures
        table_ids(ds) =~= all_deal_ids(ds).to_multiset(),
    decreases ds.len(),
{
    broadcast use vstd::multiset::group_multiset_axioms;
    broadcast use vstd::seq_lib::group_to_multiset_ensures;
    if ds.len() > 0 {
        lemma_table_ids_list(ds.drop_last());
        vstd::seq_lib::lemma_multiset_commutative(all_deal_ids(ds.drop_last()), deal_ids(ds.last().cards));
    } else {
        assert(all_deal_ids(ds) =~= Seq::<CardId>::empty());
    }
}

/// Where each card is in play once, no hand, no collection and no part of
/// the table names a card twice.
pub proof fn lemma_unique_holdings(v: GameView)
    requires
        ids_unique(v),
    ensures
        forall|p: int| 0 <= p < v.players.len() ==> all_distinct(#[trigger] v.players[p].hand),
        forall|p: int| 0 <= p < v.players.len() ==> all_distinct(#[trigger] v.players[p].collection),
        all_distinct(all_deal_ids(v.deals)),
        all_distinct(v.discard_pile),
{
    broadcast use vstd::multiset::group_multiset_axioms;
    assert forall|p: int| 0 <= p < v.players.len() implies all_distinct((#[trigger] v.players[p]).hand)
        && all_distinct(v.players[p].collection) by {
        lemma_seat_in_seats(v.players, p);
        let x = v.players[p];
        assert forall|c: CardId| #[trigger] x.hand.to_multiset().count(c) <= 1 by {
            assert(seat_ids(x).count(c) <= seats_ids(v.players).count(c));
            assert(game_ids(v).count(c) <= 1);
        };
        assert forall|c: CardId| #[trigger] x.collection.to_multiset().count(c) <= 1 by {
            assert(seat_ids(x).count(c) <= seats_ids(v.players).count(c));
            assert(game_ids(v).count(c) <= 1);
        };
        lemma_unique_ids_distinct(x.hand);
        lemma_unique_ids_distinct(x.collection);
    };
    lemma_table_ids_list(v.deals);
    assert forall|c: CardId| #[trigger] all_deal_ids(v.deals).to_multiset().count(c) <= 1 by {
        assert(game_ids(v).count(c) <= 1);
    };
    lemma_unique_ids_distinct(all_deal_ids(v.deals));
    assert forall|c: CardId| #[trigger] v.discard_pile.to_multiset().count(c) <= 1 by {
        assert(game_ids(v).count(c) <= 1);
    };
    lemma_unique_ids_distinct(v.discard_pile);
}

/// Seats holding consecutive runs of five of `perm` as their hands, and
/// nothing else, hold the ids of the first runs.
proof fn lemma_dealt_seats_ids(ps: Seq<PlayerView>, perm: Seq<CardId>)
    requires
        5 * ps.len() <= perm.len(),
        forall|p: int| 0 <= p < ps.len() ==> (#[trigger] ps[p]).hand == perm.subrange(5 * p, 5 * p + 5),
        forall|p: int| 0 <= p < ps.len() ==> (#[trigger] ps[p]).collection == Seq::<CardId>::empty(),
    ensures
        seats_ids(ps) =~= perm.subrange(0, 5 * ps.len() as int).to_multiset(),
    decreases ps.len(),
{
    broadcast use vstd::multiset::group_multiset_axioms;
    broadcast use vstd::seq_lib::group_to_multiset_ensures;
    if ps.len() > 0 {
        let n = ps.len() - 1;
        let pre = ps.drop_last();
        assert forall|p: int| 0 <= p < pre.len() implies (#[trigger] pre[p]).hand == perm.subrange(5 * p, 5 * p + 5)
            && pre[p].collection == Seq::<CardId>::empty() by {
            assert(pre[p] == ps[p]);
        };
        lemma_dealt_seats_ids(pre, perm);
        assert(ps.last() == ps[n]);
        assert(perm.subrange(0, 5 * ps.len() as int) =~= perm.subrange(0, 5 * n) + perm.subrange(5 * n, 5 * n + 5));
        vstd::seq_lib::lemma_multiset_commutative(perm.subrange(0, 5 * n), perm.subrange(5 * n, 5 * n + 5));
    } else {
        assert(perm.subrange(0, 0) =~= Seq::<CardId>::empty());
    }
}

/// A freshly dealt game holds each of the deck's cards once: in a hand or
/// in the draw pile.
pub proof fn lemma_fresh_ids(v: GameView, deck: DeckConfig, perm: Seq<CardId>)
    requires
        freshly_dealt(v, deck, perm),
        v.players.len() == v.num_players,
        5 * v.num_players <= perm.len(),
        v.deals.len() == 0,
        v.discard_pile.len() == 0,
    ensures
        game_ids(v) == deck_ids(deck).to_multiset(),
{
    broadcast use vstd::multiset::group_multiset_axioms;
    broadcast use vstd::seq_lib::group_to_multiset_ensures;
    let n = v.num_players as int;
    lemma_dealt_seats_ids(v.players, perm);
    assert(table_ids(v.deals) =~= Multiset::<CardId>::empty());
    assert(v.discard_pile =~= Seq::<CardId>::empty());
    assert(perm =~= perm.subrange(0, 5 * n) + perm.subrange(5 * n, perm.len() as int));
    vstd::seq_lib::lemma_multiset_commutative(perm.subrange(0, 5 * n), perm.subrange(5 * n, perm.len() as int));
    assert(game_ids(v) =~= perm.to_multiset());
}

/// Every card of a deck with pairwise different ids is in play exactly
/// once in a game freshly dealt from it.
pub proof fn lemma_deck_ids_unique(v: GameView, deck: DeckConfig)
    requires
        crate::game::deck_ok(deck),
        game_ids(v) == deck_ids(deck).to_multiset(),
    ensures
        ids_unique(v),
{
    broadcast use vstd::multiset::group_multiset_axioms;
    broadcast use vstd::seq_lib::group_to_multiset_ensures;
    let ids = deck_ids(deck);
    assert(ids.no_duplicates()) by {
        assert forall|i: int, j: int| 0 <= i < ids.len() && 0 <= j < ids.len() && i != j implies ids[i] != ids[j] by {
            if i < j {
                assert(deck.cards@[i].id != deck.cards@[j].id);
            } else {
                assert(deck.cards@[j].id != deck.cards@[i].id);
            }
        };
    };
    ids.lemma_multiset_has_no_duplicates();
    assert forall|c: CardId| #[trigger] game_ids(v).count(c) <= 1 by {
        if ids.to_multiset().count(c) > 0 {
            assert(ids.to_multiset().contains(c));
        }
    };
}

} // verus!
