//! What the enumerated legal actions are to the rules: the actions
//! `legal_actions` offers the seat to act are ones `apply_action` accepts.

use vstd::prelude::*;
use crate::action::{Action, ActionView, ParamsView};
use crate::card::{CardId, CardKind, PlayerId, ThingamabobEffect};
use crate::combinatorics::combinations_spec;
use crate::deal::deal_ids;
use crate::game::{GameView, deal_index};
use crate::legal::{
    actions_view, all_deal_ids, class_distinct_combinations_spec, class_distinct_spec, legal_spec,
    lemma_class_distinct_subset, lemma_combination_members, lemma_dedup_subset, lemma_cdc_members,
    resolve_options, split_candidates, dedup_splits, split_options, split_action, kept, given, keeps,
    window_options, plays_of, card_plays, richer_seats, expander_plays, optimeter_plays, play,
    removal_targets, removal_combinations_spec, keep_runs, seller_runs, lemma_combination_lengths,
};
use crate::phase::{DealOfferStep, PhaseView, TwoPlayerDealStep};
use crate::rules::{
    active_player_spec, bad_removal, deal_holding, distinct_count, first_missing, reject, removal_cards, removal_sellers,
};
use crate::seqs::all_distinct;
use crate::turn::lemma_deal_index;
use crate::legal::{legal_options, dedup_by_class};
use crate::rules::offers_ok;
use crate::places::{ids_unique, lemma_unique_holdings};

verus! {

/// The phases in which the `i`-th legal action is a choice among public
/// deals or a plain answer: revealing a card of one's own deal, the
/// buyer's peek, passing in the thingamabob window (always offered first),
/// the buyer's choice of a deal, and the two-player response.
pub open spec fn offered_choice(phase: PhaseView, i: int) -> bool {
    match phase {
        PhaseView::DealOffer { step, .. } => step == DealOfferStep::AwaitingReveal,
        PhaseView::TwoPlayerDealOffer { step } => step == TwoPlayerDealStep::AwaitingReveal,
        PhaseView::ThingamabobWindow { .. } => i == 0,
        PhaseView::BuyerPeek => true,
        PhaseView::BuyerChoosesDeal => true,
        PhaseView::RespondToDeal => true,
        _ => false,
    }
}

/// The phases in which the legal actions pick cards of the picker's own
/// holdings: a seller's three-card deal and a two-player split, picked
/// from the hand, and the
/// nasty-penalty steal, picked from the loser's collection. The law below
/// asks that the holding picked from names no card twice.
pub open spec fn distinct_pick(v: GameView, player: PlayerId) -> bool {
    match v.phase {
        PhaseView::DealOffer { step, .. } => step == DealOfferStep::AwaitingSubmit && all_distinct(v.hand(player)),
        PhaseView::TwoPlayerDealOffer { step } => step == TwoPlayerDealStep::AwaitingSplit && all_distinct(v.hand(player)),
        PhaseView::NastyResolution { pending } => all_distinct(v.collection(pending.player)),
        _ => false,
    }
}

/// Every reveal, peek, pass, deal choice or response that `legal_actions`
/// offers the seat to act is accepted by the rules.
pub proof fn law_offered_choices_are_accepted(v: GameView, player: PlayerId, r: Seq<Action>, i: int)
    requires
        v.wf(),
        active_player_spec(v) == Some(player),
        legal_spec(v, player, r),
        0 <= i < r.len(),
        offered_choice(v.phase, i),
    ensures
        reject(v, player, r[i]@) is None,
{
    assert(actions_view(r)[i] == r[i]@);
    match v.phase {
        PhaseView::DealOffer { entries, idx, step } => {
            lemma_deal_index(v.deals, player);
            let d = deal_index(v.deals, player)->0;
            let cards = deal_ids(v.deals[d].cards);
            lemma_class_distinct_subset(v.kinds, cards);
            let opts = crate::legal::reveal_options(v, cards);
            assert(actions_view(r) == opts);
            assert(actions_view(r).len() == r.len());
            let c = class_distinct_spec(v.kinds, cards)[i];
            assert(opts[i] == ActionView::RevealCard { card: c });
            assert(cards.contains(c));
        },
        PhaseView::TwoPlayerDealOffer { step } => {
            let cards = all_deal_ids(v.deals);
            lemma_class_distinct_subset(v.kinds, cards);
            let opts = crate::legal::reveal_options(v, cards);
            assert(actions_view(r) == opts);
            assert(actions_view(r).len() == r.len());
            let c = class_distinct_spec(v.kinds, cards)[i];
            assert(opts[i] == ActionView::RevealCard { card: c });
            lemma_all_deal_ids_held(v.deals, c);
        },
        PhaseView::BuyerPeek => {
            let opts = crate::legal::peek_options(v);
            assert(actions_view(r) == opts);
            assert(actions_view(r).len() == r.len());
            let s = v.deals[i].seller;
            assert(opts[i] == ActionView::BuyerPeek { target_seller: s });
            lemma_deal_index(v.deals, s);
            let j = deal_index(v.deals, s)->0;
            assert(crate::deal::hidden_ids(v.deals[j].cards).len() >= 1);
        },
        PhaseView::BuyerChoosesDeal => {
            let opts = crate::legal::choose_options(v);
            assert(actions_view(r) == opts);
            assert(actions_view(r).len() == r.len());
            let s = v.deals[i].seller;
            assert(opts[i] == ActionView::ChooseDeal { seller: s });
            lemma_deal_index(v.deals, s);
        },
        _ => {},
    }
}

/// Every Platonic Isolator, Cryptozootic Expander and Spectroelectric
/// Optimeter play that `legal_actions` offers in the response window is
/// accepted by the rules.
pub proof fn law_offered_targeted_plays_are_accepted(v: GameView, player: PlayerId, r: Seq<Action>, i: int)
    requires
        v.wf(),
        active_player_spec(v) == Some(player),
        legal_spec(v, player, r),
        0 <= i < r.len(),
        v.phase is ThingamabobWindow,
        r[i]@ matches ActionView::PlayThingamabob { params, .. }
            && (params is PlatonicIsolator || params is CryptozooticExpander || params is SpectroelectricOptimeter),
    ensures
        reject(v, player, r[i]@) is None,
{
    let coll = v.collection(player);
    let reps = class_distinct_spec(v.kinds, coll);
    let opts = window_options(v, player);
    assert(actions_view(r)[i] == r[i]@);
    assert(actions_view(r) == opts);
    assert(actions_view(r).len() == r.len());
    assert(opts[0] == ActionView::PassThingamabobWindow);
    assert(i >= 1);
    let a = plays_of(v, player, reps)[i - 1];
    assert(opts[i] == a);
    lemma_plays_of_member(v, player, reps, i - 1);
    let (c, q) = choose|c: CardId, q: int| reps.contains(c) && 0 <= q < card_plays(v, player, c).len()
        && card_plays(v, player, c)[q] == a;
    lemma_class_distinct_subset(v.kinds, coll);
    let z = choose|z: int| 0 <= z < reps.len() && reps[z] == c;
    assert(coll.contains(reps[z]));
    match v.kind(c) {
        CardKind::Thingamabob(k) => {
            match v.catalog.thingamabob_effect_of(k) {
                ThingamabobEffect::StealPointTokenFromRicherPlayer => {
                    let seats = richer_seats(v, player, v.num_players as int);
                    lemma_richer_seats(v, player, v.num_players as int);
                    assert(a == play(c, ParamsView::PlatonicIsolator { target_player: seats[q] }));
                },
                ThingamabobEffect::AddHiddenHandCardToDeal => {
                    let hr = class_distinct_spec(v.kinds, v.hand(player));
                    lemma_expander_plays(c, hr, v.deals);
                    let (h, d) = choose|h: CardId, d: int| hr.contains(h) && 0 <= d < v.deals.len()
                        && expander_plays(c, hr, v.deals)[q] == play(c, ParamsView::CryptozooticExpander {
                            hand_card: h,
                            target_deal: v.deals[d].seller,
                        });
                    lemma_class_distinct_subset(v.kinds, v.hand(player));
                    let y = choose|y: int| 0 <= y < hr.len() && hr[y] == h;
                    assert(v.hand(player).contains(hr[y]));
                    lemma_deal_index(v.deals, v.deals[d].seller);
                },
                ThingamabobEffect::RemoveCardsFromDeals { max_cards, max_deals } => {
                    let rcs = crate::legal::removal_combinations_spec(v.deals, max_cards as int, max_deals as int);
                    assert(a == play(c, ParamsView::RemoveFromDeals { removals: rcs[q] }));
                },
                ThingamabobEffect::RevealCardInDeal => {
                    lemma_optimeter_plays(c, v.deals);
                    let (d, h) = choose|d: int, h: CardId| 0 <= d < v.deals.len()
                        && crate::deal::hidden_ids(v.deals[d].cards).contains(h)
                        && optimeter_plays(c, v.deals)[q] == play(c, ParamsView::SpectroelectricOptimeter {
                            target_deal: v.deals[d].seller,
                            target_card: h,
                        });
                    lemma_deal_index(v.deals, v.deals[d].seller);
                    let e = deal_index(v.deals, v.deals[d].seller)->0;
                    if e != d {
                        assert(crate::game::sellers_distinct(v.deals));
                        if e < d {
                            assert(v.deals[e].seller != v.deals[d].seller);
                        } else {
                            assert(v.deals[d].seller != v.deals[e].seller);
                        }
                    }
                },
            }
        },
        _ => {
            assert(card_plays(v, player, c).len() == 0);
        },
    }
}

/// Every play offered for a list of cards is one of the plays of one of
/// the cards.
proof fn lemma_plays_of_member(v: GameView, player: PlayerId, reps: Seq<CardId>, j: int)
    requires
        0 <= j < plays_of(v, player, reps).len(),
    ensures
        exists|c: CardId, q: int| reps.contains(c) && 0 <= q < card_plays(v, player, c).len()
            && card_plays(v, player, c)[q] == plays_of(v, player, reps)[j],
    decreases reps.len(),
{
    let pre = plays_of(v, player, reps.drop_last());
    let x = plays_of(v, player, reps)[j];
    if j < pre.len() {
        assert(x == pre[j]);
        lemma_plays_of_member(v, player, reps.drop_last(), j);
        let (c, q) = choose|c: CardId, q: int| reps.drop_last().contains(c) && 0 <= q < card_plays(v, player, c).len()
            && card_plays(v, player, c)[q] == pre[j];
        let w = choose|w: int| 0 <= w < reps.drop_last().len() && reps.drop_last()[w] == c;
        assert(reps[w] == c);
        assert(reps.contains(c));
    } else {
        let c = reps.last();
        assert(x == card_plays(v, player, c)[j - pre.len()]);
        assert(reps[reps.len() - 1] == c);
        assert(reps.contains(c));
    }
}

/// The richer seats are seats below `t`, not `player`, with more tokens.
proof fn lemma_richer_seats(v: GameView, player: PlayerId, t: int)
    ensures
        forall|q: int| 0 <= q < richer_seats(v, player, t).len() ==> {
            let s = #[trigger] richer_seats(v, player, t)[q];
            &&& s < t
            &&& s != player
            &&& v.tokens(s) > v.tokens(player)
        },
    decreases t,
{
    if t > 0 {
        lemma_richer_seats(v, player, t - 1);
        let pre = richer_seats(v, player, t - 1);
        assert forall|q: int| 0 <= q < richer_seats(v, player, t).len() implies {
            let s = #[trigger] richer_seats(v, player, t)[q];
            &&& s < t
            &&& s != player
            &&& v.tokens(s) > v.tokens(player)
        } by {
            if q < pre.len() {
                assert(richer_seats(v, player, t)[q] == pre[q]);
            } else {
                assert(richer_seats(v, player, t) == pre.push((t - 1) as PlayerId));
            }
        };
    }
}

/// Each Cryptozootic Expander play offers one of the hand cards into one
/// of the deals.
proof fn lemma_expander_plays(card: CardId, hr: Seq<CardId>, deals: Seq<crate::deal::DealView>)
    ensures
        forall|j: int| 0 <= j < expander_plays(card, hr, deals).len() ==> exists|h: CardId, d: int|
            hr.contains(h) && 0 <= d < deals.len()
            && #[trigger] expander_plays(card, hr, deals)[j] == play(card, ParamsView::CryptozooticExpander {
                hand_card: h,
                target_deal: deals[d].seller,
            }),
    decreases hr.len(),
{
    if hr.len() > 0 {
        lemma_expander_plays(card, hr.drop_last(), deals);
        let pre = expander_plays(card, hr.drop_last(), deals);
        assert forall|j: int| 0 <= j < expander_plays(card, hr, deals).len() implies exists|h: CardId, d: int|
            hr.contains(h) && 0 <= d < deals.len()
            && #[trigger] expander_plays(card, hr, deals)[j] == play(card, ParamsView::CryptozooticExpander {
                hand_card: h,
                target_deal: deals[d].seller,
            }) by {
            if j < pre.len() {
                assert(expander_plays(card, hr, deals)[j] == pre[j]);
                let (h, d) = choose|h: CardId, d: int| hr.drop_last().contains(h) && 0 <= d < deals.len()
                    && pre[j] == play(card, ParamsView::CryptozooticExpander { hand_card: h, target_deal: deals[d].seller });
                let w = choose|w: int| 0 <= w < hr.drop_last().len() && hr.drop_last()[w] == h;
                assert(hr[w] == h);
            } else {
                let d = j - pre.len();
                assert(expander_plays(card, hr, deals)[j] == play(card, ParamsView::CryptozooticExpander {
                    hand_card: hr.last(),
                    target_deal: deals[d].seller,
                }));
                assert(hr[hr.len() - 1] == hr.last());
            }
        };
    }
}

/// Each Spectroelectric Optimeter play names a deal and one of its
/// still-hidden cards.
proof fn lemma_optimeter_plays(card: CardId, deals: Seq<crate::deal::DealView>)
    ensures
        forall|j: int| 0 <= j < optimeter_plays(card, deals).len() ==> exists|d: int, c: CardId|
            0 <= d < deals.len() && crate::deal::hidden_ids(deals[d].cards).contains(c)
            && #[trigger] optimeter_plays(card, deals)[j] == play(card, ParamsView::SpectroelectricOptimeter {
                target_deal: deals[d].seller,
                target_card: c,
            }),
    decreases deals.len(),
{
    if deals.len() > 0 {
        lemma_optimeter_plays(card, deals.drop_last());
        let pre = optimeter_plays(card, deals.drop_last());
        let last = deals.last();
        let hs = crate::deal::hidden_ids(last.cards);
        assert forall|j: int| 0 <= j < optimeter_plays(card, deals).len() implies exists|d: int, c: CardId|
            0 <= d < deals.len() && crate::deal::hidden_ids(deals[d].cards).contains(c)
            && #[trigger] optimeter_plays(card, deals)[j] == play(card, ParamsView::SpectroelectricOptimeter {
                target_deal: deals[d].seller,
                target_card: c,
            }) by {
            if j < pre.len() {
                assert(optimeter_plays(card, deals)[j] == pre[j]);
                let (d, c) = choose|d: int, c: CardId| 0 <= d < deals.drop_last().len()
                    && crate::deal::hidden_ids(deals.drop_last()[d].cards).contains(c)
                    && pre[j] == play(card, ParamsView::SpectroelectricOptimeter {
                        target_deal: deals.drop_last()[d].seller,
                        target_card: c,
                    });
                assert(deals[d] == deals.drop_last()[d]);
            } else {
                let q = j - pre.len();
                assert(optimeter_plays(card, deals)[j] == play(card, ParamsView::SpectroelectricOptimeter {
                    target_deal: last.seller,
                    target_card: hs[q],
                }));
                assert(hs.contains(hs[q]));
                assert(deals[deals.len() - 1] == last);
            }
        };
    }
}

/// Every Detrital Repositioner and Super Detrital Repositioner play that
/// `legal_actions` offers in the response window is accepted by the rules,
/// whenever the cards on the table are all different.
pub proof fn law_offered_removals_are_accepted(v: GameView, player: PlayerId, r: Seq<Action>, i: int)
    requires
        v.wf(),
        active_player_spec(v) == Some(player),
        legal_spec(v, player, r),
        0 <= i < r.len(),
        v.phase is ThingamabobWindow,
        r[i]@ matches ActionView::PlayThingamabob { params, .. } && params is RemoveFromDeals,
        all_distinct(all_deal_ids(v.deals)),
    ensures
        reject(v, player, r[i]@) is None,
{
    let coll = v.collection(player);
    let reps = class_distinct_spec(v.kinds, coll);
    let opts = window_options(v, player);
    assert(actions_view(r)[i] == r[i]@);
    assert(actions_view(r) == opts);
    assert(actions_view(r).len() == r.len());
    assert(opts[0] == ActionView::PassThingamabobWindow);
    assert(i >= 1);
    let a = plays_of(v, player, reps)[i - 1];
    assert(opts[i] == a);
    lemma_plays_of_member(v, player, reps, i - 1);
    let (c, q) = choose|c: CardId, q: int| reps.contains(c) && 0 <= q < card_plays(v, player, c).len()
        && card_plays(v, player, c)[q] == a;
    lemma_class_distinct_subset(v.kinds, coll);
    let z = choose|z: int| 0 <= z < reps.len() && reps[z] == c;
    assert(coll.contains(reps[z]));
    match v.kind(c) {
        CardKind::Thingamabob(k) => {
            match v.catalog.thingamabob_effect_of(k) {
                ThingamabobEffect::StealPointTokenFromRicherPlayer => {
                    let seats = richer_seats(v, player, v.num_players as int);
                    assert(a == play(c, ParamsView::PlatonicIsolator { target_player: seats[q] }));
                },
                ThingamabobEffect::AddHiddenHandCardToDeal => {
                    let hr = class_distinct_spec(v.kinds, v.hand(player));
                    lemma_expander_plays(c, hr, v.deals);
                },
                ThingamabobEffect::RemoveCardsFromDeals { max_cards, max_deals } => {
                    let rcs = crate::legal::removal_combinations_spec(v.deals, max_cards as int, max_deals as int);
                    assert(a == play(c, ParamsView::RemoveFromDeals { removals: rcs[q] }));
                    let rs = rcs[q];
                    lemma_removal_targets_cards(v.deals);
                    lemma_removal_combinations(v.deals, max_cards as int, max_deals as int);
                    lemma_runs_bound(rs);
                    lemma_good_removals(v, rs);
                },
                ThingamabobEffect::RevealCardInDeal => {
                    lemma_optimeter_plays(c, v.deals);
                },
            }
        },
        _ => {
            assert(card_plays(v, player, c).len() == 0);
        },
    }
}

/// The cards of the removal targets are the cards on the table.
proof fn lemma_removal_targets_cards(ds: Seq<crate::deal::DealView>)
    ensures
        removal_cards(removal_targets(ds)) == all_deal_ids(ds),
    decreases ds.len(),
{
    if ds.len() > 0 {
        lemma_removal_targets_cards(ds.drop_last());
        let last = ds.last();
        let t = deal_ids(last.cards).map_values(|c: CardId| (last.seller, c));
        assert(removal_cards(removal_targets(ds)) =~= removal_cards(removal_targets(ds.drop_last())) + removal_cards(t));
        assert(removal_cards(t) =~= deal_ids(last.cards));
    }
}

/// Each removal target is a card of a deal of the named seller.
proof fn lemma_removal_target_in_deal(ds: Seq<crate::deal::DealView>, x: (PlayerId, CardId))
    requires
        removal_targets(ds).contains(x),
    ensures
        exists|d: int| 0 <= d < ds.len() && ds[d].seller == x.0 && #[trigger] deal_ids(ds[d].cards).contains(x.1),
    decreases ds.len(),
{
    let pre = removal_targets(ds.drop_last());
    let last = ds.last();
    let t = deal_ids(last.cards).map_values(|c: CardId| (last.seller, c));
    assert(removal_targets(ds) == pre + t);
    let q = choose|q: int| 0 <= q < removal_targets(ds).len() && removal_targets(ds)[q] == x;
    if q < pre.len() {
        assert(pre[q] == x);
        assert(pre.contains(x));
        lemma_removal_target_in_deal(ds.drop_last(), x);
        let d = choose|d: int| 0 <= d < ds.drop_last().len() && ds.drop_last()[d].seller == x.0
            && #[trigger] deal_ids(ds.drop_last()[d].cards).contains(x.1);
        assert(ds[d] == ds.drop_last()[d]);
    } else {
        let m = q - pre.len();
        assert(t[m] == x);
        assert(deal_ids(last.cards)[m] == x.1);
        assert(deal_ids(last.cards).contains(x.1));
        assert(ds[ds.len() - 1] == last);
    }
}

/// Taking the cards of combinations of targets gives the combinations of
/// the targets' cards.
proof fn lemma_combination_cards(s: Seq<(PlayerId, CardId)>, k: nat)
    ensures
        combinations_spec(removal_cards(s), k).len() == combinations_spec(s, k).len(),
        forall|j: int| 0 <= j < combinations_spec(s, k).len() ==>
            combinations_spec(removal_cards(s), k)[j] == removal_cards(#[trigger] combinations_spec(s, k)[j]),
    decreases s.len(), k,
{
    let f = removal_cards(s);
    if k == 0 {
        assert(removal_cards(Seq::<(PlayerId, CardId)>::empty()) =~= Seq::<CardId>::empty());
    } else if s.len() < k {
    } else {
        let t = s.drop_first();
        assert(f.drop_first() =~= removal_cards(t));
        lemma_combination_cards(t, (k - 1) as nat);
        lemma_combination_cards(t, k);
        let a = combinations_spec(t, (k - 1) as nat).map_values(|c: Seq<(PlayerId, CardId)>| seq![s[0]] + c);
        let b = combinations_spec(t, k);
        let fa = combinations_spec(removal_cards(t), (k - 1) as nat).map_values(|c: Seq<CardId>| seq![f[0]] + c);
        let fb = combinations_spec(removal_cards(t), k);
        assert(combinations_spec(s, k) == a + b);
        assert(combinations_spec(f, k) == fa + fb);
        assert forall|j: int| 0 <= j < combinations_spec(s, k).len() implies
            combinations_spec(f, k)[j] == removal_cards(#[trigger] combinations_spec(s, k)[j]) by {
            if j < a.len() {
                let c = combinations_spec(t, (k - 1) as nat)[j];
                assert(combinations_spec(s, k)[j] == seq![s[0]] + c);
                assert(combinations_spec(f, k)[j] == seq![f[0]] + removal_cards(c));
                assert(removal_cards(seq![s[0]] + c) =~= seq![f[0]] + removal_cards(c));
            } else {
                assert(combinations_spec(s, k)[j] == b[j - a.len()]);
                assert(combinations_spec(f, k)[j] == fb[j - a.len()]);
            }
        };
    }
}

/// Every kept list is one of the lists, touching at most `md` runs of deals.
proof fn lemma_keep_runs(cs: Seq<Seq<(PlayerId, CardId)>>, md: int)
    ensures
        forall|j: int| 0 <= j < keep_runs(cs, md).len() ==> cs.contains(#[trigger] keep_runs(cs, md)[j])
            && seller_runs(keep_runs(cs, md)[j]) <= md,
    decreases cs.len(),
{
    if cs.len() > 0 {
        lemma_keep_runs(cs.drop_last(), md);
        let r = keep_runs(cs.drop_last(), md);
        assert forall|j: int| 0 <= j < keep_runs(cs, md).len() implies cs.contains(#[trigger] keep_runs(cs, md)[j])
            && seller_runs(keep_runs(cs, md)[j]) <= md by {
            let x = keep_runs(cs, md)[j];
            if j < r.len() {
                assert(x == r[j]);
                let q = choose|q: int| 0 <= q < cs.drop_last().len() && cs.drop_last()[q] == x;
                assert(cs[q] == x);
            } else {
                assert(x == cs.last());
                assert(cs[cs.len() - 1] == x);
            }
        };
    }
}

/// Every offered removal list takes at most `mc` targets of the table,
/// touches at most `md` runs of deals, and names no card twice when the
/// cards on the table are all different.
proof fn lemma_removal_combinations(ds: Seq<crate::deal::DealView>, mc: int, md: int)
    ensures
        forall|j: int| 0 <= j < removal_combinations_spec(ds, mc, md).len() ==> {
            let rs = #[trigger] removal_combinations_spec(ds, mc, md)[j];
            &&& rs.len() <= mc
            &&& seller_runs(rs) <= md
            &&& forall|m: int| 0 <= m < rs.len() ==> removal_targets(ds).contains(#[trigger] rs[m])
            &&& all_distinct(removal_cards(removal_targets(ds))) ==> all_distinct(removal_cards(rs))
        },
    decreases mc + 1,
{
    if mc >= 0 {
        lemma_removal_combinations(ds, mc - 1, md);
        let targets = removal_targets(ds);
        let cs = combinations_spec(targets, mc as nat);
        lemma_keep_runs(cs, md);
        lemma_combination_lengths(targets, mc as nat);
        lemma_combination_members(targets, mc as nat);
        lemma_combination_cards(targets, mc as nat);
        lemma_combination_distinct(removal_cards(targets), mc as nat);
        let prev = removal_combinations_spec(ds, mc - 1, md);
        let kept = keep_runs(cs, md);
        assert(removal_combinations_spec(ds, mc, md) == prev + kept);
        assert forall|j: int| 0 <= j < removal_combinations_spec(ds, mc, md).len() implies {
            let rs = #[trigger] removal_combinations_spec(ds, mc, md)[j];
            &&& rs.len() <= mc
            &&& seller_runs(rs) <= md
            &&& forall|m: int| 0 <= m < rs.len() ==> removal_targets(ds).contains(#[trigger] rs[m])
            &&& all_distinct(removal_cards(removal_targets(ds))) ==> all_distinct(removal_cards(rs))
        } by {
            if j < prev.len() {
                assert(removal_combinations_spec(ds, mc, md)[j] == prev[j]);
            } else {
                let rs = kept[j - prev.len()];
                assert(removal_combinations_spec(ds, mc, md)[j] == rs);
                assert(cs.contains(rs));
                let q = choose|q: int| 0 <= q < cs.len() && cs[q] == rs;
                assert(cs[q].len() == mc);
                assert forall|m: int| 0 <= m < rs.len() implies removal_targets(ds).contains(#[trigger] rs[m]) by {
                    assert(targets.contains(cs[q][m]));
                };
                if all_distinct(removal_cards(targets)) {
                    assert(all_distinct(combinations_spec(removal_cards(targets), mc as nat)[q]));
                }
            }
        };
    }
}

/// A list never names more different sellers than it has runs of sellers.
proof fn lemma_runs_bound(rs: Seq<(PlayerId, CardId)>)
    ensures
        distinct_count(removal_sellers(rs)) <= seller_runs(rs),
    decreases rs.len(),
{
    if rs.len() > 0 {
        lemma_runs_bound(rs.drop_last());
        let s = removal_sellers(rs);
        assert(s.drop_last() =~= removal_sellers(rs.drop_last()));
        if rs.len() >= 2 && !s.drop_last().contains(s.last()) {
            assert(s.drop_last()[rs.len() - 2] == rs[rs.len() - 2].0);
        }
    }
}

/// Removals of targets of the table name deals that hold the cards, when
/// no seat has two deals.
proof fn lemma_good_removals(v: GameView, rs: Seq<(PlayerId, CardId)>)
    requires
        crate::game::sellers_distinct(v.deals),
        forall|m: int| 0 <= m < rs.len() ==> removal_targets(v.deals).contains(#[trigger] rs[m]),
    ensures
        bad_removal(v, rs) is None,
    decreases rs.len(),
{
    if rs.len() > 0 {
        assert forall|m: int| 0 <= m < rs.drop_last().len() implies removal_targets(v.deals).contains(#[trigger] rs.drop_last()[m]) by {
            assert(rs.drop_last()[m] == rs[m]);
        };
        lemma_good_removals(v, rs.drop_last());
        let x = rs.last();
        assert(removal_targets(v.deals).contains(rs[rs.len() - 1]));
        lemma_removal_target_in_deal(v.deals, x);
        let d = choose|d: int| 0 <= d < v.deals.len() && v.deals[d].seller == x.0 && #[trigger] deal_ids(v.deals[d].cards).contains(x.1);
        lemma_deal_index(v.deals, x.0);
        let e = deal_index(v.deals, x.0)->0;
        if e != d {
            if e < d {
                assert(v.deals[e].seller != v.deals[d].seller);
            } else {
                assert(v.deals[d].seller != v.deals[e].seller);
            }
        }
    }
}

/// Every three-card deal, every two-player split and every penalty steal
/// that `legal_actions`
/// offers the seat to act is accepted by the rules, whenever the hand or
/// collection it is picked from names no card twice.
pub proof fn law_distinct_picks_are_accepted(v: GameView, player: PlayerId, r: Seq<Action>, i: int)
    requires
        v.wf(),
        active_player_spec(v) == Some(player),
        legal_spec(v, player, r),
        0 <= i < r.len(),
        distinct_pick(v, player),
    ensures
        reject(v, player, r[i]@) is None,
{
    assert(actions_view(r)[i] == r[i]@);
    match v.phase {
        PhaseView::DealOffer { .. } => {
            let hand = v.hand(player);
            let cs = class_distinct_combinations_spec(v.kinds, hand, 3);
            lemma_cdc_members(v.kinds, hand, 3);
            lemma_cdc_distinct(v.kinds, hand, 3);
            let opts = crate::legal::submit_options(v, player);
            assert(actions_view(r) == opts);
            assert(actions_view(r).len() == r.len());
            let c = cs[i];
            assert(opts[i] == ActionView::SubmitDeal { cards: c });
            assert forall|m: int| 0 <= m < c.len() implies hand.contains(#[trigger] c[m]) by {
                assert(hand.contains(cs[i][m]));
            };
            lemma_first_missing_none(c, hand);
        },
        PhaseView::TwoPlayerDealOffer { .. } => {
            let hand = v.hand(player);
            let cs = class_distinct_combinations_spec(v.kinds, hand, 3);
            let ps = split_candidates(cs);
            let ds = dedup_splits(v.kinds, ps);
            let opts = split_options(v, player);
            assert(actions_view(r) == opts);
            assert(actions_view(r).len() == r.len());
            let p = ds[i];
            assert(opts[i] == split_action(p));
            lemma_dedup_splits_subset(v.kinds, ps);
            lemma_split_candidates_from(cs);
            assert(ps.contains(p));
            let q = choose|q: int| 0 <= q < ps.len() && ps[q] == p;
            assert(cs.contains(ps[q].0));
            let j = choose|j: int| 0 <= j < cs.len() && cs[j] == p.0;
            lemma_cdc_members(v.kinds, hand, 3);
            lemma_cdc_distinct(v.kinds, hand, 3);
            let c = cs[j];
            assert(c.len() == 3);
            lemma_split_piles(c, p.1);
            let all = crate::rules::both_piles(kept(c, p.1, 3), given(c, p.1, 3));
            assert forall|m: int| 0 <= m < all.len() implies hand.contains(#[trigger] all[m]) by {
                assert(c.contains(all[m]));
                let z = choose|z: int| 0 <= z < c.len() && c[z] == all[m];
                assert(hand.contains(cs[j][z]));
            };
            lemma_first_missing_none(all, hand);
        },
        PhaseView::NastyResolution { pending } => {
            let coll = v.collection(pending.player);
            let max = crate::rules::steal_cap(v.catalog.nasty_effect_of(pending.kind));
            lemma_resolve_options(v.kinds, coll, max);
            let opts = resolve_options(v.kinds, coll, max);
            assert(actions_view(r) == opts);
            assert(actions_view(r).len() == r.len());
            let a = opts[i];
            let taken = a->ResolveNastyPenalty_taken_cards;
            lemma_first_missing_none(taken, coll);
        },
        _ => {},
    }
}

/// Both piles of a split together are the three cards of the pick, each
/// once.
proof fn lemma_split_piles(c: Seq<CardId>, mask: int)
    requires
        c.len() == 3,
    ensures
        crate::rules::both_piles(kept(c, mask, 3), given(c, mask, 3)).len() == 3,
        forall|m: int| 0 <= m < 3 ==> c.contains(#[trigger] crate::rules::both_piles(kept(c, mask, 3), given(c, mask, 3))[m]),
        all_distinct(c) ==> all_distinct(crate::rules::both_piles(kept(c, mask, 3), given(c, mask, 3))),
{
    reveal_with_fuel(kept, 4);
    reveal_with_fuel(given, 4);
    let all = crate::rules::both_piles(kept(c, mask, 3), given(c, mask, 3));
    let (b0, b1, b2) = (keeps(mask, 0), keeps(mask, 1), keeps(mask, 2));
    let perm: Seq<int> = if b0 && b1 && b2 {
        seq![0int, 1, 2]
    } else if b0 && b1 {
        seq![0int, 1, 2]
    } else if b0 && b2 {
        seq![0int, 2, 1]
    } else if b0 {
        seq![0int, 1, 2]
    } else if b1 && b2 {
        seq![1int, 2, 0]
    } else if b1 {
        seq![1int, 0, 2]
    } else if b2 {
        seq![2int, 0, 1]
    } else {
        seq![0int, 1, 2]
    };
    assert(all =~= seq![c[perm[0]], c[perm[1]], c[perm[2]]]);
    assert(forall|m: int| 0 <= m < 3 ==> 0 <= #[trigger] perm[m] < 3);
    assert(forall|m: int, n: int| 0 <= m < n < 3 ==> #[trigger] perm[m] != #[trigger] perm[n]);
    assert forall|m: int| 0 <= m < 3 implies c.contains(#[trigger] all[m]) by {
        assert(c[perm[m]] == all[m]);
    };
}

/// Every deduplicated split candidate is a candidate.
proof fn lemma_dedup_splits_subset(kinds: Seq<CardKind>, ps: Seq<(Seq<CardId>, int)>)
    ensures
        forall|j: int| 0 <= j < dedup_splits(kinds, ps).len() ==> ps.contains(#[trigger] dedup_splits(kinds, ps)[j]),
    decreases ps.len(),
{
    if ps.len() > 0 {
        lemma_dedup_splits_subset(kinds, ps.drop_last());
        let r = dedup_splits(kinds, ps.drop_last());
        assert forall|j: int| 0 <= j < dedup_splits(kinds, ps).len() implies ps.contains(#[trigger] dedup_splits(kinds, ps)[j]) by {
            let x = dedup_splits(kinds, ps)[j];
            if j < r.len() {
                assert(x == r[j]);
                let q = choose|q: int| 0 <= q < ps.drop_last().len() && ps.drop_last()[q] == x;
                assert(ps[q] == x);
            } else {
                assert(ps[ps.len() - 1] == x);
            }
        };
    }
}

/// Every split candidate splits one of the picks.
proof fn lemma_split_candidates_from(cs: Seq<Seq<CardId>>)
    ensures
        forall|j: int| 0 <= j < split_candidates(cs).len() ==> cs.contains((#[trigger] split_candidates(cs)[j]).0),
    decreases cs.len(),
{
    if cs.len() > 0 {
        lemma_split_candidates_from(cs.drop_last());
        let pre = split_candidates(cs.drop_last());
        assert forall|j: int| 0 <= j < split_candidates(cs).len() implies cs.contains((#[trigger] split_candidates(cs)[j]).0) by {
            let x = split_candidates(cs)[j].0;
            if j < pre.len() {
                assert(split_candidates(cs)[j] == pre[j]);
                let q = choose|q: int| 0 <= q < cs.drop_last().len() && cs.drop_last()[q] == x;
                assert(cs[q] == x);
            } else {
                assert(x == cs.last());
                assert(cs[cs.len() - 1] == x);
            }
        };
    }
}

/// A card of some deal is held by some deal.
proof fn lemma_all_deal_ids_held(ds: Seq<crate::deal::DealView>, c: CardId)
    requires
        all_deal_ids(ds).contains(c),
    ensures
        deal_holding(ds, c) is Some,
    decreases ds.len(),
{
    if ds.len() > 0 {
        let pre = all_deal_ids(ds.drop_last());
        let last = deal_ids(ds.last().cards);
        let q = choose|q: int| 0 <= q < all_deal_ids(ds).len() && all_deal_ids(ds)[q] == c;
        if q < pre.len() {
            assert(pre[q] == c);
            lemma_all_deal_ids_held(ds.drop_last(), c);
        } else {
            assert(last[q - pre.len()] == c);
            assert(last.contains(c));
        }
    }
}

/// Nothing is missing from a pool that holds every card asked for.
proof fn lemma_first_missing_none(cards: Seq<CardId>, pool: Seq<CardId>)
    requires
        forall|m: int| 0 <= m < cards.len() ==> pool.contains(#[trigger] cards[m]),
    ensures
        first_missing(cards, pool) is None,
    decreases cards.len(),
{
    if cards.len() > 0 {
        assert forall|m: int| 0 <= m < cards.drop_last().len() implies pool.contains(#[trigger] cards.drop_last()[m]) by {
            assert(cards.drop_last()[m] == cards[m]);
        };
        lemma_first_missing_none(cards.drop_last(), pool);
        assert(pool.contains(cards[cards.len() - 1]));
    }
}

/// Combinations of cards that are pairwise distinct are pairwise distinct.
proof fn lemma_combination_distinct(s: Seq<CardId>, k: nat)
    ensures
        all_distinct(s) ==> forall|j: int| 0 <= j < combinations_spec(s, k).len() ==>
            all_distinct(#[trigger] combinations_spec(s, k)[j]),
    decreases s.len(), k,
{
    if k == 0 {
        assert(combinations_spec(s, k) == seq![Seq::<CardId>::empty()]);
    } else if s.len() < k {
    } else if all_distinct(s) {
        let t = s.drop_first();
        assert forall|p: int, q: int| 0 <= p < q < t.len() implies t[p] != t[q] by {
            assert(t[p] == s[p + 1] && t[q] == s[q + 1]);
        };
        lemma_combination_distinct(t, (k - 1) as nat);
        lemma_combination_distinct(t, k);
        lemma_combination_members(t, (k - 1) as nat);
        let a = combinations_spec(t, (k - 1) as nat).map_values(|c: Seq<CardId>| seq![s[0]] + c);
        let b = combinations_spec(t, k);
        assert(combinations_spec(s, k) == a + b);
        assert forall|j: int| 0 <= j < combinations_spec(s, k).len() implies
            all_distinct(#[trigger] combinations_spec(s, k)[j]) by {
            if j < a.len() {
                let c = combinations_spec(t, (k - 1) as nat)[j];
                let x = seq![s[0]] + c;
                assert(combinations_spec(s, k)[j] == x);
                assert(all_distinct(c));
                assert forall|p: int, q: int| 0 <= p < q < x.len() implies x[p] != x[q] by {
                    assert(x[q] == c[q - 1]);
                    if p == 0 {
                        assert(t.contains(combinations_spec(t, (k - 1) as nat)[j][q - 1]));
                        let z = choose|z: int| 0 <= z < t.len() && t[z] == c[q - 1];
                        assert(s[z + 1] == c[q - 1]);
                    } else {
                        assert(x[p] == c[p - 1]);
                    }
                };
            } else {
                assert(combinations_spec(s, k)[j] == b[j - a.len()]);
            }
        };
    }
}

/// Class-distinct picks from pairwise distinct cards are pairwise distinct.
proof fn lemma_cdc_distinct(kinds: Seq<CardKind>, cards: Seq<CardId>, k: nat)
    ensures
        all_distinct(cards) ==> forall|j: int| 0 <= j < class_distinct_combinations_spec(kinds, cards, k).len() ==>
            all_distinct(#[trigger] class_distinct_combinations_spec(kinds, cards, k)[j]),
{
    let cs = combinations_spec(cards, k);
    lemma_combination_distinct(cards, k);
    lemma_dedup_subset(kinds, cs);
    if all_distinct(cards) {
        assert forall|j: int| 0 <= j < class_distinct_combinations_spec(kinds, cards, k).len() implies
            all_distinct(#[trigger] class_distinct_combinations_spec(kinds, cards, k)[j]) by {
            let x = class_distinct_combinations_spec(kinds, cards, k)[j];
            assert(cs.contains(x));
            let q = choose|q: int| 0 <= q < cs.len() && cs[q] == x;
            assert(all_distinct(cs[q]));
        };
    }
}

/// Each penalty option takes at most `max` cards, all from the loser's
/// collection, and none twice if the collection holds none twice.
proof fn lemma_resolve_options(kinds: Seq<CardKind>, coll: Seq<CardId>, max: int)
    ensures
        forall|j: int| 0 <= j < resolve_options(kinds, coll, max).len() ==> {
            let a = #[trigger] resolve_options(kinds, coll, max)[j];
            &&& a is ResolveNastyPenalty
            &&& a->ResolveNastyPenalty_taken_cards.len() <= max
            &&& forall|m: int| 0 <= m < a->ResolveNastyPenalty_taken_cards.len() ==>
                coll.contains(#[trigger] a->ResolveNastyPenalty_taken_cards[m])
            &&& all_distinct(coll) ==> all_distinct(a->ResolveNastyPenalty_taken_cards)
        },
    decreases max + 1,
{
    if max >= 0 {
        lemma_resolve_options(kinds, coll, max - 1);
        lemma_cdc_members(kinds, coll, max as nat);
        lemma_cdc_distinct(kinds, coll, max as nat);
        let prev = resolve_options(kinds, coll, max - 1);
        let cs = class_distinct_combinations_spec(kinds, coll, max as nat);
        let add = cs.map_values(|c: Seq<CardId>| ActionView::ResolveNastyPenalty { taken_cards: c });
        assert(resolve_options(kinds, coll, max) == prev + add);
        assert forall|j: int| 0 <= j < resolve_options(kinds, coll, max).len() implies {
            let a = #[trigger] resolve_options(kinds, coll, max)[j];
            &&& a is ResolveNastyPenalty
            &&& a->ResolveNastyPenalty_taken_cards.len() <= max
            &&& forall|m: int| 0 <= m < a->ResolveNastyPenalty_taken_cards.len() ==>
                coll.contains(#[trigger] a->ResolveNastyPenalty_taken_cards[m])
            &&& all_distinct(coll) ==> all_distinct(a->ResolveNastyPenalty_taken_cards)
        } by {
            if j < prev.len() {
                assert(resolve_options(kinds, coll, max)[j] == prev[j]);
            } else {
                let c = cs[j - prev.len()];
                assert(resolve_options(kinds, coll, max)[j] == add[j - prev.len()]);
                assert(add[j - prev.len()] == ActionView::ResolveNastyPenalty { taken_cards: c });
                assert forall|m: int| 0 <= m < c.len() implies coll.contains(#[trigger] c[m]) by {
                    assert(coll.contains(cs[j - prev.len()][m]));
                };
            }
        };
    }
}

/// Everything the response window offers after passing is a
/// thingamabob play.
proof fn lemma_plays_are_plays(v: GameView, player: PlayerId, reps: Seq<CardId>, j: int)
    requires
        0 <= j < plays_of(v, player, reps).len(),
    ensures
        plays_of(v, player, reps)[j] is PlayThingamabob,
{
    lemma_plays_of_member(v, player, reps, j);
    let (c, q) = choose|c: CardId, q: int| reps.contains(c) && 0 <= q < card_plays(v, player, c).len()
        && card_plays(v, player, c)[q] == plays_of(v, player, reps)[j];
    match v.kind(c) {
        CardKind::Thingamabob(k) => match v.catalog.thingamabob_effect_of(k) {
            ThingamabobEffect::AddHiddenHandCardToDeal => {
                lemma_expander_plays(c, class_distinct_spec(v.kinds, v.hand(player)), v.deals);
            },
            ThingamabobEffect::RevealCardInDeal => {
                lemma_optimeter_plays(c, v.deals);
            },
            _ => {},
        },
        _ => {},
    }
}

/// Every action that `legal_actions` offers the seat to act is accepted
/// by the rules, in every game where each card is in play once (as in
/// every game set up from a deck and played by accepted actions).
pub proof fn law_legal_actions_are_accepted(v: GameView, player: PlayerId, r: Seq<Action>, i: int)
    requires
        v.wf(),
        ids_unique(v),
        active_player_spec(v) == Some(player),
        legal_spec(v, player, r),
        0 <= i < r.len(),
    ensures
        reject(v, player, r[i]@) is None,
{
    lemma_unique_holdings(v);
    assert(actions_view(r)[i] == r[i]@);
    if offered_choice(v.phase, i) {
        law_offered_choices_are_accepted(v, player, r, i);
    } else {
        match v.phase {
            PhaseView::ThingamabobWindow { .. } => {
                let reps = class_distinct_spec(v.kinds, v.collection(player));
                let opts = window_options(v, player);
                assert(actions_view(r) == opts);
                assert(actions_view(r).len() == r.len());
                assert(opts == seq![ActionView::PassThingamabobWindow] + plays_of(v, player, reps));
                assert(opts[i] == plays_of(v, player, reps)[i - 1]);
                lemma_plays_are_plays(v, player, reps, i - 1);
                match r[i]@ {
                    ActionView::PlayThingamabob { params, .. } => match params {
                        ParamsView::RemoveFromDeals { .. } => {
                            law_offered_removals_are_accepted(v, player, r, i);
                        },
                        _ => {
                            law_offered_targeted_plays_are_accepted(v, player, r, i);
                        },
                    },
                    _ => {},
                }
            },
            PhaseView::GameOver { .. } => {},
            _ => {
                crate::places::lemma_active_in_range(v);
                law_distinct_picks_are_accepted(v, player, r, i);
            },
        }
    }
}

/// A game set up from a deck whose cards carry pairwise different ids
/// holds each of those cards exactly once, and nothing else; its first
/// phase offers deals with every hand at five cards and no card on the
/// table, its deck composition is the tally of its cards, and its action
/// space is the ceiling its deck and table size give.
pub proof fn law_fresh_game_holds_each_card_once(v: GameView, n: usize, deck: crate::deck::DeckConfig)
    requires
        crate::game::deck_ok(deck),
        v.wf(),
        crate::game::GameState::fresh_game(v, n, deck),
    ensures
        crate::places::game_ids(v) == crate::game::deck_ids(deck).to_multiset(),
        ids_unique(v),
        offers_ok(v),
        crate::rules::hands_small(v),
        crate::menus::table_ok(v),
        crate::menus::deck_matches(v),
        v.max_legal_actions == crate::bounds::max_legal_actions_spec(v.catalog, v.deck_counts, v.mode, v.num_players),
{
    crate::places::lemma_deck_ids_unique(v, deck);
    crate::menus::lemma_expansions_nonneg(v, v.discard_pile);
    if v.mode == crate::events::GameMode::Buyer {
        assert(v.phase->DealOffer_entries.len() == n - 1);
        assert(v.phase->DealOffer_entries.len() < v.num_players);
    }
}

/// A non-empty list keeps at least one card per class.
proof fn lemma_class_distinct_nonempty(kinds: Seq<CardKind>, s: Seq<CardId>)
    requires
        s.len() > 0,
    ensures
        class_distinct_spec(kinds, s).len() > 0,
    decreases s.len(),
{
    if s.len() > 1 {
        lemma_class_distinct_nonempty(kinds, s.drop_last());
    }
}

/// A list of at least `k` items has a `k`-item combination.
proof fn lemma_combinations_nonempty<T>(s: Seq<T>, k: nat)
    requires
        s.len() >= k,
    ensures
        combinations_spec(s, k).len() > 0,
    decreases s.len(), k,
{
    if k > 0 {
        lemma_combinations_nonempty(s.drop_first(), (k - 1) as nat);
    }
}

/// Deduplicating a non-empty list of picks keeps at least one.
proof fn lemma_dedup_nonempty(kinds: Seq<CardKind>, cs: Seq<Seq<CardId>>)
    requires
        cs.len() > 0,
    ensures
        dedup_by_class(kinds, cs).len() > 0,
    decreases cs.len(),
{
    if cs.len() > 1 {
        lemma_dedup_nonempty(kinds, cs.drop_last());
    }
}

/// A list of at least `k` cards has a class-distinct `k`-card pick.
proof fn lemma_picks_nonempty(kinds: Seq<CardKind>, s: Seq<CardId>, k: nat)
    requires
        s.len() >= k,
    ensures
        class_distinct_combinations_spec(kinds, s, k).len() > 0,
{
    lemma_combinations_nonempty(s, k);
    lemma_dedup_nonempty(kinds, combinations_spec(s, k));
}

/// A non-empty list of picks gives a non-empty list of split offers.
proof fn lemma_splits_nonempty(kinds: Seq<CardKind>, cs: Seq<Seq<CardId>>)
    requires
        cs.len() > 0,
    ensures
        dedup_splits(kinds, split_candidates(cs)).len() > 0,
{
    assert(split_candidates(cs).len() > 0) by {
        assert(split_candidates(cs) == split_candidates(cs.drop_last()) + Seq::new(8, |m: int| (cs.last(), m)));
    };
    lemma_dedup_splits_nonempty(kinds, split_candidates(cs));
}

/// Deduplicating a non-empty list of split candidates keeps at least one.
proof fn lemma_dedup_splits_nonempty(kinds: Seq<CardKind>, ps: Seq<(Seq<CardId>, int)>)
    requires
        ps.len() > 0,
    ensures
        dedup_splits(kinds, ps).len() > 0,
    decreases ps.len(),
{
    if ps.len() > 1 {
        lemma_dedup_splits_nonempty(kinds, ps.drop_last());
    }
}

/// The penalty options always hold the empty steal at least.
proof fn lemma_resolve_nonempty(kinds: Seq<CardKind>, coll: Seq<CardId>, max: int)
    requires
        max >= 0,
    ensures
        resolve_options(kinds, coll, max).len() > 0,
    decreases max + 1,
{
    if max > 0 {
        lemma_resolve_nonempty(kinds, coll, max - 1);
    } else {
        lemma_picks_nonempty(kinds, coll, 0);
    }
}

/// The table holds a card once some deal does.
proof fn lemma_table_nonempty(ds: Seq<crate::deal::DealView>)
    requires
        ds.len() > 0,
        ds[0].cards.len() > 0,
    ensures
        all_deal_ids(ds).len() > 0,
    decreases ds.len(),
{
    if ds.len() > 1 {
        assert(ds.drop_last()[0] == ds[0]);
        lemma_table_nonempty(ds.drop_last());
    }
}

/// The seat to act always has something it may do: `legal_actions` offers
/// it at least one action, provided a seller or splitter to act holds the
/// three hand cards a deal takes.
pub proof fn law_legal_actions_exist(v: GameView, player: PlayerId)
    requires
        v.wf(),
        offers_ok(v),
        active_player_spec(v) == Some(player),
        v.phase matches PhaseView::DealOffer { step, .. } && step == DealOfferStep::AwaitingSubmit
            ==> v.hand(player).len() >= 3,
        v.phase matches PhaseView::TwoPlayerDealOffer { step } && step == TwoPlayerDealStep::AwaitingSplit
            ==> v.hand(player).len() >= 3,
    ensures
        legal_options(v, player).len() > 0,
{
    match v.phase {
        PhaseView::DealOffer { entries, idx, step } => {
            if step == DealOfferStep::AwaitingSubmit {
                lemma_picks_nonempty(v.kinds, v.hand(player), 3);
            } else {
                lemma_deal_index(v.deals, player);
                let i = deal_index(v.deals, player)->0;
                assert(crate::deal::hidden_ids(v.deals[i].cards).len() >= 2);
                crate::deal::lemma_hidden_revealed_len(v.deals[i].cards);
                lemma_class_distinct_nonempty(v.kinds, deal_ids(v.deals[i].cards));
            }
        },
        PhaseView::TwoPlayerDealOffer { step } => {
            if step == TwoPlayerDealStep::AwaitingSplit {
                lemma_picks_nonempty(v.kinds, v.hand(player), 3);
                lemma_splits_nonempty(v.kinds, class_distinct_combinations_spec(v.kinds, v.hand(player), 3));
            } else {
                lemma_table_nonempty(v.deals);
                lemma_class_distinct_nonempty(v.kinds, all_deal_ids(v.deals));
            }
        },
        PhaseView::NastyResolution { pending } => {
            lemma_resolve_nonempty(v.kinds, v.collection(pending.player), crate::rules::steal_cap(v.catalog.nasty_effect_of(pending.kind)));
        },
        _ => {},
    }
}

/// The invariants the laws on legal actions rest on: the state invariant,
/// every card in play once, deal offers and hands of the sizes the rules
/// deal, the table within its pool, the deck's composition the tally of
/// its cards, and the action space the ceiling its deck and table give.
pub open spec fn game_invariants(v: GameView) -> bool {
    &&& v.wf()
    &&& ids_unique(v)
    &&& offers_ok(v)
    &&& crate::rules::hands_small(v)
    &&& crate::menus::table_ok(v)
    &&& crate::menus::deck_matches(v)
    &&& v.max_legal_actions == crate::bounds::max_legal_actions_spec(v.catalog, v.deck_counts, v.mode, v.num_players)
}

/// A game freshly set up from a runnable deck has the game invariants.
pub proof fn law_fresh_games_have_the_game_invariants(v: GameView, n: usize, deck: crate::deck::DeckConfig)
    requires
        crate::game::deck_ok(deck),
        v.wf(),
        crate::game::GameState::fresh_game(v, n, deck),
    ensures
        game_invariants(v),
{
    law_fresh_game_holds_each_card_once(v, n, deck);
}

/// An action the rules accept keeps the game invariants: the state `u` an
/// accepted action leaves (the transition's outcome with the events folded
/// into the statistics and turn counter) has them whenever the state it was
/// taken in had them. With the law above, every game a runnable deck sets
/// up has them after any run of accepted actions, so the laws on legal
/// actions hold there.
pub proof fn law_accepted_actions_keep_the_game_invariants(
    v: GameView,
    player: PlayerId,
    action: Action,
    u: GameView,
    evs: Seq<crate::events::EventView>,
)
    requires
        game_invariants(v),
        crate::rules::action_ok(v, action@),
        reject(v, player, action@) is None,
        crate::rules::transition(v, player, action@, crate::rules::with_memory(u, v.stats, v.turn_index), evs),
        u.wf(),
    ensures
        game_invariants(u),
{
    let w = crate::rules::with_memory(u, v.stats, v.turn_index);
    crate::turn::lemma_accepted_step(v, player, action@, w, evs);
    assert(w == crate::rules::with_memory(u, w.stats, w.turn_index));
    crate::turn::lemma_memory_step(w, u);
    assert(crate::places::game_ids(u) == crate::places::game_ids(v));
}

} // verus!
