//! Enumerating the legal actions of the seat to act, one representative per
//! distinct choice: cards the acting player can see are deduplicated by
//! class, still-hidden cards stay one option each.

use vstd::prelude::*;
use crate::action::{Action, ActionView, ParamsView, ThingamabobParams};
use crate::card::{CardId, CardKind, PlayerId, ThingamabobEffect, class_index_spec};
use crate::combinatorics::{combinations, combinations_spec};
use crate::deal::{Deal, DealView, deal_ids, hidden_ids};
use crate::events::GameMode;
use crate::game::{GameState, GameView, kind_in};
use crate::phase::{DealOfferStep, Phase, PhaseView, TwoPlayerDealStep};
use crate::rules::active_player_spec;

verus! {

/// Class index of card `c` in a kind table.
pub open spec fn class_in(kinds: Seq<CardKind>, c: CardId) -> int {
    class_index_spec(kind_in(kinds, c))
}

/// Some card of `s` has class `k`.
pub open spec fn has_class(kinds: Seq<CardKind>, s: Seq<CardId>, k: int) -> bool {
    exists|i: int| 0 <= i < s.len() && class_in(kinds, #[trigger] s[i]) == k
}

/// The first card of each class in `cards`, in order.
pub open spec fn class_distinct_spec(kinds: Seq<CardKind>, cards: Seq<CardId>) -> Seq<CardId>
    decreases cards.len(),
{
    if cards.len() == 0 {
        Seq::empty()
    } else {
        let r = class_distinct_spec(kinds, cards.drop_last());
        if has_class(kinds, r, class_in(kinds, cards.last())) { r } else { r.push(cards.last()) }
    }
}

/// Weight of a class in a multiset key: four bits per class.
pub open spec fn class_weight(c: int) -> int
    decreases c,
{
    if c <= 0 {
        1
    } else {
        16 * class_weight(c - 1)
    }
}

/// The multiset of classes of `cards` packed into one number, four bits of
/// count per class.
pub open spec fn class_key(kinds: Seq<CardKind>, cards: Seq<CardId>) -> int
    decreases cards.len(),
{
    if cards.len() == 0 {
        0
    } else {
        class_key(kinds, cards.drop_last()) + class_weight(class_in(kinds, cards.last()))
    }
}

/// The first of each run of combinations sharing a class multiset.
pub open spec fn dedup_by_class(kinds: Seq<CardKind>, combos: Seq<Seq<CardId>>) -> Seq<Seq<CardId>>
    decreases combos.len(),
{
    if combos.len() == 0 {
        Seq::empty()
    } else {
        let r = dedup_by_class(kinds, combos.drop_last());
        if exists|i: int| 0 <= i < r.len() && class_key(kinds, #[trigger] r[i]) == class_key(kinds, combos.last()) {
            r
        } else {
            r.push(combos.last())
        }
    }
}

/// `k`-card picks from `cards`, one per distinct class multiset.
pub open spec fn class_distinct_combinations_spec(kinds: Seq<CardKind>, cards: Seq<CardId>, k: nat) -> Seq<Seq<CardId>> {
    dedup_by_class(kinds, combinations_spec(cards, k))
}

/// Every removal target: each card of each deal with its deal's seller,
/// deal by deal.
pub open spec fn removal_targets(deals: Seq<DealView>) -> Seq<(PlayerId, CardId)>
    decreases deals.len(),
{
    if deals.len() == 0 {
        Seq::empty()
    } else {
        removal_targets(deals.drop_last()).add(
            deal_ids(deals.last().cards).map_values(|c: CardId| (deals.last().seller, c)),
        )
    }
}

/// Number of runs of equal sellers in a removal list.
pub open spec fn seller_runs(rs: Seq<(PlayerId, CardId)>) -> int
    decreases rs.len(),
{
    if rs.len() == 0 {
        0
    } else if rs.len() == 1 {
        1
    } else {
        seller_runs(rs.drop_last()) + if rs.last().0 != rs[rs.len() - 2].0 { 1int } else { 0int }
    }
}

/// The removal lists of `cs` touching at most `max_deals` runs of deals.
pub open spec fn keep_runs(cs: Seq<Seq<(PlayerId, CardId)>>, max_deals: int) -> Seq<Seq<(PlayerId, CardId)>>
    decreases cs.len(),
{
    if cs.len() == 0 {
        Seq::empty()
    } else if seller_runs(cs.last()) <= max_deals {
        keep_runs(cs.drop_last(), max_deals).push(cs.last())
    } else {
        keep_runs(cs.drop_last(), max_deals)
    }
}

/// Removal lists of at most `max_cards` targets touching at most
/// `max_deals` runs of deals, by size then in combination order.
pub open spec fn removal_combinations_spec(deals: Seq<DealView>, max_cards: int, max_deals: int) -> Seq<Seq<(PlayerId, CardId)>>
    decreases max_cards + 1,
{
    if max_cards < 0 {
        Seq::empty()
    } else {
        removal_combinations_spec(deals, max_cards - 1, max_deals).add(
            keep_runs(combinations_spec(removal_targets(deals), max_cards as nat), max_deals),
        )
    }
}

/// The class weight of class `c`.
fn class_weight_exec(c: usize) -> (w: u64)
    requires
        c < 12,
    ensures
        w == class_weight(c as int),
        w <= 0x1000_0000_0000,
{
    let mut w: u64 = 1;
    let mut i: usize = 0;
    while i < c
        invariant
            i <= c,
            c < 12,
            w == class_weight(i as int),
        decreases c - i,
    {
        proof {
            lemma_class_weight_bound(i as int + 1);
        }
        w = w * 16;
        i += 1;
    }
    proof {
        lemma_class_weight_bound(c as int);
    }
    w
}

/// Class weights are positive, grow by sixteen per class, and stay below
/// 16 to the 12th for the twelve real classes.
pub proof fn lemma_class_weight_bound(c: int)
    requires
        0 <= c,
    ensures
        class_weight(c) >= 1,
        c <= 11 ==> class_weight(c) <= 0x1000_0000_0000,
        c >= 1 ==> class_weight(c) == 16 * class_weight(c - 1),
    decreases c,
{
    if c > 0 {
        lemma_class_weight_bound(c - 1);
    }
    if c <= 11 {
        lemma_class_weight_up_to(c);
        assert(class_weight(11) == 0x1000_0000_0000int) by {
            assert(class_weight(0) == 1);
            assert(class_weight(1) == 16);
            assert(class_weight(2) == 256);
            assert(class_weight(3) == 4096);
            assert(class_weight(4) == 65536);
            assert(class_weight(5) == 1048576);
            assert(class_weight(6) == 16777216);
            assert(class_weight(7) == 268435456);
            assert(class_weight(8) == 4294967296);
            assert(class_weight(9) == 68719476736);
            assert(class_weight(10) == 1099511627776);
            assert(class_weight(11) == 17592186044416);
        };
    }
}

/// Class weights only grow up to the last class.
proof fn lemma_class_weight_up_to(c: int)
    requires
        0 <= c <= 11,
    ensures
        class_weight(c) <= class_weight(11),
        class_weight(c) >= 1,
    decreases 11 - c,
{
    lemma_class_weight_pos(c);
    if c < 11 {
        lemma_class_weight_up_to(c + 1);
    }
}

/// Class weights are positive.
proof fn lemma_class_weight_pos(c: int)
    ensures
        class_weight(c) >= 1,
    decreases c,
{
    if c > 0 {
        lemma_class_weight_pos(c - 1);
    }
}

/// Number of cards in `cards` whose class is `c`.
pub open spec fn class_tally_spec(kinds: Seq<CardKind>, cards: Seq<CardId>, c: int) -> int
    decreases cards.len(),
{
    if cards.len() == 0 {
        0
    } else {
        class_tally_spec(kinds, cards.drop_last(), c) + if class_in(kinds, cards.last()) == c { 1int } else { 0int }
    }
}

impl GameState {
    /// Class index of a card.
    pub fn class_of(&self, c: CardId) -> (r: usize)
        ensures
            r == class_in(self@.kinds, c),
            r < 12,
    {
        self.kind_of(c).class_index()
    }

    /// Number of cards of each class among `cards`, indexed by class.
    pub fn class_tally(&self, cards: &[CardId]) -> (r: Vec<u32>)
        requires
            cards@.len() <= u32::MAX,
        ensures
            r@.len() == 12,
            forall|c: int| 0 <= c < 12 ==> #[trigger] r@[c] == class_tally_spec(self@.kinds, cards@, c),
    {
        let mut counts: Vec<u32> = Vec::new();
        let mut c: usize = 0;
        while c < 12
            invariant
                c <= 12,
                counts@.len() == c,
                forall|k: int| 0 <= k < c ==> counts@[k] == 0,
            decreases 12 - c,
        {
            counts.push(0);
            c += 1;
        }
        assert(cards@.take(0) =~= Seq::<CardId>::empty());
        let mut i: usize = 0;
        while i < cards.len()
            invariant
                cards@.len() <= u32::MAX,
                i <= cards@.len(),
                counts@.len() == 12,
                forall|k: int| 0 <= k < 12 ==> #[trigger] counts@[k] == class_tally_spec(self@.kinds, cards@.take(i as int), k),
                forall|k: int| 0 <= k < 12 ==> #[trigger] counts@[k] <= i,
            decreases cards@.len() - i,
        {
            let k = self.class_of(cards[i]);
            proof {
                assert(cards@.take(i as int + 1).drop_last() =~= cards@.take(i as int));
                assert(cards@.take(i as int + 1).last() == cards@[i as int]);
            }
            let old_k = counts[k];
            counts.set(k, old_k + 1);
            i += 1;
        }
        assert(cards@.take(i as int) =~= cards@);
        counts
    }

    /// One representative card id per distinct class, preserving order.
    pub fn class_distinct(&self, cards: &Vec<CardId>) -> (r: Vec<CardId>)
        ensures
            r@ == class_distinct_spec(self@.kinds, cards@),
    {
        let mut seen: Vec<bool> = vec![false, false, false, false, false, false, false, false, false, false, false, false];
        let mut out: Vec<CardId> = Vec::new();
        let mut i: usize = 0;
        while i < cards.len()
            invariant
                i <= cards@.len(),
                seen@.len() == 12,
                out@ == class_distinct_spec(self@.kinds, cards@.take(i as int)),
                forall|k: int| 0 <= k < 12 ==> #[trigger] seen@[k] == has_class(self@.kinds, out@, k),
            decreases cards@.len() - i,
        {
            let c = cards[i];
            let class = self.class_of(c);
            proof {
                assert(cards@.take(i as int + 1).drop_last() =~= cards@.take(i as int));
                assert(cards@.take(i as int + 1).last() == c);
            }
            if !seen[class] {
                let ghost before = out@;
                seen.set(class, true);
                out.push(c);
                proof {
                    assert forall|k: int| 0 <= k < 12 implies #[trigger] seen@[k] == has_class(self@.kinds, out@, k) by {
                        if has_class(self@.kinds, before, k) {
                            let j = choose|j: int| 0 <= j < before.len() && class_in(self@.kinds, #[trigger] before[j]) == k;
                            assert(out@[j] == before[j]);
                        }
                        if k == class {
                            assert(out@[before.len() as int] == c);
                        }
                        if has_class(self@.kinds, out@, k) {
                            let j = choose|j: int| 0 <= j < out@.len() && class_in(self@.kinds, #[trigger] out@[j]) == k;
                            if j < before.len() {
                                assert(before[j] == out@[j]);
                            }
                        }
                    };
                }
            }
            i += 1;
        }
        assert(cards@.take(i as int) =~= cards@);
        out
    }

    /// Packs the class multiset of up to fifteen cards into one number,
    /// four bits of count per class.
    pub fn class_multiset_key(&self, cards: &Vec<CardId>) -> (r: u64)
        requires
            cards@.len() <= 255,
        ensures
            r == class_key(self@.kinds, cards@),
    {
        let mut key: u64 = 0;
        let mut i: usize = 0;
        while i < cards.len()
            invariant
                i <= cards@.len(),
                cards@.len() <= 255,
                key == class_key(self@.kinds, cards@.take(i as int)),
                key <= i * 0x1000_0000_0000,
            decreases cards@.len() - i,
        {
            let w = class_weight_exec(self.class_of(cards[i]));
            proof {
                assert(cards@.take(i as int + 1).drop_last() =~= cards@.take(i as int));
                assert(cards@.take(i as int + 1).last() == cards@[i as int]);
            }
            key = key + w;
            i += 1;
        }
        assert(cards@.take(i as int) =~= cards@);
        key
    }

    /// `k`-card picks from `cards`, keeping only the first for each
    /// distinct multiset of classes.
    pub fn class_distinct_combinations(&self, cards: &Vec<CardId>, k: usize) -> (r: Vec<Vec<CardId>>)
        requires
            k <= 255,
        ensures
            r@.map_values(|c: Vec<CardId>| c@) == class_distinct_combinations_spec(self@.kinds, cards@, k as nat),
    {
        let combos = combinations(cards.as_slice(), k);
        let ghost cs = combinations_spec(cards@, k as nat);
        proof {
            crate::legal::lemma_combination_lengths(cards@, k as nat);
        }
        let mut seen: Vec<u64> = Vec::new();
        let mut out: Vec<Vec<CardId>> = Vec::new();
        let mut i: usize = 0;
        while i < combos.len()
            invariant
                combos@.map_values(|c: Vec<CardId>| c@) == cs,
                forall|j: int| 0 <= j < cs.len() ==> (#[trigger] cs[j]).len() == k,
                k <= 255,
                i <= combos@.len(),
                out@.map_values(|c: Vec<CardId>| c@) == dedup_by_class(self@.kinds, cs.take(i as int)),
                seen@.len() == out@.len(),
                forall|j: int| 0 <= j < out@.len() ==> #[trigger] seen@[j] == class_key(self@.kinds, out@[j]@),
            decreases combos@.len() - i,
        {
            proof {
                assert(cs[i as int] == combos@[i as int]@);
            }
            let key = self.class_multiset_key(&combos[i]);
            proof {
                assert(cs.take(i as int + 1).drop_last() =~= cs.take(i as int));
                assert(cs.take(i as int + 1).last() == cs[i as int]);
            }
            let mut found = false;
            let mut j: usize = 0;
            while j < seen.len()
                invariant
                    j <= seen@.len(),
                    seen@.len() == out@.len(),
                    forall|m: int| 0 <= m < out@.len() ==> #[trigger] seen@[m] == class_key(self@.kinds, out@[m]@),
                    found == exists|m: int| 0 <= m < j && #[trigger] seen@[m] == key,
                decreases seen@.len() - j,
            {
                if seen[j] == key {
                    found = true;
                }
                j += 1;
            }
            let ghost r = out@.map_values(|c: Vec<CardId>| c@);
            proof {
                assert(found == exists|m: int| 0 <= m < r.len() && class_key(self@.kinds, #[trigger] r[m]) == class_key(self@.kinds, cs[i as int])) by {
                    if found {
                        let m = choose|m: int| 0 <= m < seen@.len() && #[trigger] seen@[m] == key;
                        assert(r[m] == out@[m]@);
                    }
                    if exists|m: int| 0 <= m < r.len() && class_key(self@.kinds, #[trigger] r[m]) == class_key(self@.kinds, cs[i as int]) {
                        let m = choose|m: int| 0 <= m < r.len() && class_key(self@.kinds, #[trigger] r[m]) == class_key(self@.kinds, cs[i as int]);
                        assert(r[m] == out@[m]@);
                        assert(seen@[m] == key);
                    }
                };
            }
            if !found {
                let c = crate::access::copy_ids(&combos[i]);
                let ghost before = out@;
                seen.push(key);
                out.push(c);
                proof {
                    before.lemma_push_map_commute(|c: Vec<CardId>| c@, c);
                }
            }
            i += 1;
        }
        assert(cs.take(i as int) =~= cs);
        out
    }
}

/// Every combination has the size asked for.
pub proof fn lemma_combination_lengths<T>(s: Seq<T>, k: nat)
    ensures
        forall|j: int| 0 <= j < combinations_spec(s, k).len() ==> (#[trigger] combinations_spec(s, k)[j]).len() == k,
    decreases s.len(), k,
{
    if k == 0 {
    } else if s.len() < k {
    } else {
        lemma_combination_lengths(s.drop_first(), (k - 1) as nat);
        lemma_combination_lengths(s.drop_first(), k);
        let a = combinations_spec(s.drop_first(), (k - 1) as nat).map_values(|c: Seq<T>| seq![s[0]] + c);
        let b = combinations_spec(s.drop_first(), k);
        assert forall|j: int| 0 <= j < combinations_spec(s, k).len() implies (#[trigger] combinations_spec(s, k)[j]).len() == k by {
            if j < a.len() {
                assert(combinations_spec(s, k)[j] == a[j]);
                assert(combinations_spec(s.drop_first(), (k - 1) as nat)[j].len() == k - 1);
            } else {
                assert(combinations_spec(s, k)[j] == b[j - a.len()]);
            }
        };
    }
}


/// Number of runs of equal sellers in a removal list.
fn seller_runs_exec(c: &Vec<(PlayerId, CardId)>) -> (r: usize)
    ensures
        r == seller_runs(c@),
{
    if c.len() == 0 {
        return 0;
    }
    let mut runs: usize = 1;
    let mut i: usize = 1;
    while i < c.len()
        invariant
            1 <= i <= c@.len(),
            runs <= i,
            runs == seller_runs(c@.take(i as int)),
        decreases c@.len() - i,
    {
        proof {
            assert(c@.take(i as int + 1).drop_last() =~= c@.take(i as int));
            assert(c@.take(i as int + 1).last() == c@[i as int]);
            assert(c@.take(i as int + 1)[i - 1] == c@[i - 1]);
        }
        if c[i].0 != c[i - 1].0 {
            runs = runs + 1;
        }
        i += 1;
    }
    assert(c@.take(i as int) =~= c@);
    runs
}

impl GameState {
    /// Every removal target: each card of each deal with its deal's seller.
    fn all_removal_targets(&self) -> (r: Vec<(PlayerId, CardId)>)
        ensures
            r@ == removal_targets(self@.deals),
    {
        let ghost ds = self@.deals;
        let mut out: Vec<(PlayerId, CardId)> = Vec::new();
        let mut d: usize = 0;
        while d < self.deals.len()
            invariant
                ds == self@.deals,
                d <= ds.len(),
                out@ == removal_targets(ds.take(d as int)),
            decreases ds.len() - d,
        {
            let deal = &self.deals[d];
            let ghost dv = ds[d as int];
            assert(dv == deal@);
            let ghost base = out@;
            let mut j: usize = 0;
            while j < deal.cards.len()
                invariant
                    dv == deal@,
                    j <= dv.cards.len(),
                    out@ == base.add(deal_ids(dv.cards).map_values(|c: CardId| (dv.seller, c)).take(j as int)),
                decreases dv.cards.len() - j,
            {
                out.push((deal.seller, deal.cards[j].card));
                j += 1;
                assert(out@ =~= base.add(deal_ids(dv.cards).map_values(|c: CardId| (dv.seller, c)).take(j as int)));
            }
            proof {
                assert(deal_ids(dv.cards).map_values(|c: CardId| (dv.seller, c)).take(j as int)
                    =~= deal_ids(dv.cards).map_values(|c: CardId| (dv.seller, c)));
                assert(ds.take(d as int + 1).drop_last() =~= ds.take(d as int));
                assert(ds.take(d as int + 1).last() == dv);
            }
            d += 1;
        }
        assert(ds.take(d as int) =~= ds);
        out
    }

    /// All removal lists of `0..=max_cards` targets touching at most
    /// `max_deals` runs of deals (a deal's cards are adjacent, so a run is
    /// a deal).
    pub fn removal_combinations(&self, max_cards: u8, max_deals: u8) -> (r: Vec<Vec<(PlayerId, CardId)>>)
        ensures
            r@.map_values(|c: Vec<(PlayerId, CardId)>| c@) == removal_combinations_spec(self@.deals, max_cards as int, max_deals as int),
    {
        let targets = self.all_removal_targets();
        let mut results: Vec<Vec<(PlayerId, CardId)>> = Vec::new();
        let mut k: usize = 0;
        assert(results@.map_values(|c: Vec<(PlayerId, CardId)>| c@) =~= removal_combinations_spec(self@.deals, -1, max_deals as int));
        while k <= max_cards as usize
            invariant
                targets@ == removal_targets(self@.deals),
                k <= max_cards as usize + 1,
                results@.map_values(|c: Vec<(PlayerId, CardId)>| c@) == removal_combinations_spec(self@.deals, k - 1, max_deals as int),
            decreases max_cards as usize + 1 - k,
        {
            let combos = combinations(targets.as_slice(), k);
            let ghost cs = combinations_spec(targets@, k as nat);
            let ghost base = results@.map_values(|c: Vec<(PlayerId, CardId)>| c@);
            let mut i: usize = 0;
            while i < combos.len()
                invariant
                    combos@.map_values(|c: Vec<(PlayerId, CardId)>| c@) == cs,
                    i <= combos@.len(),
                    results@.map_values(|c: Vec<(PlayerId, CardId)>| c@) == base.add(keep_runs(cs.take(i as int), max_deals as int)),
                decreases combos@.len() - i,
            {
                proof {
                    assert(cs[i as int] == combos@[i as int]@);
                    assert(cs.take(i as int + 1).drop_last() =~= cs.take(i as int));
                    assert(cs.take(i as int + 1).last() == cs[i as int]);
                }
                let runs = seller_runs_exec(&combos[i]);
                if runs <= max_deals as usize {
                    let mut c: Vec<(PlayerId, CardId)> = Vec::new();
                    let src = &combos[i];
                    let mut j: usize = 0;
                    while j < src.len()
                        invariant
                            j <= src@.len(),
                            c@ == src@.take(j as int),
                        decreases src@.len() - j,
                    {
                        c.push(src[j]);
                        j += 1;
                        assert(c@ =~= src@.take(j as int));
                    }
                    assert(src@.take(j as int) =~= src@);
                    let ghost before = results@;
                    results.push(c);
                    proof {
                        before.lemma_push_map_commute(|c: Vec<(PlayerId, CardId)>| c@, c);
                        assert(results@.map_values(|c: Vec<(PlayerId, CardId)>| c@)
                            =~= base.add(keep_runs(cs.take(i as int + 1), max_deals as int)));
                    }
                } else {
                    assert(keep_runs(cs.take(i as int + 1), max_deals as int) == keep_runs(cs.take(i as int), max_deals as int));
                }
                i += 1;
            }
            assert(cs.take(i as int) =~= cs);
            k += 1;
        }
        results
    }
}

/// Abstract values of a list of actions.
pub open spec fn actions_view(acts: Seq<Action>) -> Seq<ActionView> {
    acts.map_values(|a: Action| a@)
}

/// Whether a keep-mask keeps card `k` (of three) of a pick on the
/// active player's own side: bit `k` of the mask.
pub open spec fn keeps(mask: int, k: int) -> bool {
    (if k == 0 { mask % 2 } else if k == 1 { (mask / 2) % 2 } else { (mask / 4) % 2 }) == 1
}

/// The first `n` cards of pick `c` that the mask keeps, in order.
pub open spec fn kept(c: Seq<CardId>, mask: int, n: int) -> Seq<CardId>
    decreases n,
{
    if n <= 0 {
        Seq::empty()
    } else if keeps(mask, n - 1) {
        kept(c, mask, n - 1).push(c[n - 1])
    } else {
        kept(c, mask, n - 1)
    }
}

/// The first `n` cards of pick `c` that the mask gives away, in order.
pub open spec fn given(c: Seq<CardId>, mask: int, n: int) -> Seq<CardId>
    decreases n,
{
    if n <= 0 {
        Seq::empty()
    } else if keeps(mask, n - 1) {
        given(c, mask, n - 1)
    } else {
        given(c, mask, n - 1).push(c[n - 1])
    }
}

/// Every (pick, keep-mask) pair: pick by pick, masks 0 to 7.
pub open spec fn split_candidates(cs: Seq<Seq<CardId>>) -> Seq<(Seq<CardId>, int)>
    decreases cs.len(),
{
    if cs.len() == 0 {
        Seq::empty()
    } else {
        split_candidates(cs.drop_last()) + Seq::new(8, |m: int| (cs.last(), m))
    }
}

/// What identifies a split offer: the classes offered and the classes kept.
pub open spec fn split_key(kinds: Seq<CardKind>, p: (Seq<CardId>, int)) -> (int, int) {
    (class_key(kinds, p.0), class_key(kinds, kept(p.0, p.1, 3)))
}

/// The first candidate of each offer key.
pub open spec fn dedup_splits(kinds: Seq<CardKind>, ps: Seq<(Seq<CardId>, int)>) -> Seq<(Seq<CardId>, int)>
    decreases ps.len(),
{
    if ps.len() == 0 {
        Seq::empty()
    } else {
        let r = dedup_splits(kinds, ps.drop_last());
        if exists|i: int| 0 <= i < r.len() && split_key(kinds, #[trigger] r[i]) == split_key(kinds, ps.last()) {
            r
        } else {
            r.push(ps.last())
        }
    }
}

/// The split offer a (pick, keep-mask) pair makes.
pub open spec fn split_action(p: (Seq<CardId>, int)) -> ActionView {
    ActionView::TwoPlayerSubmitDeal { own_pile: kept(p.0, p.1, 3), other_pile: given(p.0, p.1, 3) }
}

/// Two-player split offers: each class-distinct three-card pick of the
/// hand crossed with each assignment of its cards to a side, keeping the
/// first of each (classes offered, classes kept) pair.
pub open spec fn split_options(v: GameView, player: PlayerId) -> Seq<ActionView> {
    dedup_splits(v.kinds, split_candidates(class_distinct_combinations_spec(v.kinds, v.hand(player), 3)))
        .map_values(|p: (Seq<CardId>, int)| split_action(p))
}

/// A thingamabob play of `card` with `params`.
pub open spec fn play(card: CardId, params: ParamsView) -> ActionView {
    ActionView::PlayThingamabob { card, params }
}

/// Seats `0..t` other than `player` that hold more point tokens than
/// `player`, in seat order.
pub open spec fn richer_seats(v: GameView, player: PlayerId, t: int) -> Seq<PlayerId>
    decreases t,
{
    if t <= 0 {
        Seq::empty()
    } else if t - 1 != player && v.tokens((t - 1) as PlayerId) > v.tokens(player) {
        richer_seats(v, player, t - 1).push((t - 1) as PlayerId)
    } else {
        richer_seats(v, player, t - 1)
    }
}

/// Cryptozootic Expander plays: each hand card offered into each deal,
/// hand card by hand card.
pub open spec fn expander_plays(card: CardId, hand_reps: Seq<CardId>, deals: Seq<DealView>) -> Seq<ActionView>
    decreases hand_reps.len(),
{
    if hand_reps.len() == 0 {
        Seq::empty()
    } else {
        expander_plays(card, hand_reps.drop_last(), deals) + deals.map_values(
            |d: DealView| play(card, ParamsView::CryptozooticExpander { hand_card: hand_reps.last(), target_deal: d.seller }),
        )
    }
}

/// Spectroelectric Optimeter plays: each still-hidden card of each deal,
/// deal by deal.
pub open spec fn optimeter_plays(card: CardId, deals: Seq<DealView>) -> Seq<ActionView>
    decreases deals.len(),
{
    if deals.len() == 0 {
        Seq::empty()
    } else {
        optimeter_plays(card, deals.drop_last()) + hidden_ids(deals.last().cards).map_values(
            |c: CardId| play(card, ParamsView::SpectroelectricOptimeter { target_deal: deals.last().seller, target_card: c }),
        )
    }
}

/// The plays `player` can make with `card`, by its effect; none unless it
/// is a thingamabob.
pub open spec fn card_plays(v: GameView, player: PlayerId, card: CardId) -> Seq<ActionView> {
    match v.kind(card) {
        CardKind::Thingamabob(k) => match v.catalog.thingamabob_effect_of(k) {
            ThingamabobEffect::StealPointTokenFromRicherPlayer => richer_seats(v, player, v.num_players as int).map_values(
                |t: PlayerId| play(card, ParamsView::PlatonicIsolator { target_player: t }),
            ),
            ThingamabobEffect::RemoveCardsFromDeals { max_cards, max_deals } => removal_combinations_spec(
                v.deals,
                max_cards as int,
                max_deals as int,
            ).map_values(|rs: Seq<(PlayerId, CardId)>| play(card, ParamsView::RemoveFromDeals { removals: rs })),
            ThingamabobEffect::AddHiddenHandCardToDeal => expander_plays(
                card,
                class_distinct_spec(v.kinds, v.hand(player)),
                v.deals,
            ),
            ThingamabobEffect::RevealCardInDeal => optimeter_plays(card, v.deals),
        },
        _ => Seq::empty(),
    }
}

/// The plays of each of `reps`, in order.
pub open spec fn plays_of(v: GameView, player: PlayerId, reps: Seq<CardId>) -> Seq<ActionView>
    decreases reps.len(),
{
    if reps.len() == 0 {
        Seq::empty()
    } else {
        plays_of(v, player, reps.drop_last()) + card_plays(v, player, reps.last())
    }
}

/// The response-window options: passing, then the plays of the first card
/// of each class in `player`'s collection.
pub open spec fn window_options(v: GameView, player: PlayerId) -> Seq<ActionView> {
    seq![ActionView::PassThingamabobWindow] + plays_of(v, player, class_distinct_spec(v.kinds, v.collection(player)))
}

impl GameState {
    /// Every way the active player can split three of their own hand cards
    /// between the two piles: each class-distinct three-card pick crossed
    /// with each assignment of its cards to a side, one per distinct
    /// (classes offered, classes kept) pair.
    pub fn legal_two_player_splits(&self, player: PlayerId) -> (r: Vec<Action>)
        requires
            player < self@.players.len(),
        ensures
            actions_view(r@) == split_options(self@, player),
    {
        let ghost kinds = self@.kinds;
        let hand = crate::access::copy_ids(&self.players[player].hand);
        let combos = self.class_distinct_combinations(&hand, 3);
        let ghost cs = class_distinct_combinations_spec(kinds, hand@, 3);
        proof {
            lemma_cdc_members(kinds, hand@, 3);
        }
        let mut actions: Vec<Action> = Vec::new();
        let mut seen: Vec<(u64, u64)> = Vec::new();
        let mut ci: usize = 0;
        while ci < combos.len()
            invariant
                kinds == self@.kinds,
                combos@.map_values(|c: Vec<CardId>| c@) == cs,
                forall|j: int| 0 <= j < cs.len() ==> (#[trigger] cs[j]).len() == 3,
                ci <= combos@.len(),
                actions_view(actions@) == dedup_splits(kinds, split_candidates(cs.take(ci as int)))
                    .map_values(|p: (Seq<CardId>, int)| split_action(p)),
                seen@.map_values(|k: (u64, u64)| (k.0 as int, k.1 as int))
                    == dedup_splits(kinds, split_candidates(cs.take(ci as int)))
                    .map_values(|p: (Seq<CardId>, int)| split_key(kinds, p)),
            decreases combos@.len() - ci,
        {
            let combo = &combos[ci];
            proof {
                assert(cs[ci as int] == combo@);
            }
            let combo_key = self.class_multiset_key(combo);
            let ghost base = split_candidates(cs.take(ci as int));
            let mut mask: u8 = 0;
            while mask < 8
                invariant
                    kinds == self@.kinds,
                    combo@.len() == 3,
                    combo_key == class_key(kinds, combo@),
                    mask <= 8,
                    actions_view(actions@) == dedup_splits(kinds, base + Seq::new(mask as nat, |m: int| (combo@, m)))
                        .map_values(|p: (Seq<CardId>, int)| split_action(p)),
                    seen@.map_values(|k: (u64, u64)| (k.0 as int, k.1 as int))
                        == dedup_splits(kinds, base + Seq::new(mask as nat, |m: int| (combo@, m)))
                        .map_values(|p: (Seq<CardId>, int)| split_key(kinds, p)),
                decreases 8 - mask,
            {
                let ghost pre = base + Seq::new(mask as nat, |m: int| (combo@, m));
                let ghost r0 = dedup_splits(kinds, pre);
                let mut own_key: u64 = 0;
                let mut own_pile: Vec<CardId> = Vec::new();
                let mut other_pile: Vec<CardId> = Vec::new();
                let mut i: usize = 0;
                while i < 3
                    invariant
                        kinds == self@.kinds,
                        combo@.len() == 3,
                        i <= 3,
                        mask < 8,
                        own_pile@ == kept(combo@, mask as int, i as int),
                        other_pile@ == given(combo@, mask as int, i as int),
                        own_key == class_key(kinds, own_pile@),
                        own_key <= i * 0x1000_0000_0000,
                    decreases 3 - i,
                {
                    let card = combo[i];
                    let keep = if i == 0 {
                        mask % 2 == 1
                    } else if i == 1 {
                        (mask / 2) % 2 == 1
                    } else {
                        (mask / 4) % 2 == 1
                    };
                    proof {
                        assert(keep == keeps(mask as int, i as int));
                    }
                    if keep {
                        let w = class_weight_exec(self.class_of(card));
                        proof {
                            assert(own_pile@.push(card).drop_last() =~= own_pile@);
                        }
                        own_key = own_key + w;
                        own_pile.push(card);
                    } else {
                        other_pile.push(card);
                    }
                    i += 1;
                }
                let mut dup = false;
                let mut j: usize = 0;
                while j < seen.len()
                    invariant
                        j <= seen@.len(),
                        dup <==> exists|q: int| 0 <= q < j && #[trigger] seen@[q] == (combo_key, own_key),
                    decreases seen@.len() - j,
                {
                    if seen[j].0 == combo_key && seen[j].1 == own_key {
                        dup = true;
                    }
                    j += 1;
                }
                let ghost cand = (combo@, mask as int);
                let ghost next = pre.push(cand);
                proof {
                    assert(next =~= base + Seq::new(mask as nat + 1, |m: int| (combo@, m)));
                    assert(next.drop_last() =~= pre);
                    assert(split_key(kinds, cand) == (combo_key as int, own_key as int));
                    let sk = seen@.map_values(|k: (u64, u64)| (k.0 as int, k.1 as int));
                    assert(sk.len() == r0.len());
                    if dup {
                        let q = choose|q: int| 0 <= q < seen@.len() && #[trigger] seen@[q] == (combo_key, own_key);
                        assert(sk[q] == split_key(kinds, r0[q]));
                        assert(split_key(kinds, r0[q]) == split_key(kinds, next.last()));
                    } else {
                        assert forall|q: int| 0 <= q < r0.len() implies split_key(kinds, #[trigger] r0[q]) != split_key(kinds, next.last()) by {
                            assert(sk[q] == split_key(kinds, r0[q]));
                            assert(seen@[q] != (combo_key, own_key));
                        };
                    }
                }
                if !dup {
                    let ghost old_actions = actions@;
                    let ghost old_seen = seen@;
                    let ghost own_v = own_pile@;
                    let ghost other_v = other_pile@;
                    seen.push((combo_key, own_key));
                    let act = Action::TwoPlayerSubmitDeal { own_pile, other_pile };
                    proof {
                        assert(act@ == ActionView::TwoPlayerSubmitDeal { own_pile: own_v, other_pile: other_v });
                        assert(act@ == split_action(cand));
                    }
                    actions.push(act);
                    proof {
                        assert(actions@ == old_actions.push(act));
                        assert(seen@ == old_seen.push((combo_key, own_key)));
                        assert(actions_view(actions@) =~= actions_view(old_actions).push(act@));
                        assert(dedup_splits(kinds, next) == r0.push(cand));
                        assert(actions_view(actions@) =~= r0.push(cand).map_values(|p: (Seq<CardId>, int)| split_action(p)));
                        assert(old_seen.map_values(|k: (u64, u64)| (k.0 as int, k.1 as int))
                            == r0.map_values(|p: (Seq<CardId>, int)| split_key(kinds, p)));
                        assert(seen@.map_values(|k: (u64, u64)| (k.0 as int, k.1 as int))
                            =~= old_seen.map_values(|k: (u64, u64)| (k.0 as int, k.1 as int)).push(
                                (combo_key as int, own_key as int)));
                        assert(r0.push(cand).map_values(|p: (Seq<CardId>, int)| split_key(kinds, p))
                            =~= r0.map_values(|p: (Seq<CardId>, int)| split_key(kinds, p)).push(split_key(kinds, cand)));
                    }
                } else {
                    proof {
                        assert(dedup_splits(kinds, next) == r0);
                    }
                }
                mask = mask + 1;
            }
            proof {
                assert(cs.take(ci as int + 1).drop_last() =~= cs.take(ci as int));
                assert(cs.take(ci as int + 1).last() == combo@);
                assert(split_candidates(cs.take(ci as int + 1)) =~= base + Seq::new(8, |m: int| (combo@, m)));
            }
            ci += 1;
        }
        proof {
            assert(cs.take(combos@.len() as int) =~= cs);
        }
        actions
    }
}

/// Every class-distinct pick has the size asked for and is made of the
/// given cards.
pub proof fn lemma_cdc_members(kinds: Seq<CardKind>, cards: Seq<CardId>, k: nat)
    ensures
        forall|j: int| 0 <= j < class_distinct_combinations_spec(kinds, cards, k).len() ==>
            (#[trigger] class_distinct_combinations_spec(kinds, cards, k)[j]).len() == k
            && forall|m: int| 0 <= m < class_distinct_combinations_spec(kinds, cards, k)[j].len() ==>
                cards.contains(#[trigger] class_distinct_combinations_spec(kinds, cards, k)[j][m]),
{
    let cs = combinations_spec(cards, k);
    lemma_combination_lengths(cards, k);
    lemma_combination_members(cards, k);
    lemma_dedup_subset(kinds, cs);
}

/// Every member of a combination is one of the items.
pub proof fn lemma_combination_members<T>(s: Seq<T>, k: nat)
    ensures
        forall|j: int, m: int| 0 <= j < combinations_spec(s, k).len() && 0 <= m < combinations_spec(s, k)[j].len() ==>
            s.contains(#[trigger] combinations_spec(s, k)[j][m]),
    decreases s.len(), k,
{
    if k == 0 {
    } else if s.len() < k {
    } else {
        let t = s.drop_first();
        lemma_combination_members(t, (k - 1) as nat);
        lemma_combination_members(t, k);
        let a = combinations_spec(t, (k - 1) as nat).map_values(|c: Seq<T>| seq![s[0]] + c);
        let b = combinations_spec(t, k);
        assert forall|j: int, m: int| 0 <= j < combinations_spec(s, k).len() && 0 <= m < combinations_spec(s, k)[j].len() implies
            s.contains(#[trigger] combinations_spec(s, k)[j][m]) by {
            let x = combinations_spec(s, k)[j][m];
            if j < a.len() {
                assert(combinations_spec(s, k)[j] == a[j]);
                let c = combinations_spec(t, (k - 1) as nat)[j];
                assert(a[j] == seq![s[0]] + c);
                if m == 0 {
                    assert(s[0] == x);
                } else {
                    assert(c[m - 1] == x);
                    assert(t.contains(x));
                    let q = choose|q: int| 0 <= q < t.len() && t[q] == x;
                    assert(s[q + 1] == x);
                }
            } else {
                assert(combinations_spec(s, k)[j] == b[j - a.len()]);
                assert(t.contains(x));
                let q = choose|q: int| 0 <= q < t.len() && t[q] == x;
                assert(s[q + 1] == x);
            }
        };
    }
}

/// Deduplicating keeps only elements of the original list.
pub proof fn lemma_dedup_subset(kinds: Seq<CardKind>, cs: Seq<Seq<CardId>>)
    ensures
        forall|j: int| 0 <= j < dedup_by_class(kinds, cs).len() ==> cs.contains(#[trigger] dedup_by_class(kinds, cs)[j]),
    decreases cs.len(),
{
    if cs.len() > 0 {
        lemma_dedup_subset(kinds, cs.drop_last());
        let r = dedup_by_class(kinds, cs.drop_last());
        assert forall|j: int| 0 <= j < dedup_by_class(kinds, cs).len() implies cs.contains(#[trigger] dedup_by_class(kinds, cs)[j]) by {
            let x = dedup_by_class(kinds, cs)[j];
            if j < r.len() {
                assert(x == r[j]);
                assert(cs.drop_last().contains(x));
                let q = choose|q: int| 0 <= q < cs.drop_last().len() && cs.drop_last()[q] == x;
                assert(cs[q] == x);
            } else {
                assert(x == cs.last());
                assert(cs[cs.len() - 1] == x);
            }
        };
    }
}

/// The buyer's peek options: one per deal, in deal order.
pub open spec fn peek_options(v: GameView) -> Seq<ActionView> {
    v.deals.map_values(|d: DealView| ActionView::BuyerPeek { target_seller: d.seller })
}

/// The buyer's choice options: one per deal, in deal order.
pub open spec fn choose_options(v: GameView) -> Seq<ActionView> {
    v.deals.map_values(|d: DealView| ActionView::ChooseDeal { seller: d.seller })
}

/// Submission options: one three-card pick per class multiset.
pub open spec fn submit_options(v: GameView, player: PlayerId) -> Seq<ActionView> {
    class_distinct_combinations_spec(v.kinds, v.hand(player), 3).map_values(|c: Seq<CardId>| ActionView::SubmitDeal { cards: c })
}

/// Reveal options: one card per class among `cards`.
pub open spec fn reveal_options(v: GameView, cards: Seq<CardId>) -> Seq<ActionView> {
    class_distinct_spec(v.kinds, cards).map_values(|c: CardId| ActionView::RevealCard { card: c })
}

/// Every card id of the deals, deal by deal.
pub open spec fn all_deal_ids(ds: Seq<DealView>) -> Seq<CardId>
    decreases ds.len(),
{
    if ds.len() == 0 { Seq::empty() } else { all_deal_ids(ds.drop_last()).add(deal_ids(ds.last().cards)) }
}

/// Penalty options: every class-distinct pick of `0..=max` cards from the
/// loser's collection, by size.
pub open spec fn resolve_options(kinds: Seq<CardKind>, coll: Seq<CardId>, max: int) -> Seq<ActionView>
    decreases max + 1,
{
    if max < 0 {
        Seq::empty()
    } else {
        resolve_options(kinds, coll, max - 1).add(
            class_distinct_combinations_spec(kinds, coll, max as nat).map_values(
                |c: Seq<CardId>| ActionView::ResolveNastyPenalty { taken_cards: c },
            ),
        )
    }
}

impl GameState {
    /// Every legal way `player` can act in the response window: passing
    /// first, then the plays of one thingamabob per class they hold.
    pub fn legal_thingamabob_actions(&self, player: PlayerId) -> (r: Vec<Action>)
        requires
            self@.wf(),
            player < self@.num_players,
        ensures
            actions_view(r@) == window_options(self@, player),
    {
        let ghost v = self@;
        let mut actions: Vec<Action> = vec![Action::PassThingamabobWindow];
        let coll = crate::access::copy_ids(&self.players[player].collection);
        let reps = self.class_distinct(&coll);
        proof {
            lemma_class_distinct_subset(v.kinds, coll@);
            assert(actions_view(actions@) =~= seq![ActionView::PassThingamabobWindow] + plays_of(v, player, reps@.take(0)));
        }
        let mut ci: usize = 0;
        while ci < reps.len()
            invariant
                v == self@,
                v.wf(),
                player < v.num_players,
                coll@ == v.collection(player),
                reps@ == class_distinct_spec(v.kinds, coll@),
                forall|j: int| 0 <= j < reps@.len() ==> coll@.contains(#[trigger] reps@[j]),
                ci <= reps@.len(),
                actions_view(actions@) == seq![ActionView::PassThingamabobWindow] + plays_of(v, player, reps@.take(ci as int)),
            decreases reps@.len() - ci,
        {
            let card = reps[ci];
            let ghost base = actions_view(actions@);
            proof {
                assert(reps@.take(ci as int + 1).drop_last() =~= reps@.take(ci as int));
                assert(reps@.take(ci as int + 1).last() == card);
                assert(seq![ActionView::PassThingamabobWindow] + plays_of(v, player, reps@.take(ci as int + 1))
                    =~= base + card_plays(v, player, card));
            }
            let kind = match self.kind_of(card) {
                CardKind::Thingamabob(k) => k,
                _ => {
                    proof {
                        assert(card_plays(v, player, card) == Seq::<ActionView>::empty());
                        assert(base + card_plays(v, player, card) =~= base);
                    }
                    ci += 1;
                    continue;
                },
            };
            proof {
                assert(v.kinds[card as int] == CardKind::Thingamabob(kind));
            }
            let effect = self.catalog.thingamabob_effect(kind);
            match effect {
                ThingamabobEffect::StealPointTokenFromRicherPlayer => {
                    let mine = self.players[player].point_tokens;
                    let mut t: usize = 0;
                    while t < self.num_players
                        invariant
                            v == self@,
                            v.wf(),
                            player < v.num_players,
                            mine == v.tokens(player),
                            t <= v.num_players,
                            actions_view(actions@) == base + richer_seats(v, player, t as int).map_values(
                                |q: PlayerId| play(card, ParamsView::PlatonicIsolator { target_player: q }),
                            ),
                        decreases v.num_players - t,
                    {
                        if t != player && self.players[t].point_tokens > mine {
                            let a = Action::PlayThingamabob {
                                card,
                                params: ThingamabobParams::PlatonicIsolator { target_player: t },
                            };
                            let ghost b = actions@;
                            actions.push(a);
                            proof {
                                lemma_actions_view_push(b, a);
                                assert(richer_seats(v, player, t as int + 1) == richer_seats(v, player, t as int).push(t));
                                assert(actions_view(actions@) =~= base + richer_seats(v, player, t as int + 1).map_values(
                                    |q: PlayerId| play(card, ParamsView::PlatonicIsolator { target_player: q }),
                                ));
                            }
                        } else {
                            proof {
                                assert(richer_seats(v, player, t as int + 1) == richer_seats(v, player, t as int));
                            }
                        }
                        t += 1;
                    }
                },
                ThingamabobEffect::RemoveCardsFromDeals { max_cards, max_deals } => {
                    let lists = self.removal_combinations(max_cards, max_deals);
                    let ghost rcs = removal_combinations_spec(v.deals, max_cards as int, max_deals as int);
                    let mut li: usize = 0;
                    while li < lists.len()
                        invariant
                            v == self@,
                            lists@.map_values(|c: Vec<(PlayerId, CardId)>| c@) == rcs,
                            li <= lists@.len(),
                            actions_view(actions@) == base + rcs.take(li as int).map_values(
                                |rs: Seq<(PlayerId, CardId)>| play(card, ParamsView::RemoveFromDeals { removals: rs }),
                            ),
                        decreases lists@.len() - li,
                    {
                        let mut removals: Vec<(PlayerId, CardId)> = Vec::new();
                        let src = &lists[li];
                        let mut j: usize = 0;
                        while j < src.len()
                            invariant
                                j <= src@.len(),
                                removals@ == src@.take(j as int),
                            decreases src@.len() - j,
                        {
                            removals.push(src[j]);
                            j += 1;
                            assert(removals@ =~= src@.take(j as int));
                        }
                        proof {
                            assert(removals@ =~= src@);
                            assert(rcs[li as int] == src@);
                        }
                        let a = Action::PlayThingamabob { card, params: ThingamabobParams::RemoveFromDeals { removals } };
                        let ghost b = actions@;
                        actions.push(a);
                        proof {
                            lemma_actions_view_push(b, a);
                            assert(rcs.take(li as int + 1) =~= rcs.take(li as int).push(rcs[li as int]));
                            assert(actions_view(actions@) =~= base + rcs.take(li as int + 1).map_values(
                                |rs: Seq<(PlayerId, CardId)>| play(card, ParamsView::RemoveFromDeals { removals: rs }),
                            ));
                        }
                        li += 1;
                    }
                    proof {
                        assert(rcs.take(li as int) =~= rcs);
                    }
                },
                ThingamabobEffect::AddHiddenHandCardToDeal => {
                    let hand = crate::access::copy_ids(&self.players[player].hand);
                    let hand_reps = self.class_distinct(&hand);
                    let mut hi: usize = 0;
                    while hi < hand_reps.len()
                        invariant
                            v == self@,
                            hand_reps@ == class_distinct_spec(v.kinds, v.hand(player)),
                            hi <= hand_reps@.len(),
                            actions_view(actions@) == base + expander_plays(card, hand_reps@.take(hi as int), v.deals),
                        decreases hand_reps@.len() - hi,
                    {
                        let hc = hand_reps[hi];
                        let ghost mid = actions_view(actions@);
                        let mut d: usize = 0;
                        while d < self.deals.len()
                            invariant
                                v == self@,
                                d <= v.deals.len(),
                                actions_view(actions@) == mid + v.deals.take(d as int).map_values(
                                    |x: DealView| play(card, ParamsView::CryptozooticExpander { hand_card: hc, target_deal: x.seller }),
                                ),
                            decreases v.deals.len() - d,
                        {
                            let a = Action::PlayThingamabob {
                                card,
                                params: ThingamabobParams::CryptozooticExpander {
                                    hand_card: hc,
                                    target_deal: self.deals[d].seller,
                                },
                            };
                            let ghost b = actions@;
                            actions.push(a);
                            proof {
                                lemma_actions_view_push(b, a);
                                assert(v.deals.take(d as int + 1) =~= v.deals.take(d as int).push(v.deals[d as int]));
                                assert(actions_view(actions@) =~= mid + v.deals.take(d as int + 1).map_values(
                                    |x: DealView| play(card, ParamsView::CryptozooticExpander { hand_card: hc, target_deal: x.seller }),
                                ));
                            }
                            d += 1;
                        }
                        proof {
                            assert(v.deals.take(d as int) =~= v.deals);
                            assert(hand_reps@.take(hi as int + 1).drop_last() =~= hand_reps@.take(hi as int));
                            assert(hand_reps@.take(hi as int + 1).last() == hc);
                            assert(actions_view(actions@) =~= base + expander_plays(card, hand_reps@.take(hi as int + 1), v.deals));
                        }
                        hi += 1;
                    }
                    proof {
                        assert(hand_reps@.take(hi as int) =~= hand_reps@);
                    }
                },
                ThingamabobEffect::RevealCardInDeal => {
                    let mut d: usize = 0;
                    while d < self.deals.len()
                        invariant
                            v == self@,
                            d <= v.deals.len(),
                            actions_view(actions@) == base + optimeter_plays(card, v.deals.take(d as int)),
                        decreases v.deals.len() - d,
                    {
                        let hidden = self.deals[d].hidden_cards();
                        let seller = self.deals[d].seller;
                        let ghost mid = actions_view(actions@);
                        let mut h: usize = 0;
                        while h < hidden.len()
                            invariant
                                v == self@,
                                d < v.deals.len(),
                                h <= hidden@.len(),
                                actions_view(actions@) == mid + hidden@.take(h as int).map_values(
                                    |c: CardId| play(card, ParamsView::SpectroelectricOptimeter { target_deal: seller, target_card: c }),
                                ),
                            decreases hidden@.len() - h,
                        {
                            let a = Action::PlayThingamabob {
                                card,
                                params: ThingamabobParams::SpectroelectricOptimeter {
                                    target_deal: seller,
                                    target_card: hidden[h],
                                },
                            };
                            let ghost b = actions@;
                            actions.push(a);
                            proof {
                                lemma_actions_view_push(b, a);
                                assert(hidden@.take(h as int + 1) =~= hidden@.take(h as int).push(hidden@[h as int]));
                                assert(actions_view(actions@) =~= mid + hidden@.take(h as int + 1).map_values(
                                    |c: CardId| play(card, ParamsView::SpectroelectricOptimeter { target_deal: seller, target_card: c }),
                                ));
                            }
                            h += 1;
                        }
                        proof {
                            assert(hidden@.take(h as int) =~= hidden@);
                            assert(v.deals.take(d as int + 1).drop_last() =~= v.deals.take(d as int));
                            assert(v.deals.take(d as int + 1).last() == v.deals[d as int]);
                            assert(hidden@ == hidden_ids(v.deals[d as int].cards));
                            assert(actions_view(actions@) =~= base + optimeter_plays(card, v.deals.take(d as int + 1)));
                        }
                        d += 1;
                    }
                    proof {
                        assert(v.deals.take(d as int) =~= v.deals);
                    }
                },
            }
            ci += 1;
        }
        proof {
            assert(reps@.take(ci as int) =~= reps@);
        }
        actions
    }
}

/// The view of a list of actions grows by the view of the action pushed.
proof fn lemma_actions_view_push(s: Seq<Action>, a: Action)
    ensures
        actions_view(s.push(a)) == actions_view(s).push(a@),
{
    assert(actions_view(s.push(a)) =~= actions_view(s).push(a@));
}

/// The class representatives are cards of the list.
pub proof fn lemma_class_distinct_subset(kinds: Seq<CardKind>, cards: Seq<CardId>)
    ensures
        forall|j: int| 0 <= j < class_distinct_spec(kinds, cards).len() ==> cards.contains(#[trigger] class_distinct_spec(kinds, cards)[j]),
    decreases cards.len(),
{
    if cards.len() > 0 {
        lemma_class_distinct_subset(kinds, cards.drop_last());
        let r = class_distinct_spec(kinds, cards.drop_last());
        assert forall|j: int| 0 <= j < class_distinct_spec(kinds, cards).len() implies cards.contains(#[trigger] class_distinct_spec(kinds, cards)[j]) by {
            let x = class_distinct_spec(kinds, cards)[j];
            if j < r.len() {
                assert(x == r[j]);
                let q = choose|q: int| 0 <= q < cards.drop_last().len() && cards.drop_last()[q] == x;
                assert(cards[q] == x);
            } else {
                assert(cards[cards.len() - 1] == x);
            }
        };
    }
}

/// The legal actions of `player` as the seat to act, phase by phase.
pub open spec fn legal_options(v: GameView, player: PlayerId) -> Seq<ActionView> {
    match v.phase {
        PhaseView::DealOffer { step, .. } => if step == DealOfferStep::AwaitingSubmit {
            submit_options(v, player)
        } else {
            reveal_options(v, deal_ids(v.deals[crate::game::deal_index(v.deals, player)->0].cards))
        },
        PhaseView::TwoPlayerDealOffer { step } => if step == TwoPlayerDealStep::AwaitingSplit {
            split_options(v, player)
        } else {
            reveal_options(v, all_deal_ids(v.deals))
        },
        PhaseView::BuyerPeek => peek_options(v),
        PhaseView::ThingamabobWindow { .. } => window_options(v, player),
        PhaseView::BuyerChoosesDeal => choose_options(v),
        PhaseView::RespondToDeal => seq![
            ActionView::RespondToDeal { reverse: false },
            ActionView::RespondToDeal { reverse: true },
        ],
        PhaseView::NastyResolution { pending } => resolve_options(
            v.kinds,
            v.collection(pending.player),
            crate::rules::steal_cap(v.catalog.nasty_effect_of(pending.kind)),
        ),
        PhaseView::GameOver { .. } => Seq::empty(),
    }
}

/// `r` is the list of legal actions of `player` as the seat to act.
pub open spec fn legal_spec(v: GameView, player: PlayerId, r: Seq<Action>) -> bool {
    actions_view(r) == legal_options(v, player)
}

impl GameState {
    /// Every id of every deal, deal by deal.
    fn deal_card_ids(&self) -> (r: Vec<CardId>)
        ensures
            r@ == all_deal_ids(self@.deals),
    {
        let ghost ds = self@.deals;
        let mut out: Vec<CardId> = Vec::new();
        let mut d: usize = 0;
        while d < self.deals.len()
            invariant
                ds == self@.deals,
                d <= ds.len(),
                out@ == all_deal_ids(ds.take(d as int)),
            decreases ds.len() - d,
        {
            let ids = self.deals[d].all_card_ids();
            let ghost base = out@;
            let mut j: usize = 0;
            while j < ids.len()
                invariant
                    j <= ids@.len(),
                    out@ == base.add(ids@.take(j as int)),
                decreases ids@.len() - j,
            {
                out.push(ids[j]);
                j += 1;
                assert(out@ =~= base.add(ids@.take(j as int)));
            }
            proof {
                assert(ids@.take(j as int) =~= ids@);
                assert(ds.take(d as int + 1).drop_last() =~= ds.take(d as int));
                assert(ds.take(d as int + 1).last() == ds[d as int]);
                assert(ids@ == deal_ids(ds[d as int].cards));
            }
            d += 1;
        }
        assert(ds.take(d as int) =~= ds);
        out
    }

    /// Legal actions for `player`, one per distinct choice: cards the
    /// player can see are deduplicated by class, still-hidden cards are
    /// offered one by one. Empty unless `player` is the seat to act.
    pub fn legal_actions(&self, player: PlayerId) -> (r: Vec<Action>)
        requires
            self@.wf(),
        ensures
            active_player_spec(self@) != Some(player) ==> r@.len() == 0,
            active_player_spec(self@) == Some(player) ==> legal_spec(self@, player, r@),
    {
        let ghost v = self@;
        if self.active_player() != Some(player) {
            return Vec::new();
        }
        let mut out: Vec<Action> = Vec::new();
        match &self.phase {
            Phase::DealOffer(s) => {
                if s.step == DealOfferStep::AwaitingSubmit {
                    let hand = crate::access::copy_ids(&self.players[player].hand);
                    let combos = self.class_distinct_combinations(&hand, 3);
                    proof {
                        lemma_cdc_members(v.kinds, hand@, 3);
                    }
                    let ghost cs = class_distinct_combinations_spec(v.kinds, hand@, 3);
                    let mut i: usize = 0;
                    while i < combos.len()
                        invariant
                            combos@.map_values(|c: Vec<CardId>| c@) == cs,
                            forall|j: int| 0 <= j < cs.len() ==> (#[trigger] cs[j]).len() == 3,
                            i <= combos@.len(),
                            actions_view(out@) == cs.take(i as int).map_values(|c: Seq<CardId>| ActionView::SubmitDeal { cards: c }),
                        decreases combos@.len() - i,
                    {
                        let c = &combos[i];
                        proof {
                            assert(cs[i as int] == c@);
                        }
                        let cards: [CardId; 3] = [c[0], c[1], c[2]];
                        let ghost before = out@;
                        let a = Action::SubmitDeal { cards };
                        out.push(a);
                        proof {
                            assert(cards@ =~= c@);
                            before.lemma_push_map_commute(|a: Action| a@, a);
                            assert(cs.take(i as int + 1) =~= cs.take(i as int).push(c@));
                            assert(actions_view(out@) =~= cs.take(i as int + 1).map_values(|c: Seq<CardId>| ActionView::SubmitDeal { cards: c }));
                        }
                        i += 1;
                    }
                    assert(cs.take(i as int) =~= cs);
                } else {
                    let d = match crate::game::find_deal(&self.deals, player) {
                        Some(d) => d,
                        None => {
                            return Vec::new();
                        },
                    };
                    let ids = self.deals[d].all_card_ids();
                    let reps = self.class_distinct(&ids);
                    out = reveal_actions(&reps);
                }
            },
            Phase::TwoPlayerDealOffer(s) => {
                if s.step == TwoPlayerDealStep::AwaitingSplit {
                    out = self.legal_two_player_splits(player);
                } else {
                    let ids = self.deal_card_ids();
                    let reps = self.class_distinct(&ids);
                    out = reveal_actions(&reps);
                }
            },
            Phase::BuyerPeek => {
                let mut d: usize = 0;
                while d < self.deals.len()
                    invariant
                        v == self@,
                        d <= v.deals.len(),
                        actions_view(out@) == v.deals.take(d as int).map_values(|x: DealView| ActionView::BuyerPeek { target_seller: x.seller }),
                    decreases v.deals.len() - d,
                {
                    let ghost before = out@;
                    let a = Action::BuyerPeek { target_seller: self.deals[d].seller };
                    out.push(a);
                    proof {
                        before.lemma_push_map_commute(|a: Action| a@, a);
                        assert(v.deals.take(d as int + 1) =~= v.deals.take(d as int).push(v.deals[d as int]));
                    }
                    d += 1;
                    assert(actions_view(out@) =~= v.deals.take(d as int).map_values(|x: DealView| ActionView::BuyerPeek { target_seller: x.seller }));
                }
                assert(v.deals.take(d as int) =~= v.deals);
            },
            Phase::ThingamabobWindow(_) => {
                out = self.legal_thingamabob_actions(player);
            },
            Phase::BuyerChoosesDeal => {
                let mut d: usize = 0;
                while d < self.deals.len()
                    invariant
                        v == self@,
                        d <= v.deals.len(),
                        actions_view(out@) == v.deals.take(d as int).map_values(|x: DealView| ActionView::ChooseDeal { seller: x.seller }),
                    decreases v.deals.len() - d,
                {
                    let ghost before = out@;
                    let a = Action::ChooseDeal { seller: self.deals[d].seller };
                    out.push(a);
                    proof {
                        before.lemma_push_map_commute(|a: Action| a@, a);
                        assert(v.deals.take(d as int + 1) =~= v.deals.take(d as int).push(v.deals[d as int]));
                    }
                    d += 1;
                    assert(actions_view(out@) =~= v.deals.take(d as int).map_values(|x: DealView| ActionView::ChooseDeal { seller: x.seller }));
                }
                assert(v.deals.take(d as int) =~= v.deals);
            },
            Phase::RespondToDeal => {
                out.push(Action::RespondToDeal { reverse: false });
                out.push(Action::RespondToDeal { reverse: true });
                assert(actions_view(out@) =~= seq![
                    ActionView::RespondToDeal { reverse: false },
                    ActionView::RespondToDeal { reverse: true },
                ]);
            },
            Phase::NastyResolution(s) => {
                let max: usize = match self.catalog.nasty_effect(s.pending.kind) {
                    crate::card::NastyEffect::BuyerMayStealUpToNCards(m) => m as usize,
                    crate::card::NastyEffect::BuyerStealsOnePointToken => 0,
                };
                let coll = crate::access::copy_ids(&self.players[s.pending.player].collection);
                let mut k: usize = 0;
                assert(actions_view(out@) =~= resolve_options(v.kinds, coll@, -1));
                while k <= max
                    invariant
                        v == self@,
                        max <= 255,
                        k <= max + 1,
                        actions_view(out@) == resolve_options(v.kinds, coll@, k - 1),
                    decreases max + 1 - k,
                {
                    let combos = self.class_distinct_combinations(&coll, k);
                    let ghost cs = class_distinct_combinations_spec(v.kinds, coll@, k as nat);
                    let ghost base = actions_view(out@);
                    let mut i: usize = 0;
                    while i < combos.len()
                        invariant
                            combos@.map_values(|c: Vec<CardId>| c@) == cs,
                            i <= combos@.len(),
                            actions_view(out@) == base.add(cs.take(i as int).map_values(
                                |c: Seq<CardId>| ActionView::ResolveNastyPenalty { taken_cards: c },
                            )),
                        decreases combos@.len() - i,
                    {
                        let taken = crate::access::copy_ids(&combos[i]);
                        proof {
                            assert(cs[i as int] == combos@[i as int]@);
                        }
                        let ghost before = out@;
                        let a = Action::ResolveNastyPenalty { taken_cards: taken };
                        out.push(a);
                        proof {
                            before.lemma_push_map_commute(|a: Action| a@, a);
                            assert(cs.take(i as int + 1) =~= cs.take(i as int).push(cs[i as int]));
                        }
                        i += 1;
                        assert(actions_view(out@) =~= base.add(cs.take(i as int).map_values(
                            |c: Seq<CardId>| ActionView::ResolveNastyPenalty { taken_cards: c },
                        )));
                    }
                    assert(cs.take(i as int) =~= cs);
                    k += 1;
                }
            },
            Phase::GameOver { .. } => {},
        }
        out
    }

    /// How many actions `legal_actions(player)` returns.
    pub fn legal_action_count(&self, player: PlayerId) -> (r: usize)
        requires
            self@.wf(),
        ensures
            active_player_spec(self@) != Some(player) ==> r == 0,
            active_player_spec(self@) == Some(player) ==> r == legal_options(self@, player).len(),
    {
        let acts = self.legal_actions(player);
        assert(actions_view(acts@).len() == acts@.len());
        acts.len()
    }
}

/// One reveal action per card.
fn reveal_actions(cards: &Vec<CardId>) -> (r: Vec<Action>)
    ensures
        actions_view(r@) == cards@.map_values(|c: CardId| ActionView::RevealCard { card: c }),
{
    let mut out: Vec<Action> = Vec::new();
    let mut i: usize = 0;
    while i < cards.len()
        invariant
            i <= cards@.len(),
            actions_view(out@) == cards@.take(i as int).map_values(|c: CardId| ActionView::RevealCard { card: c }),
        decreases cards@.len() - i,
    {
        let ghost before = out@;
        let a = Action::RevealCard { card: cards[i] };
        assert(a@ == ActionView::RevealCard { card: cards@[i as int] });
        out.push(a);
        proof {
            before.lemma_push_map_commute(|a: Action| a@, a);
            assert(actions_view(out@) == actions_view(before).push(a@));
            assert(cards@.take(i as int + 1).map_values(|c: CardId| ActionView::RevealCard { card: c })
                =~= cards@.take(i as int).map_values(|c: CardId| ActionView::RevealCard { card: c }).push(a@));
        }
        i += 1;
    }
    assert(cards@.take(i as int) =~= cards@);
    out
}
} // verus!
