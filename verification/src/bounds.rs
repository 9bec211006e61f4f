//! The exact ceiling on how many legal actions one micro-turn can offer,
//! derived from the deck composition and table size. The action space is
//! ordinal (index `i` is the `i`-th legal action), so it must be wide
//! enough that no legal action is unreachable, and no wider.

use vstd::prelude::*;
use crate::card::{NastyEffect, ThingamabobEffect, ThingamabobKind, CardKind, NUM_CARD_CLASSES, class_index_spec};
use crate::combinatorics::{binomial, binomial_spec, binomial_steps};
use crate::deck::{Catalog, thingamabob_index_spec};
use crate::events::GameMode;

verus! {

/// Most deals that can be on the table at once.
pub open spec fn max_deals_spec(mode: GameMode, n: usize) -> int {
    match mode {
        GameMode::Buyer => n - 1,
        GameMode::TwoPlayer => 2,
    }
}

/// Most cards a deal pool can reach: every deal at three cards plus one per
/// expander in the deck (removals only shrink it).
pub open spec fn deal_cards_spec(counts: Seq<u32>, mode: GameMode, n: usize) -> int {
    3 * max_deals_spec(mode, n) + counts[10]
}

/// `x`, held at `usize::MAX` when it would not fit.
pub open spec fn sat(x: int) -> int {
    if x > usize::MAX { usize::MAX as int } else { x }
}

/// `sum_{j <= m} C(d, j)`: removal sets of at most `m` cards.
pub open spec fn removal_options(d: usize, m: int) -> int
    decreases m,
{
    if m <= 0 {
        binomial_spec(d, 0) as int
    } else {
        removal_options(d, m - 1) + binomial_spec(d, m as usize)
    }
}

/// Menu size contributed by one thingamabob class (one representative card
/// per class, since legal actions are deduplicated by class).
pub open spec fn window_term(catalog: Catalog, counts: Seq<u32>, mode: GameMode, n: usize, k: ThingamabobKind) -> int {
    if counts[class_index_spec(CardKind::Thingamabob(k))] == 0 {
        0
    } else {
        match catalog.thingamabob_effect_of(k) {
            ThingamabobEffect::StealPointTokenFromRicherPlayer => n - 1,
            ThingamabobEffect::RemoveCardsFromDeals { max_cards, .. } => sat(removal_options(
                sat(deal_cards_spec(counts, mode, n)) as usize,
                max_cards as int,
            )),
            ThingamabobEffect::AddHiddenHandCardToDeal => 5 * max_deals_spec(mode, n),
            ThingamabobEffect::RevealCardInDeal => sat(deal_cards_spec(counts, mode, n)),
        }
    }
}

/// Worst-case menu in the thingamabob window: passing plus every class's options.
pub open spec fn window_spec(catalog: Catalog, counts: Seq<u32>, mode: GameMode, n: usize) -> int {
    1 + window_term(catalog, counts, mode, n, ThingamabobKind::PlatonicIsolator)
        + window_term(catalog, counts, mode, n, ThingamabobKind::DetritalRepositioner)
        + window_term(catalog, counts, mode, n, ThingamabobKind::SuperDetritalRepositioner)
        + window_term(catalog, counts, mode, n, ThingamabobKind::CryptozooticExpander)
        + window_term(catalog, counts, mode, n, ThingamabobKind::SpectroelectricOptimeter)
}

/// Steal cap of one nasty table slot (0 for unlisted kinds and token steals).
pub open spec fn steal_cap(e: Option<NastyEffect>) -> int {
    match e {
        Some(NastyEffect::BuyerMayStealUpToNCards(n)) => n as int,
        _ => 0,
    }
}

/// Largest steal cap over the listed nasty kinds.
pub open spec fn max_steal_spec(catalog: Catalog) -> int {
    let a = steal_cap(catalog.nasty_effect@[0]);
    let b = steal_cap(catalog.nasty_effect@[1]);
    let c = steal_cap(catalog.nasty_effect@[2]);
    let ab = if a >= b { a } else { b };
    if ab >= c { ab } else { c }
}

/// Distinct class multisets of at most `m` stolen cards:
/// `sum_{k <= m} C(12 + max(k - 1, 0), k)`.
pub open spec fn nasty_menu_spec(m: int) -> int
    decreases m,
{
    if m <= 0 {
        binomial_spec(NUM_CARD_CLASSES, 0) as int
    } else {
        nasty_menu_spec(m - 1) + binomial_spec((NUM_CARD_CLASSES + m - 1) as usize, m as usize)
    }
}

/// Worst-case deal-offer menu: each 3-card pick from a 5-card hand, and in
/// two-player mode each pick crossed with the 8 ways to split it.
pub open spec fn deal_offer_spec(mode: GameMode) -> int {
    match mode {
        GameMode::Buyer => binomial_spec(5, 3) as int,
        GameMode::TwoPlayer => binomial_spec(5, 3) * 8,
    }
}

/// Larger of two integers.
pub open spec fn max2(a: int, b: int) -> int {
    if a >= b { a } else { b }
}

/// The ceiling: the largest menu any phase can offer, held at `usize::MAX`
/// for decks too large for it to fit.
pub open spec fn max_legal_actions_spec(catalog: Catalog, counts: Seq<u32>, mode: GameMode, n: usize) -> int {
    sat(
        max2(
            max2(
                max2(window_spec(catalog, counts, mode, n), nasty_menu_spec(max_steal_spec(catalog))),
                max2(deal_offer_spec(mode), max_deals_spec(mode, n)),
            ),
            max2(3, 2),
        ),
    )
}

/// `sum_{j <= m} C(d, j)`, computed, held at `usize::MAX`.
fn removal_options_exec(d: usize, m: u8) -> (r: usize)
    ensures
        r == sat(removal_options(d, m as int)),
{
    let mut total: usize = 0;
    let mut j: usize = 0;
    while j <= m as usize
        invariant
            j <= m + 1,
            j == 0 ==> total == 0,
            j > 0 ==> total == sat(removal_options(d, j - 1)),
        decreases m + 1 - j,
    {
        let b = binomial(d, j);
        proof {
            if j > 0 {
                assert(removal_options(d, j as int) == removal_options(d, j - 1) + binomial_spec(d, j));
            } else {
                assert(removal_options(d, 0) == binomial_spec(d, 0) as int);
            }
        }
        total = total.saturating_add(b);
        j += 1;
    }
    total
}

/// Distinct class multisets of at most `m` stolen cards, computed, held at
/// `usize::MAX`.
fn nasty_menu_exec(m: u8) -> (r: usize)
    ensures
        r == sat(nasty_menu_spec(m as int)),
{
    let mut total: usize = 0;
    let mut k: usize = 0;
    while k <= m as usize
        invariant
            k <= m + 1,
            k == 0 ==> total == 0,
            k > 0 ==> total == sat(nasty_menu_spec(k - 1)),
        decreases m + 1 - k,
    {
        let top: usize = if k == 0 { NUM_CARD_CLASSES } else { NUM_CARD_CLASSES + k - 1 };
        proof {
            if k > 0 {
                assert(nasty_menu_spec(k as int) == nasty_menu_spec(k - 1) + binomial_spec(top, k));
            } else {
                assert(nasty_menu_spec(0) == binomial_spec(top, 0) as int);
            }
        }
        total = total.saturating_add(binomial(top, k));
        k += 1;
    }
    total
}

/// Computes the ceiling on `legal_actions(..).len()` from the deck
/// composition and table size.
pub fn compute_max_legal_actions(catalog: &Catalog, deck_counts: &[u32; 12], mode: GameMode, num_players: usize) -> (r: usize)
    requires
        2 <= num_players <= 6,
        mode == (if num_players == 2 { GameMode::TwoPlayer } else { GameMode::Buyer }),
        catalog.wf(),
        forall|i: int| 7 <= i < 12 && #[trigger] deck_counts@[i] > 0 ==> catalog.thingamabob_effect@[i - 7] is Some,
    ensures
        r == max_legal_actions_spec(*catalog, deck_counts@, mode, num_players),
{
    let ghost counts = deck_counts@;
    let max_deals: usize = match mode {
        GameMode::Buyer => num_players - 1,
        GameMode::TwoPlayer => 2,
    };
    let expanders = deck_counts[10] as usize;
    let deal_cards = (3 * max_deals).saturating_add(expanders);
    assert(deal_cards == sat(deal_cards_spec(counts, mode, num_players)));
    let mut window: usize = 1;
    let mut c: usize = 7;
    while c < 12
        invariant
            7 <= c <= 12,
            deal_cards == sat(deal_cards_spec(deck_counts@, mode, num_players)),
            max_deals == max_deals_spec(mode, num_players),
            max_deals <= 5,
            2 <= num_players <= 6,
            catalog.wf(),
            forall|i: int| 7 <= i < 12 && #[trigger] deck_counts@[i] > 0 ==> catalog.thingamabob_effect@[i - 7] is Some,
            window == sat(1
                + (if c > 7 { window_term(*catalog, deck_counts@, mode, num_players, ThingamabobKind::PlatonicIsolator) } else { 0 })
                + (if c > 8 { window_term(*catalog, deck_counts@, mode, num_players, ThingamabobKind::DetritalRepositioner) } else { 0 })
                + (if c > 9 { window_term(*catalog, deck_counts@, mode, num_players, ThingamabobKind::SuperDetritalRepositioner) } else { 0 })
                + (if c > 10 { window_term(*catalog, deck_counts@, mode, num_players, ThingamabobKind::CryptozooticExpander) } else { 0 })
                + (if c > 11 { window_term(*catalog, deck_counts@, mode, num_players, ThingamabobKind::SpectroelectricOptimeter) } else { 0 })),
        decreases 12 - c,
    {
        let kind = if c == 7 {
            ThingamabobKind::PlatonicIsolator
        } else if c == 8 {
            ThingamabobKind::DetritalRepositioner
        } else if c == 9 {
            ThingamabobKind::SuperDetritalRepositioner
        } else if c == 10 {
            ThingamabobKind::CryptozooticExpander
        } else {
            ThingamabobKind::SpectroelectricOptimeter
        };
        assert(class_index_spec(CardKind::Thingamabob(kind)) == c);
        assert(thingamabob_index_spec(kind) == c - 7);
        let term: usize = if deck_counts[c] == 0 {
            0
        } else {
            match catalog.thingamabob_effect(kind) {
                ThingamabobEffect::StealPointTokenFromRicherPlayer => num_players - 1,
                ThingamabobEffect::RemoveCardsFromDeals { max_cards, .. } => {
                    proof {
                        assert(catalog.thingamabob_effect@[c - 7] matches Some(
                            ThingamabobEffect::RemoveCardsFromDeals { max_cards, max_deals },
                        ));
                    }
                    removal_options_exec(deal_cards, max_cards)
                },
                ThingamabobEffect::AddHiddenHandCardToDeal => 5 * max_deals,
                ThingamabobEffect::RevealCardInDeal => deal_cards,
            }
        };
        assert(term == window_term(*catalog, deck_counts@, mode, num_players, kind));
        window = window.saturating_add(term);
        c += 1;
    }
    let mut max_steal: u8 = 0;
    let mut i: usize = 0;
    while i < 3
        invariant
            i <= 3,
            catalog.wf(),
            max_steal == (if i == 0 { 0 } else if i == 1 { max2(0, steal_cap(catalog.nasty_effect@[0])) } else if i == 2 {
                max2(max2(0, steal_cap(catalog.nasty_effect@[0])), steal_cap(catalog.nasty_effect@[1]))
            } else {
                max2(max2(max2(0, steal_cap(catalog.nasty_effect@[0])), steal_cap(catalog.nasty_effect@[1])), steal_cap(catalog.nasty_effect@[2]))
            }),
        decreases 3 - i,
    {
        let cap: u8 = match catalog.nasty_effect[i] {
            Some(NastyEffect::BuyerMayStealUpToNCards(n)) => n,
            _ => 0,
        };
        if cap > max_steal {
            max_steal = cap;
        }
        i += 1;
    }
    assert(max_steal == max_steal_spec(*catalog)) by {
        assert(steal_cap(catalog.nasty_effect@[0]) >= 0);
    }
    let nasty = nasty_menu_exec(max_steal);
    let b53 = binomial(5, 3);
    proof {
        reveal_with_fuel(binomial_steps, 3);
        assert(1 * (5 - 0) == 5);
        assert(5 * (5 - 1) == 20);
        assert(binomial_steps(5, 1) == 5);
        assert(binomial_steps(5, 2) == 10);
    }
    let deal_offer: usize = match mode {
        GameMode::Buyer => b53,
        GameMode::TwoPlayer => b53 * 8,
    };
    assert(window == sat(window_spec(*catalog, deck_counts@, mode, num_players)));
    let mut best = window;
    if nasty > best {
        best = nasty;
    }
    let mut other = deal_offer;
    if max_deals > other {
        other = max_deals;
    }
    if other > best {
        best = other;
    }
    if 3 > best {
        best = 3;
    }
    best
}

} // verus!
