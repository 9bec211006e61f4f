//! Per-episode behavioral memory: every event the rules produce folds into
//! a small per-player summary, so a policy can condition on what each seat
//! has done this game and not only on the current tableau.

use vstd::prelude::*;
use crate::card::PlayerId;
use crate::events::{Event, EventView};

verus! {

/// One slot per event variant.
pub const NUM_EVENT_KINDS: usize = 17;

/// Cumulative counts of what one seat has done or suffered this episode.
#[derive(Debug, Clone, Copy, PartialEq, Eq, Structural)]
pub struct PlayerStats {
    pub deals_submitted: u32,
    pub thingamabobs_played: u32,
    pub tokens_gained: u32,
    pub tokens_lost: u32,
    pub cards_gained: u32,
    pub cards_lost: u32,
    pub nasty_sets_traded: u32,
    pub creature_sets_traded: u32,
    pub turns_led: u32,
    pub deals_bought: u32,
}

/// All counters at zero.
pub open spec fn zero_stats() -> PlayerStats {
    PlayerStats {
        deals_submitted: 0,
        thingamabobs_played: 0,
        tokens_gained: 0,
        tokens_lost: 0,
        cards_gained: 0,
        cards_lost: 0,
        nasty_sets_traded: 0,
        creature_sets_traded: 0,
        turns_led: 0,
        deals_bought: 0,
    }
}

impl Default for PlayerStats {
    fn default() -> (r: PlayerStats)
        ensures
            r == zero_stats(),
    {
        PlayerStats {
            deals_submitted: 0,
            thingamabobs_played: 0,
            tokens_gained: 0,
            tokens_lost: 0,
            cards_gained: 0,
            cards_lost: 0,
            nasty_sets_traded: 0,
            creature_sets_traded: 0,
            turns_led: 0,
            deals_bought: 0,
        }
    }
}

/// Stable slot of an event kind.
pub open spec fn event_kind_index_spec(e: EventView) -> int {
    match e {
        EventView::DealSubmitted { .. } => 0,
        EventView::CardRevealed { .. } => 1,
        EventView::BuyerPeeked { .. } => 2,
        EventView::ThingamabobPlayed { .. } => 3,
        EventView::ThingamabobWindowClosed => 4,
        EventView::DealChosen { .. } => 5,
        EventView::DealResponded { .. } => 6,
        EventView::CardsAwarded { .. } => 7,
        EventView::CardsDiscarded { .. } => 8,
        EventView::NastySetTradedIn { .. } => 9,
        EventView::PointTokenStolen { .. } => 10,
        EventView::CardsStolen { .. } => 11,
        EventView::CreatureSetTradedIn { .. } => 12,
        EventView::HandRefilled { .. } => 13,
        EventView::DrawPileReshuffledFromDiscard => 14,
        EventView::TurnLeaderPassed { .. } => 15,
        EventView::GameOver { .. } => 16,
    }
}

/// Stable slot for an event kind; only stability within a build matters.
pub fn event_kind_index(event: &Event) -> (r: usize)
    ensures
        r == event_kind_index_spec(event@),
        r < NUM_EVENT_KINDS,
{
    match event {
        Event::DealSubmitted { .. } => 0,
        Event::CardRevealed { .. } => 1,
        Event::BuyerPeeked { .. } => 2,
        Event::ThingamabobPlayed { .. } => 3,
        Event::ThingamabobWindowClosed => 4,
        Event::DealChosen { .. } => 5,
        Event::DealResponded { .. } => 6,
        Event::CardsAwarded { .. } => 7,
        Event::CardsDiscarded { .. } => 8,
        Event::NastySetTradedIn { .. } => 9,
        Event::PointTokenStolen { .. } => 10,
        Event::CardsStolen { .. } => 11,
        Event::CreatureSetTradedIn { .. } => 12,
        Event::HandRefilled { .. } => 13,
        Event::DrawPileReshuffledFromDiscard => 14,
        Event::TurnLeaderPassed { .. } => 15,
        Event::GameOver { .. } => 16,
    }
}

/// Counter `c` plus `n` still fits in a `u32`.
pub open spec fn fits(c: u32, n: int) -> bool {
    c + n <= u32::MAX
}

/// Whether folding `e` into `stats` stays within the counters' range (seats
/// out of range are ignored and always fit).
pub open spec fn record_fits(stats: Seq<PlayerStats>, e: EventView) -> bool {
    let ok = |p: PlayerId, f: spec_fn(PlayerStats) -> bool| p >= stats.len() || f(stats[p as int]);
    match e {
        EventView::DealSubmitted { player } => ok(player, |s: PlayerStats| fits(s.deals_submitted, 1)),
        EventView::ThingamabobPlayed { player, .. } => ok(player, |s: PlayerStats| fits(s.thingamabobs_played, 1)),
        EventView::DealChosen { buyer, .. } => ok(buyer, |s: PlayerStats| fits(s.deals_bought, 1)),
        EventView::NastySetTradedIn { player, .. } => ok(player, |s: PlayerStats| fits(s.nasty_sets_traded, 1)),
        EventView::CreatureSetTradedIn { player, .. } => ok(player, |s: PlayerStats| fits(s.creature_sets_traded, 1)),
        EventView::TurnLeaderPassed { new_leader } => ok(new_leader, |s: PlayerStats| fits(s.turns_led, 1)),
        EventView::PointTokenStolen { from, to, amount } => {
            &&& ok(from, |s: PlayerStats| fits(s.tokens_lost, amount as int))
            &&& ok(to, |s: PlayerStats| fits(s.tokens_gained, amount as int))
            &&& (from == to ==> ok(from, |s: PlayerStats| fits(s.tokens_lost, amount as int)))
        },
        EventView::CardsStolen { from, to, cards } => {
            &&& cards.len() <= u32::MAX
            &&& ok(from, |s: PlayerStats| fits(s.cards_lost, cards.len() as int))
            &&& ok(to, |s: PlayerStats| fits(s.cards_gained, cards.len() as int))
        },
        EventView::CardsAwarded { player, cards } => {
            &&& cards.len() <= u32::MAX
            &&& ok(player, |s: PlayerStats| fits(s.cards_gained, cards.len() as int))
        },
        _ => true,
    }
}

/// `stats` with seat `p`'s summary replaced by `f` of it (unchanged when
/// the seat is out of range).
pub open spec fn bump(stats: Seq<PlayerStats>, p: PlayerId, f: spec_fn(PlayerStats) -> PlayerStats) -> Seq<PlayerStats> {
    if p < stats.len() { stats.update(p as int, f(stats[p as int])) } else { stats }
}

/// The summaries after folding in one event.
pub open spec fn record_spec(stats: Seq<PlayerStats>, e: EventView) -> Seq<PlayerStats> {
    match e {
        EventView::DealSubmitted { player } => bump(stats, player, |s: PlayerStats| PlayerStats { deals_submitted: (s.deals_submitted + 1) as u32, ..s }),
        EventView::ThingamabobPlayed { player, .. } => bump(stats, player, |s: PlayerStats| PlayerStats { thingamabobs_played: (s.thingamabobs_played + 1) as u32, ..s }),
        EventView::DealChosen { buyer, .. } => bump(stats, buyer, |s: PlayerStats| PlayerStats { deals_bought: (s.deals_bought + 1) as u32, ..s }),
        EventView::NastySetTradedIn { player, .. } => bump(stats, player, |s: PlayerStats| PlayerStats { nasty_sets_traded: (s.nasty_sets_traded + 1) as u32, ..s }),
        EventView::CreatureSetTradedIn { player, .. } => bump(stats, player, |s: PlayerStats| PlayerStats { creature_sets_traded: (s.creature_sets_traded + 1) as u32, ..s }),
        EventView::TurnLeaderPassed { new_leader } => bump(stats, new_leader, |s: PlayerStats| PlayerStats { turns_led: (s.turns_led + 1) as u32, ..s }),
        EventView::PointTokenStolen { from, to, amount } => {
            let s1 = bump(stats, from, |s: PlayerStats| PlayerStats { tokens_lost: (s.tokens_lost + amount) as u32, ..s });
            bump(s1, to, |s: PlayerStats| PlayerStats { tokens_gained: (s.tokens_gained + amount) as u32, ..s })
        },
        EventView::CardsStolen { from, to, cards } => {
            let s1 = bump(stats, from, |s: PlayerStats| PlayerStats { cards_lost: (s.cards_lost + cards.len()) as u32, ..s });
            bump(s1, to, |s: PlayerStats| PlayerStats { cards_gained: (s.cards_gained + cards.len()) as u32, ..s })
        },
        EventView::CardsAwarded { player, cards } => bump(stats, player, |s: PlayerStats| PlayerStats { cards_gained: (s.cards_gained + cards.len()) as u32, ..s }),
        _ => stats,
    }
}

/// Folds one event into the per-player summaries. Events naming a seat out
/// of range are ignored rather than panicking.
pub fn record(stats: &mut Vec<PlayerStats>, event: &Event)
    requires
        record_fits(old(stats)@, event@),
    ensures
        final(stats)@ == record_spec(old(stats)@, event@),
{
    match event {
        Event::DealSubmitted { player } => {
            if *player < stats.len() {
                stats[*player].deals_submitted = stats[*player].deals_submitted + 1;
            }
        },
        Event::ThingamabobPlayed { player, .. } => {
            if *player < stats.len() {
                stats[*player].thingamabobs_played = stats[*player].thingamabobs_played + 1;
            }
        },
        Event::DealChosen { buyer, .. } => {
            if *buyer < stats.len() {
                stats[*buyer].deals_bought = stats[*buyer].deals_bought + 1;
            }
        },
        Event::NastySetTradedIn { player, .. } => {
            if *player < stats.len() {
                stats[*player].nasty_sets_traded = stats[*player].nasty_sets_traded + 1;
            }
        },
        Event::CreatureSetTradedIn { player, .. } => {
            if *player < stats.len() {
                stats[*player].creature_sets_traded = stats[*player].creature_sets_traded + 1;
            }
        },
        Event::TurnLeaderPassed { new_leader } => {
            if *new_leader < stats.len() {
                stats[*new_leader].turns_led = stats[*new_leader].turns_led + 1;
            }
        },
        Event::PointTokenStolen { from, to, amount } => {
            if *from < stats.len() {
                stats[*from].tokens_lost = stats[*from].tokens_lost + *amount;
            }
            if *to < stats.len() {
                stats[*to].tokens_gained = stats[*to].tokens_gained + *amount;
            }
        },
        Event::CardsStolen { from, to, cards } => {
            let n = cards.len() as u32;
            if *from < stats.len() {
                stats[*from].cards_lost = stats[*from].cards_lost + n;
            }
            if *to < stats.len() {
                stats[*to].cards_gained = stats[*to].cards_gained + n;
            }
        },
        Event::CardsAwarded { player, cards } => {
            let n = cards.len() as u32;
            if *player < stats.len() {
                stats[*player].cards_gained = stats[*player].cards_gained + n;
            }
        },
        _ => {},
    }
}


/// Whether folding `event` into `stats` stays within the counters' range.
pub fn event_fits(stats: &Vec<PlayerStats>, event: &Event) -> (r: bool)
    ensures
        r == record_fits(stats@, event@),
{
    let n = stats.len();
    match event {
        Event::DealSubmitted { player } => *player >= n || stats[*player].deals_submitted < u32::MAX,
        Event::ThingamabobPlayed { player, .. } => *player >= n || stats[*player].thingamabobs_played < u32::MAX,
        Event::DealChosen { buyer, .. } => *buyer >= n || stats[*buyer].deals_bought < u32::MAX,
        Event::NastySetTradedIn { player, .. } => *player >= n || stats[*player].nasty_sets_traded < u32::MAX,
        Event::CreatureSetTradedIn { player, .. } => *player >= n || stats[*player].creature_sets_traded < u32::MAX,
        Event::TurnLeaderPassed { new_leader } => *new_leader >= n || stats[*new_leader].turns_led < u32::MAX,
        Event::PointTokenStolen { from, to, amount } => {
            (*from >= n || stats[*from].tokens_lost as u64 + *amount as u64 <= u32::MAX as u64)
                && (*to >= n || stats[*to].tokens_gained as u64 + *amount as u64 <= u32::MAX as u64)
        },
        Event::CardsStolen { from, to, cards } => {
            let k = cards.len();
            k as u64 <= u32::MAX as u64
                && (*from >= n || stats[*from].cards_lost as u64 + k as u64 <= u32::MAX as u64)
                && (*to >= n || stats[*to].cards_gained as u64 + k as u64 <= u32::MAX as u64)
        },
        Event::CardsAwarded { player, cards } => {
            let k = cards.len();
            k as u64 <= u32::MAX as u64 && (*player >= n || stats[*player].cards_gained as u64 + k as u64 <= u32::MAX as u64)
        },
        _ => true,
    }
}
} // verus!
