//! [`GameState`]: the full rules engine. Pure data plus one entry point,
//! [`GameState::apply_action`], that returns structured [`Event`]s.

use vstd::prelude::*;
use crate::card::{
    Card, CardId, CardKind, NastyKind, PlayerId, ThingamabobKind, Tier, NUM_CARD_CLASSES,
    class_index_spec, kind_of_class_spec,
};
use crate::deal::{Deal, DealView, DealCard, hidden_ids, hidden_pile, revealed_ids};
use crate::deck::{Catalog, DeckConfig};
use crate::phase::{
    DealOfferEntry, DealOfferState, DealOfferStep, Phase, PhaseView, ThingamabobWindowState,
    TwoPlayerDealState, TwoPlayerDealStep,
};
use crate::player::{Player, PlayerView};
use crate::rng::GameRng;
use crate::stats::{PlayerStats, zero_stats};

pub use crate::events::{
    Event, EventView, GameMode, PinError, RulesError, RulesErrorView, SetupError, events_view,
};

verus! {

/// Number of cards dealt into each player's starting hand.
pub const HAND_SIZE: usize = 5;

/// One deal as seen from outside, with hidden cards collapsed to a count.
#[derive(Debug, Clone, PartialEq, Eq)]
pub struct ObservedDeal {
    /// The seller who made this deal.
    pub seller: PlayerId,
    /// Cards currently revealed in the deal.
    pub revealed_cards: Vec<CardId>,
    /// Number of cards still hidden.
    pub num_hidden: usize,
}

/// Filtered, player-specific view of the game: never exposes other
/// players' hands or still-hidden deal cards.
#[derive(Debug, Clone, PartialEq, Eq)]
pub struct Observation {
    /// The player this observation is for.
    pub player: PlayerId,
    /// Current phase name.
    pub phase: &'static str,
    /// Current turn leader.
    pub turn_leader: PlayerId,
    /// This player's own hand.
    pub own_hand: Vec<CardId>,
    /// Every player's collection, public information.
    pub collections: Vec<Vec<CardId>>,
    /// Every player's point token count.
    pub point_tokens: Vec<u32>,
    /// Active deals, with hidden cards collapsed.
    pub deals: Vec<ObservedDeal>,
    /// Number of cards left in the draw pile.
    pub draw_pile_len: usize,
    /// Number of cards in the discard pile.
    pub discard_pile_len: usize,
    /// The winner, if the game has ended.
    pub winner: Option<PlayerId>,
}

/// The full state of one game in progress.
pub struct GameState {
    /// Rules data for this game's deck.
    pub catalog: Catalog,
    /// Display name of each card, indexed by id.
    pub names: Vec<String>,
    /// Mechanical kind of each card, indexed by id.
    pub kinds: Vec<CardKind>,
    /// The table-size variant in effect.
    pub mode: GameMode,
    /// Number of players at the table.
    pub num_players: usize,
    /// Point tokens needed to win.
    pub win_threshold: u32,
    /// Every player's hand, collection, and token count.
    pub players: Vec<Player>,
    /// Cards left to draw; the next card drawn is the last one.
    pub draw_pile: Vec<CardId>,
    /// Discarded cards.
    pub discard_pile: Vec<CardId>,
    /// Active deals on the table.
    pub deals: Vec<Deal>,
    /// Current turn leader (the buyer, in buyer mode).
    pub turn_leader: PlayerId,
    /// Current phase.
    pub phase: Phase,
    /// This game's random source.
    pub rng: GameRng,
    /// True composition of the deck per card class; constant for a game.
    pub deck_counts: [u32; 12],
    /// Turns completed so far.
    pub turn_index: u32,
    /// Deck- and table-size-derived ceiling on the legal-action count.
    pub max_legal_actions: usize,
    /// Per-player running behavioral summary.
    pub stats: Vec<PlayerStats>,
    /// Remaining not-yet-pinned supply of each class, for live tracking.
    pub kind_supply: Vec<u32>,
    /// Whether each card id has already been pinned.
    pub pinned: Vec<bool>,
}

/// Abstract value of a [`GameState`] (everything but the random source).
pub struct GameView {
    pub catalog: Catalog,
    pub names: Seq<String>,
    pub kinds: Seq<CardKind>,
    pub mode: GameMode,
    pub num_players: usize,
    pub win_threshold: u32,
    pub players: Seq<PlayerView>,
    pub draw_pile: Seq<CardId>,
    pub discard_pile: Seq<CardId>,
    pub deals: Seq<DealView>,
    pub turn_leader: PlayerId,
    pub phase: PhaseView,
    pub deck_counts: Seq<u32>,
    pub turn_index: u32,
    pub max_legal_actions: usize,
    pub stats: Seq<PlayerStats>,
    pub kind_supply: Seq<u32>,
    pub pinned: Seq<bool>,
}

impl View for GameState {
    type V = GameView;

    open spec fn view(&self) -> GameView {
        GameView {
            catalog: self.catalog,
            names: self.names@,
            kinds: self.kinds@,
            mode: self.mode,
            num_players: self.num_players,
            win_threshold: self.win_threshold,
            players: players_view(self.players@),
            draw_pile: self.draw_pile@,
            discard_pile: self.discard_pile@,
            deals: deals_view(self.deals@),
            turn_leader: self.turn_leader,
            phase: self.phase@,
            deck_counts: self.deck_counts@,
            turn_index: self.turn_index,
            max_legal_actions: self.max_legal_actions,
            stats: self.stats@,
            kind_supply: self.kind_supply@,
            pinned: self.pinned@,
        }
    }
}

/// Abstract values of the seats.
pub open spec fn players_view(ps: Seq<Player>) -> Seq<PlayerView> {
    ps.map_values(|p: Player| p@)
}

/// Abstract values of the deals.
pub open spec fn deals_view(ds: Seq<Deal>) -> Seq<DealView> {
    ds.map_values(|d: Deal| d@)
}

/// Number of cards a player holds in hand and collection together.
pub open spec fn player_cards(p: PlayerView) -> int {
    (p.hand.len() + p.collection.len()) as int
}

/// Cards held by all the players.
pub open spec fn players_cards(ps: Seq<PlayerView>) -> int
    decreases ps.len(),
{
    if ps.len() == 0 { 0 } else { players_cards(ps.drop_last()) + player_cards(ps.last()) }
}

/// Cards lying in all the deals.
pub open spec fn deals_cards(ds: Seq<DealView>) -> int
    decreases ds.len(),
{
    if ds.len() == 0 { 0 } else { deals_cards(ds.drop_last()) + ds.last().cards.len() }
}

/// The piles of a two-player split hold its cards between them.
pub proof fn lemma_deals_cards_split(player: PlayerId, own: Seq<CardId>, other: Seq<CardId>)
    ensures
        deals_cards(crate::rules::split_deals(player, own, other)) == own.len() + other.len(),
{
    let ds = crate::rules::split_deals(player, own, other);
    let a = DealView { seller: player, cards: hidden_pile(own) };
    let b = DealView { seller: (1 - player) as PlayerId, cards: hidden_pile(other) };
    assert(deals_cards(Seq::<DealView>::empty()) == 0);
    if own.len() > 0 && other.len() > 0 {
        assert(ds =~= seq![a, b]);
        assert(ds.drop_last() =~= seq![a]);
        assert(seq![a].drop_last() =~= Seq::<DealView>::empty());
        assert(deals_cards(seq![a]) == own.len());
        assert(deals_cards(ds) == deals_cards(seq![a]) + other.len());
    } else if own.len() > 0 {
        assert(ds =~= seq![a]);
        assert(ds.drop_last() =~= Seq::<DealView>::empty());
        assert(deals_cards(ds) == own.len());
    } else if other.len() > 0 {
        assert(ds =~= seq![b]);
        assert(ds.drop_last() =~= Seq::<DealView>::empty());
        assert(deals_cards(ds) == other.len());
    } else {
        assert(ds =~= Seq::<DealView>::empty());
    }
}

/// Index of the first deal made by `seller`, if any.
pub open spec fn deal_index(deals: Seq<DealView>, seller: PlayerId) -> Option<int> {
    deals.map_values(|d: DealView| d.seller).index_of_first(seller)
}

/// No seat has two deals on the table.
pub open spec fn sellers_distinct(deals: Seq<DealView>) -> bool {
    forall|i: int, j: int| 0 <= i < j < deals.len() ==> #[trigger] deals[i].seller != #[trigger] deals[j].seller
}

/// No seat is offered two deal turns.
pub open spec fn entries_distinct(entries: Seq<DealOfferEntry>) -> bool {
    forall|i: int, j: int| 0 <= i < j < entries.len() ==> #[trigger] entries[i].player != #[trigger] entries[j].player
}

/// The deals laid down so far in a deal offer: one per seat already
/// offered, in offer order, each with at least two cards still hidden,
/// and the one awaiting its reveal with three.
pub open spec fn offer_deals_ok(deals: Seq<DealView>, entries: Seq<DealOfferEntry>, idx: usize, step: DealOfferStep) -> bool {
    let awaiting = step == DealOfferStep::AwaitingReveal;
    &&& deals.len() == (if awaiting { idx + 1 } else { idx as int })
    &&& forall|k: int| 0 <= k < deals.len() ==> #[trigger] deals[k].seller == entries[k].player
    &&& forall|k: int| 0 <= k < deals.len() ==> hidden_ids(#[trigger] deals[k].cards).len() >= (if awaiting && k == idx {
        3int
    } else {
        2int
    })
}

/// Seats `from + 1, from + 2, ...` around the table, every seat but `from`.
pub open spec fn table_order_after(from: PlayerId, n: usize) -> Seq<PlayerId> {
    Seq::new((n - 1) as nat, |i: int| ((from + i + 1) % (n as int)) as PlayerId)
}

/// The seats after `from` are `n - 1` different seats.
pub proof fn lemma_table_order_distinct(from: PlayerId, n: usize)
    requires
        from < n,
    ensures
        forall|i: int, j: int| 0 <= i < j < n - 1 ==>
            #[trigger] table_order_after(from, n)[i] != #[trigger] table_order_after(from, n)[j],
{
    assert forall|i: int, j: int| 0 <= i < j < n - 1 implies
        #[trigger] table_order_after(from, n)[i] != #[trigger] table_order_after(from, n)[j] by {
        let a = from + i + 1;
        let b = from + j + 1;
        assert(a % (n as int) == (if a < n { a } else { a - n })) by (nonlinear_arith)
            requires
                0 <= a < 2 * n,
                n > 0,
        ;
        assert(b % (n as int) == (if b < n { b } else { b - n })) by (nonlinear_arith)
            requires
                0 <= b < 2 * n,
                n > 0,
        ;
    };
}

impl GameView {
    /// Total cards in every zone: hands, collections, deals, and both piles.
    pub open spec fn card_count(self) -> int {
        players_cards(self.players) + deals_cards(self.deals) + self.draw_pile.len()
            + self.discard_pile.len()
    }

    /// Hand of seat `p`.
    pub open spec fn hand(self, p: PlayerId) -> Seq<CardId> {
        self.players[p as int].hand
    }

    /// Collection of seat `p`.
    pub open spec fn collection(self, p: PlayerId) -> Seq<CardId> {
        self.players[p as int].collection
    }

    /// Point tokens of seat `p`.
    pub open spec fn tokens(self, p: PlayerId) -> u32 {
        self.players[p as int].point_tokens
    }

    /// Kind of card `c` (ids beyond the deck read as the placeholder kind).
    pub open spec fn kind(self, c: CardId) -> CardKind {
        kind_in(self.kinds, c)
    }

    /// Every thingamabob that can appear has an effect bound in the catalog.
    pub open spec fn effects_bound(self) -> bool {
        &&& forall|c: int| 0 <= c < self.kinds.len() ==> (#[trigger] self.kinds[c] matches CardKind::Thingamabob(k)
            ==> self.catalog.has_thingamabob(k))
        &&& forall|i: int| 0 <= i < NUM_CARD_CLASSES && #[trigger] self.kind_supply[i] > 0 ==> (
            kind_of_class_spec(i) matches CardKind::Thingamabob(k) ==> self.catalog.has_thingamabob(k))
    }

    /// The phase is one the table-size variant can be in, and every index
    /// it holds is valid.
    pub open spec fn phase_ok(self) -> bool {
        let n = self.num_players;
        match self.phase {
            PhaseView::DealOffer { entries, idx, step } => {
                &&& self.mode == GameMode::Buyer
                &&& idx < entries.len() <= usize::MAX
                &&& forall|i: int| 0 <= i < entries.len() ==> #[trigger] entries[i].player < n
                &&& step == DealOfferStep::AwaitingReveal ==> deal_index(self.deals, entries[idx as int].player) is Some
                &&& entries_distinct(entries)
                &&& offer_deals_ok(self.deals, entries, idx, step)
            },
            PhaseView::TwoPlayerDealOffer { step } => {
                &&& self.mode == GameMode::TwoPlayer
                &&& step == TwoPlayerDealStep::AwaitingSplit ==> self.deals.len() == 0
                &&& sellers_distinct(self.deals)
            },
            PhaseView::BuyerPeek => {
                &&& self.mode == GameMode::Buyer
                &&& forall|k: int| 0 <= k < self.deals.len() ==> hidden_ids(#[trigger] self.deals[k].cards).len() >= 1
                &&& sellers_distinct(self.deals)
            },
            PhaseView::ThingamabobWindow { order, consecutive_passes, .. } => {
                &&& order.len() > 0
                &&& consecutive_passes < order.len()
                &&& forall|i: int| 0 <= i < order.len() ==> #[trigger] order[i] < n
                &&& sellers_distinct(self.deals)
            },
            PhaseView::BuyerChoosesDeal => self.mode == GameMode::Buyer && sellers_distinct(self.deals),
            PhaseView::RespondToDeal => self.mode == GameMode::TwoPlayer && sellers_distinct(self.deals),
            PhaseView::NastyResolution { pending } => {
                &&& pending.player < n
                &&& self.catalog.has_nasty(pending.kind)
                &&& self.deals.len() == 0
            },
            PhaseView::GameOver { winner } => winner < n,
        }
    }

    /// The invariant every reachable game state keeps.
    pub open spec fn wf(self) -> bool {
        &&& 2 <= self.num_players <= 6
        &&& self.players.len() == self.num_players
        &&& self.stats.len() == self.num_players
        &&& self.mode == (if self.num_players == 2 { GameMode::TwoPlayer } else { GameMode::Buyer })
        &&& self.turn_leader < self.num_players
        &&& self.kinds.len() <= u32::MAX
        &&& self.card_count() == self.kinds.len()
        &&& self.names.len() == self.kinds.len()
        &&& self.pinned.len() == self.kinds.len()
        &&& self.deck_counts.len() == NUM_CARD_CLASSES
        &&& self.kind_supply.len() == NUM_CARD_CLASSES
        &&& self.catalog.wf()
        &&& self.effects_bound()
        &&& forall|d: int| 0 <= d < self.deals.len() ==> #[trigger] self.deals[d].seller < self.num_players
        &&& self.phase_ok()
    }
}

/// Cards held by the players after one seat's holdings change.
pub proof fn lemma_players_cards_update(ps: Seq<PlayerView>, i: int, x: PlayerView)
    requires
        0 <= i < ps.len(),
    ensures
        players_cards(ps.update(i, x)) == players_cards(ps) - player_cards(ps[i]) + player_cards(x),
    decreases ps.len(),
{
    if i == ps.len() - 1 {
        assert(ps.update(i, x).drop_last() =~= ps.drop_last());
    } else {
        lemma_players_cards_update(ps.drop_last(), i, x);
        assert(ps.update(i, x).drop_last() =~= ps.drop_last().update(i, x));
    }
}

/// Cards lying in the deals after one deal changes.
pub proof fn lemma_deals_cards_update(ds: Seq<DealView>, i: int, x: DealView)
    requires
        0 <= i < ds.len(),
    ensures
        deals_cards(ds.update(i, x)) == deals_cards(ds) - ds[i].cards.len() + x.cards.len(),
    decreases ds.len(),
{
    if i == ds.len() - 1 {
        assert(ds.update(i, x).drop_last() =~= ds.drop_last());
    } else {
        lemma_deals_cards_update(ds.drop_last(), i, x);
        assert(ds.update(i, x).drop_last() =~= ds.drop_last().update(i, x));
    }
}

/// Cards lying in the deals after one more deal is laid down.
pub proof fn lemma_deals_cards_push(ds: Seq<DealView>, x: DealView)
    ensures
        deals_cards(ds.push(x)) == deals_cards(ds) + x.cards.len(),
{
    assert(ds.push(x).drop_last() =~= ds);
}

/// No player holds anything.
pub proof fn lemma_players_cards_nonneg(ps: Seq<PlayerView>)
    ensures
        players_cards(ps) >= 0,
    decreases ps.len(),
{
    if ps.len() > 0 {
        lemma_players_cards_nonneg(ps.drop_last());
    }
}

/// The first deal of `seller`, if any, found by a scan.
pub fn find_deal(deals: &Vec<Deal>, seller: PlayerId) -> (r: Option<usize>)
    ensures
        r is None <==> deal_index(deals_view(deals@), seller) is None,
        r matches Some(i) ==> deal_index(deals_view(deals@), seller) == Some(i as int)
            && i < deals@.len(),
{
    let ghost sellers = deals_view(deals@).map_values(|d: DealView| d.seller);
    let mut i: usize = 0;
    while i < deals.len()
        invariant
            sellers == deals_view(deals@).map_values(|d: DealView| d.seller),
            sellers.len() == deals@.len(),
            i <= deals@.len(),
            forall|j: int| 0 <= j < i ==> sellers[j] != seller,
        decreases deals@.len() - i,
    {
        if deals[i].seller == seller {
            proof {
                crate::seqs::lemma_first_index(sellers, seller, i as int);
            }
            return Some(i);
        }
        i += 1;
    }
    proof {
        crate::seqs::lemma_no_index(sellers, seller);
    }
    None
}

} // verus!

verus! {

/// Number of cards of class `c` among `kinds`.
pub open spec fn count_class(kinds: Seq<CardKind>, c: int) -> int
    decreases kinds.len(),
{
    if kinds.len() == 0 {
        0
    } else {
        count_class(kinds.drop_last(), c) + if class_index_spec(kinds.last()) == c { 1int } else { 0int }
    }
}

/// Class counts are bounded by the number of cards, and a positive count
/// has a witness.
pub proof fn lemma_count_class(kinds: Seq<CardKind>, c: int)
    ensures
        0 <= count_class(kinds, c) <= kinds.len(),
        count_class(kinds, c) > 0 ==> exists|i: int| 0 <= i < kinds.len() && class_index_spec(#[trigger] kinds[i]) == c,
    decreases kinds.len(),
{
    if kinds.len() > 0 {
        lemma_count_class(kinds.drop_last(), c);
        if count_class(kinds.drop_last(), c) > 0 {
            let i = choose|i: int| 0 <= i < kinds.drop_last().len() && class_index_spec(kinds.drop_last()[i]) == c;
            assert(kinds[i] == kinds.drop_last()[i]);
        } else if class_index_spec(kinds.last()) == c {
            assert(class_index_spec(kinds[kinds.len() - 1]) == c);
        }
    }
}

/// Point tokens needed to win at this table size.
pub open spec fn win_threshold_spec(mode: GameMode, n: usize) -> u32 {
    match mode {
        GameMode::TwoPlayer => 5,
        GameMode::Buyer => if n == 3 || n == 4 { 4 } else { 5 },
    }
}

/// The first phase of a new turn led by `leader`.
pub open spec fn new_turn_phase(mode: GameMode, leader: PlayerId, n: usize) -> PhaseView {
    match mode {
        GameMode::Buyer => PhaseView::DealOffer {
            entries: table_order_after(leader, n).map_values(
                |p: PlayerId| DealOfferEntry { player: p, needs_reveal: true },
            ),
            idx: 0,
            step: DealOfferStep::AwaitingSubmit,
        },
        GameMode::TwoPlayer => PhaseView::TwoPlayerDealOffer { step: TwoPlayerDealStep::AwaitingSplit },
    }
}

/// A deck the engine can run: contiguous distinct ids, a well-formed
/// catalog, every thingamabob's effect bound, and fewer cards than there
/// are card ids (so every per-class tally fits its `u32` counter).
pub open spec fn deck_ok(deck: DeckConfig) -> bool {
    let cards = deck.cards@;
    &&& cards.len() <= u32::MAX
    &&& forall|i: int| 0 <= i < cards.len() ==> (#[trigger] cards[i]).id < cards.len()
    &&& forall|i: int, j: int| 0 <= i < j < cards.len() ==> (#[trigger] cards[i]).id != (#[trigger] cards[j]).id
    &&& deck.catalog.wf()
    &&& forall|i: int| 0 <= i < cards.len() ==> ((#[trigger] cards[i]).kind matches CardKind::Thingamabob(k)
        ==> deck.catalog.has_thingamabob(k))
}

/// Ids of the deck's cards, in deck order.
pub open spec fn deck_ids(deck: DeckConfig) -> Seq<CardId> {
    deck.cards@.map_values(|c: Card| c.id)
}

/// `v` is a freshly dealt game of `deck`: hands are consecutive runs of
/// five from `perm`, a rearrangement of the deck's ids, and the rest is the
/// draw pile.
pub open spec fn freshly_dealt(v: GameView, deck: DeckConfig, perm: Seq<CardId>) -> bool {
    let n = v.num_players as int;
    &&& perm.to_multiset() == deck_ids(deck).to_multiset()
    &&& perm.len() == deck.cards@.len()
    &&& forall|p: int| 0 <= p < n ==> (#[trigger] v.players[p]).hand == perm.subrange(5 * p, 5 * p + 5)
    &&& forall|p: int| 0 <= p < n ==> (#[trigger] v.players[p]).collection == Seq::<CardId>::empty()
    &&& forall|p: int| 0 <= p < n ==> (#[trigger] v.players[p]).point_tokens == 0
    &&& v.draw_pile == perm.subrange(5 * n, perm.len() as int)
}

/// Every entry of a kind table is the placeholder or the kind of the deck
/// card carrying that id.
#[verifier::opaque]
pub open spec fn kinds_from_deck(kinds: Seq<CardKind>, cards: Seq<Card>) -> bool {
    forall|c: int| 0 <= c < kinds.len() ==> (#[trigger] kinds[c] == placeholder_kind()
        || exists|j: int| 0 <= j < cards.len() && cards[j].id == c && cards[j].kind == kinds[c])
}

/// Kind of card `c` in a kind table (ids beyond it read as the placeholder).
pub open spec fn kind_in(kinds: Seq<CardKind>, c: CardId) -> CardKind {
    if c < kinds.len() { kinds[c as int] } else { placeholder_kind() }
}

/// Placeholder kind for ids no card of the deck carries.
pub open spec fn placeholder_kind() -> CardKind {
    CardKind::Creature(Tier::Giant)
}

} // verus!

verus! {

/// A table whose every entry is either the placeholder or has a known
/// source card is drawn from the deck.
proof fn lemma_kinds_from_deck(kinds: Seq<CardKind>, cards: Seq<Card>, src: Seq<int>)
    requires
        src.len() == kinds.len(),
        forall|c: int| 0 <= c < kinds.len() && #[trigger] src[c] < 0 ==> kinds[c] == placeholder_kind(),
        forall|c: int| 0 <= c < kinds.len() && #[trigger] src[c] >= 0 ==> src[c] < cards.len() && cards[src[c]].id == c
            && cards[src[c]].kind == kinds[c],
    ensures
        kinds_from_deck(kinds, cards),
{
    reveal(kinds_from_deck);
    assert forall|c: int| 0 <= c < kinds.len() implies (#[trigger] kinds[c] == placeholder_kind()
        || exists|k: int| 0 <= k < cards.len() && cards[k].id == c && cards[k].kind == kinds[c]) by {
        if src[c] >= 0 {
            let k = src[c];
            assert(cards[k].id == c && cards[k].kind == kinds[c]);
        }
    };
}

/// Mechanical kind of every card, indexed by id.
fn kind_table(cards: &Vec<Card>) -> (kinds: Vec<CardKind>)
    requires
        cards@.len() <= u32::MAX,
        forall|i: int| 0 <= i < cards@.len() ==> (#[trigger] cards@[i]).id < cards@.len(),
        forall|i: int, j: int| 0 <= i < j < cards@.len() ==> (#[trigger] cards@[i]).id != (#[trigger] cards@[j]).id,
    ensures
        kinds@.len() == cards@.len(),
        forall|j: int| 0 <= j < cards@.len() ==> kinds@[(#[trigger] cards@[j]).id as int] == cards@[j].kind,
        kinds_from_deck(kinds@, cards@),
{
    let n = cards.len();
    let mut kinds: Vec<CardKind> = Vec::new();
    let mut i: usize = 0;
    while i < n
        invariant
            n == cards@.len(),
            i <= n,
            kinds@.len() == i,
            forall|c: int| 0 <= c < i ==> kinds@[c] == placeholder_kind(),
        decreases n - i,
    {
        kinds.push(CardKind::Creature(Tier::Giant));
        i += 1;
    }
    let mut j: usize = 0;
    let ghost mut src: Seq<int> = Seq::new(n as nat, |c: int| -1int);
    while j < n
        invariant
            n == cards@.len(),
            j <= n,
            kinds@.len() == n,
            src.len() == n,
            forall|i: int| 0 <= i < cards@.len() ==> (#[trigger] cards@[i]).id < cards@.len(),
            forall|a: int, b: int| 0 <= a < b < cards@.len() ==> (#[trigger] cards@[a]).id != (#[trigger] cards@[b]).id,
            forall|k: int| 0 <= k < j ==> kinds@[(#[trigger] cards@[k]).id as int] == cards@[k].kind,
            forall|c: int| 0 <= c < n && #[trigger] src[c] < 0 ==> kinds@[c] == placeholder_kind(),
            forall|c: int| 0 <= c < n && #[trigger] src[c] >= 0 ==> src[c] < j && cards@[src[c]].id == c
                && cards@[src[c]].kind == kinds@[c],
        decreases n - j,
    {
        let id = cards[j].id as usize;
        kinds.set(id, cards[j].kind);
        proof {
            src = src.update(id as int, j as int);
            assert forall|k: int| 0 <= k < j + 1 implies kinds@[(#[trigger] cards@[k]).id as int] == cards@[k].kind by {
                if k < j {
                    assert(cards@[k].id != cards@[j as int].id);
                }
            };
        }
        j += 1;
    }
    proof {
        lemma_kinds_from_deck(kinds@, cards@, src);
    }
    kinds
}

/// Display name of every card, indexed by id.
fn name_table(cards: &Vec<Card>) -> (names: Vec<String>)
    requires
        forall|i: int| 0 <= i < cards@.len() ==> (#[trigger] cards@[i]).id < cards@.len(),
        forall|i: int, j: int| 0 <= i < j < cards@.len() ==> (#[trigger] cards@[i]).id != (#[trigger] cards@[j]).id,
    ensures
        names@.len() == cards@.len(),
        forall|j: int| 0 <= j < cards@.len() ==> names@[(#[trigger] cards@[j]).id as int] == cards@[j].name,
{
    let n = cards.len();
    let mut names: Vec<String> = Vec::new();
    let mut i: usize = 0;
    while i < n
        invariant
            n == cards@.len(),
            i <= n,
            names@.len() == i,
        decreases n - i,
    {
        names.push(String::new());
        i += 1;
    }
    let mut j: usize = 0;
    while j < n
        invariant
            n == cards@.len(),
            j <= n,
            names@.len() == n,
            forall|i: int| 0 <= i < cards@.len() ==> (#[trigger] cards@[i]).id < cards@.len(),
            forall|a: int, b: int| 0 <= a < b < cards@.len() ==> (#[trigger] cards@[a]).id != (#[trigger] cards@[b]).id,
            forall|k: int| 0 <= k < j ==> names@[(#[trigger] cards@[k]).id as int] == cards@[k].name,
        decreases n - j,
    {
        let id = cards[j].id as usize;
        names.set(id, cards[j].name.clone());
        proof {
            assert forall|k: int| 0 <= k < j + 1 implies names@[(#[trigger] cards@[k]).id as int] == cards@[k].name by {
                if k < j {
                    assert(cards@[k].id != cards@[j as int].id);
                }
            };
        }
        j += 1;
    }
    names
}

/// Number of cards of each class among `kinds`.
fn class_counts(kinds: &Vec<CardKind>) -> (r: [u32; 12])
    requires
        kinds@.len() <= u32::MAX,
    ensures
        forall|c: int| 0 <= c < 12 ==> #[trigger] r@[c] == count_class(kinds@, c),
{
    let mut counts: Vec<u32> = Vec::new();
    let mut c: usize = 0;
    while c < 12
        invariant
            c <= 12,
            counts@.len() == c,
            forall|k: int| 0 <= k < c ==> counts@[k] == 0,
        decreases 12 - c,
    {
        counts.push(0);
        c += 1;
    }
    let mut i: usize = 0;
    assert(kinds@.take(0) =~= Seq::<CardKind>::empty());
    while i < kinds.len()
        invariant
            kinds@.len() <= u32::MAX,
            i <= kinds@.len(),
            counts@.len() == 12,
            forall|k: int| 0 <= k < 12 ==> #[trigger] counts@[k] == count_class(kinds@.take(i as int), k),
        decreases kinds@.len() - i,
    {
        let k = kinds[i].class_index();
        proof {
            assert(kinds@.take(i as int + 1).drop_last() =~= kinds@.take(i as int));
            lemma_count_class(kinds@.take(i as int), k as int);
            assert forall|m: int| 0 <= m < 12 implies #[trigger] count_class(kinds@.take(i as int + 1), m)
                == count_class(kinds@.take(i as int), m) + if m == k { 1int } else { 0int } by {
                assert(kinds@.take(i as int + 1).last() == kinds@[i as int]);
            };
        }
        counts.set(k, counts[k] + 1);
        i += 1;
    }
    assert(kinds@.take(i as int) =~= kinds@);
    let r = [
        counts[0], counts[1], counts[2], counts[3], counts[4], counts[5],
        counts[6], counts[7], counts[8], counts[9], counts[10], counts[11],
    ];
    assert(r@ =~= counts@);
    r
}

/// Seats after `from` in table order.
pub fn table_order_after_exec(from: PlayerId, n: usize) -> (r: Vec<PlayerId>)
    requires
        1 <= n <= 6,
        from < n,
    ensures
        r@ == table_order_after(from, n),
{
    let mut out: Vec<PlayerId> = Vec::new();
    let mut offset: usize = 1;
    while offset < n
        invariant
            1 <= n <= 6,
            from < n,
            1 <= offset <= n,
            out@ == table_order_after(from, n).take(offset - 1),
        decreases n - offset,
    {
        out.push((from + offset) % n);
        offset += 1;
        assert(out@ =~= table_order_after(from, n).take(offset - 1));
    }
    assert(table_order_after(from, n).take(n - 1) =~= table_order_after(from, n));
    out
}

/// The entries of a fresh buyer-mode deal offer.
pub(crate) fn deal_offer_entries(leader: PlayerId, n: usize) -> (r: Vec<DealOfferEntry>)
    requires
        1 <= n <= 6,
        leader < n,
    ensures
        r@ == table_order_after(leader, n).map_values(|p: PlayerId| DealOfferEntry { player: p, needs_reveal: true }),
{
    let order = table_order_after_exec(leader, n);
    let ghost want = table_order_after(leader, n).map_values(|p: PlayerId| DealOfferEntry { player: p, needs_reveal: true });
    let mut out: Vec<DealOfferEntry> = Vec::new();
    let mut i: usize = 0;
    while i < order.len()
        invariant
            order@ == table_order_after(leader, n),
            want == order@.map_values(|p: PlayerId| DealOfferEntry { player: p, needs_reveal: true }),
            i <= order@.len(),
            out@ == want.take(i as int),
        decreases order@.len() - i,
    {
        out.push(DealOfferEntry { player: order[i], needs_reveal: true });
        i += 1;
        assert(out@ =~= want.take(i as int));
    }
    assert(want.take(i as int) =~= want);
    out
}

/// Consecutive runs of five ids as starting hands, and the rest as the draw pile.
fn deal_hands(ids: &Vec<CardId>, n: usize) -> (r: (Vec<Player>, Vec<CardId>))
    requires
        ids@.len() >= n * 5,
        n <= 6,
    ensures
        r.0@.len() == n,
        forall|p: int| 0 <= p < n ==> (#[trigger] r.0@[p])@.hand == ids@.subrange(5 * p, 5 * p + 5),
        forall|p: int| 0 <= p < n ==> (#[trigger] r.0@[p])@.collection == Seq::<CardId>::empty(),
        forall|p: int| 0 <= p < n ==> (#[trigger] r.0@[p])@.point_tokens == 0,
        r.1@ == ids@.subrange(5 * n, ids@.len() as int),
{
    let total = ids.len();
    let mut players: Vec<Player> = Vec::new();
    let mut cursor: usize = 0;
    let mut p: usize = 0;
    while p < n
        invariant
            ids@.len() >= n * 5,
            total == ids@.len(),
            n <= 6,
            p <= n,
            cursor == 5 * p,
            players@.len() == p,
            forall|q: int| 0 <= q < p ==> (#[trigger] players@[q])@.hand == ids@.subrange(5 * q, 5 * q + 5),
            forall|q: int| 0 <= q < p ==> (#[trigger] players@[q])@.collection == Seq::<CardId>::empty(),
            forall|q: int| 0 <= q < p ==> (#[trigger] players@[q])@.point_tokens == 0,
        decreases n - p,
    {
        assert(5 * p + 5 <= 5 * n) by (nonlinear_arith)
            requires
                p < n,
        ;
        let mut player = Player::new();
        let mut k: usize = 0;
        while k < HAND_SIZE
            invariant
                ids@.len() >= n * 5,
                p < n,
                cursor == 5 * p,
                k <= 5,
                player.hand@ == ids@.subrange(cursor as int, cursor + k),
                player.collection@ == Seq::<CardId>::empty(),
                player.point_tokens == 0,
                cursor + 5 <= total,
                total == ids@.len(),
            decreases 5 - k,
        {
            player.hand.push(ids[cursor + k]);
            k += 1;
            assert(player.hand@ =~= ids@.subrange(cursor as int, cursor + k));
        }
        players.push(player);
        cursor += HAND_SIZE;
        p += 1;
    }
    let mut draw: Vec<CardId> = Vec::new();
    let mut i: usize = cursor;
    while i < ids.len()
        invariant
            cursor == 5 * n,
            cursor <= i <= ids@.len(),
            draw@ == ids@.subrange(cursor as int, i as int),
        decreases ids@.len() - i,
    {
        draw.push(ids[i]);
        i += 1;
        assert(draw@ =~= ids@.subrange(cursor as int, i as int));
    }
    (players, draw)
}


/// The deck's ids, in an order the random source chose.
fn shuffled_ids(deck: &DeckConfig, rng: &mut GameRng) -> (ids: Vec<CardId>)
    ensures
        ids@.len() == deck.cards@.len(),
        ids@.to_multiset() == deck_ids(*deck).to_multiset(),
{
    let mut ids: Vec<CardId> = Vec::new();
    let mut i: usize = 0;
    while i < deck.cards.len()
        invariant
            i <= deck.cards@.len(),
            ids@ == deck_ids(*deck).take(i as int),
        decreases deck.cards@.len() - i,
    {
        ids.push(deck.cards[i].id);
        i += 1;
        assert(ids@ =~= deck_ids(*deck).take(i as int));
    }
    assert(deck_ids(*deck).take(i as int) =~= deck_ids(*deck));
    rng.shuffle(&mut ids);
    ids
}

/// The class counts as a vector.
fn counts_vec(counts: &[u32; 12]) -> (r: Vec<u32>)
    ensures
        r@ == counts@,
{
    let mut out: Vec<u32> = Vec::new();
    let mut c: usize = 0;
    while c < 12
        invariant
            c <= 12,
            counts@.len() == 12,
            out@ == counts@.take(c as int),
        decreases 12 - c,
    {
        out.push(counts[c]);
        c += 1;
        assert(out@ =~= counts@.take(c as int));
    }
    assert(counts@.take(12) =~= counts@);
    out
}

/// Empty statistics for each of `n` seats.
fn fresh_stats(n: usize) -> (r: Vec<PlayerStats>)
    ensures
        r@ == Seq::new(n as nat, |i: int| zero_stats()),
{
    let mut stats: Vec<PlayerStats> = Vec::new();
    let mut p: usize = 0;
    while p < n
        invariant
            p <= n,
            stats@ == Seq::new(p as nat, |i: int| zero_stats()),
        decreases n - p,
    {
        stats.push(PlayerStats::default());
        p += 1;
        assert(stats@ =~= Seq::new(p as nat, |i: int| zero_stats()));
    }
    stats
}

/// No card pinned yet, for `n` cards.
fn unpinned(n: usize) -> (r: Vec<bool>)
    ensures
        r@ == Seq::new(n as nat, |i: int| false),
{
    let mut pinned: Vec<bool> = Vec::new();
    let mut k: usize = 0;
    while k < n
        invariant
            k <= n,
            pinned@ == Seq::new(k as nat, |i: int| false),
        decreases n - k,
    {
        pinned.push(false);
        k += 1;
        assert(pinned@ =~= Seq::new(k as nat, |i: int| false));
    }
    pinned
}

/// Every thingamabob class present in a deck's kind table has its effect
/// bound.
proof fn lemma_table_thingamabobs_bound(kinds: Seq<CardKind>, deck: DeckConfig, counts: Seq<u32>)
    requires
        deck_ok(deck),
        kinds.len() == deck.cards@.len(),
        counts.len() == 12,
        forall|c: int| 0 <= c < 12 ==> #[trigger] counts[c] == count_class(kinds, c),
        kinds_from_deck(kinds, deck.cards@),
    ensures
        forall|i: int| 7 <= i < 12 && #[trigger] counts[i] > 0 ==> deck.catalog.thingamabob_effect@[i - 7] is Some,
{
    reveal(kinds_from_deck);
    lemma_count_class(kinds, 10);
    assert forall|i: int| 7 <= i < 12 && #[trigger] counts[i] > 0 implies deck.catalog.thingamabob_effect@[i - 7] is Some by {
        lemma_count_class(kinds, i);
        let c = choose|c: int| 0 <= c < kinds.len() && class_index_spec(#[trigger] kinds[c]) == i;
        if kinds[c] != placeholder_kind() {
            let j = choose|j: int| 0 <= j < deck.cards@.len() && deck.cards@[j].id == c && deck.cards@[j].kind == kinds[c];
            assert(deck.cards@[j].kind matches CardKind::Thingamabob(_));
        }
    };
}

/// Seats each holding a hand of five and nothing else hold five cards each.
proof fn lemma_dealt_cards(ps: Seq<PlayerView>)
    requires
        forall|p: int| 0 <= p < ps.len() ==> (#[trigger] ps[p]).hand.len() == 5 && ps[p].collection.len() == 0,
    ensures
        players_cards(ps) == 5 * ps.len(),
    decreases ps.len(),
{
    if ps.len() > 0 {
        assert forall|p: int| 0 <= p < ps.drop_last().len() implies (#[trigger] ps.drop_last()[p]).hand.len() == 5
            && ps.drop_last()[p].collection.len() == 0 by {
            assert(ps.drop_last()[p] == ps[p]);
        };
        lemma_dealt_cards(ps.drop_last());
        assert(ps.last() == ps[ps.len() - 1]);
    }
}

/// A freshly dealt game of a runnable deck keeps the state invariant.
proof fn lemma_setup_wf(v: GameView, deck: DeckConfig, perm: Seq<CardId>)
    requires
        deck_ok(deck),
        2 <= v.num_players <= 6,
        deck.cards@.len() >= v.num_players * 5,
        v.players.len() == v.num_players,
        v.stats.len() == v.num_players,
        v.mode == (if v.num_players == 2 { GameMode::TwoPlayer } else { GameMode::Buyer }),
        v.turn_leader < v.num_players,
        v.catalog == deck.catalog,
        v.kinds.len() == deck.cards@.len(),
        v.names.len() == deck.cards@.len(),
        v.pinned.len() == deck.cards@.len(),
        v.deck_counts.len() == NUM_CARD_CLASSES,
        v.kind_supply == v.deck_counts,
        forall|c: int| 0 <= c < 12 ==> #[trigger] v.deck_counts[c] == count_class(v.kinds, c),
        kinds_from_deck(v.kinds, deck.cards@),
        freshly_dealt(v, deck, perm),
        v.deals == Seq::<DealView>::empty(),
        v.discard_pile == Seq::<CardId>::empty(),
        v.phase == new_turn_phase(v.mode, v.turn_leader, v.num_players),
    ensures
        v.wf(),
{
    reveal(kinds_from_deck);
    let n = v.num_players;
    assert forall|p: int| 0 <= p < v.players.len() implies (#[trigger] v.players[p]).hand.len() == 5
        && v.players[p].collection.len() == 0 by {
        assert(v.players[p].hand == perm.subrange(5 * p, 5 * p + 5));
    };
    lemma_dealt_cards(v.players);
    assert(v.card_count() == v.kinds.len());
    assert forall|c: int| 0 <= c < v.kinds.len() implies (#[trigger] v.kinds[c] matches CardKind::Thingamabob(k)
        ==> v.catalog.has_thingamabob(k)) by {
        if v.kinds[c] != placeholder_kind() {
            let j = choose|j: int| 0 <= j < deck.cards@.len() && deck.cards@[j].id == c && deck.cards@[j].kind == v.kinds[c];
            assert(deck.cards@[j].kind == v.kinds[c]);
        }
    };
    assert forall|i: int| 0 <= i < NUM_CARD_CLASSES && #[trigger] v.kind_supply[i] > 0 implies (
        kind_of_class_spec(i) matches CardKind::Thingamabob(k) ==> v.catalog.has_thingamabob(k)) by {
        lemma_count_class(v.kinds, i);
        let c = choose|c: int| 0 <= c < v.kinds.len() && class_index_spec(#[trigger] v.kinds[c]) == i;
        crate::card::lemma_class_index_bijection(v.kinds[c]);
    };
    if v.mode == GameMode::Buyer {
        assert forall|i: int| 0 <= i < (n - 1) implies
            #[trigger] table_order_after(v.turn_leader, n)[i] < n by {
        };
    }
}

impl GameState {
    /// Builds a new game with a randomly chosen starting leader.
    pub fn new(num_players: usize, deck: DeckConfig, seed: u64) -> (r: Result<GameState, SetupError>)
        requires
            deck_ok(deck),
        ensures
            !(2 <= num_players <= 6) ==> r == Err::<GameState, SetupError>(SetupError::InvalidPlayerCount(num_players)),
            2 <= num_players <= 6 && deck.cards@.len() < num_players * 5 ==> r == Err::<GameState, SetupError>(
                SetupError::NotEnoughCardsToDeal { have: deck.cards@.len() as usize, need: (num_players * 5) as usize },
            ),
            2 <= num_players <= 6 && deck.cards@.len() >= num_players * 5 ==> (r matches Ok(g) && g@.wf()
                && g@.turn_leader < num_players && Self::fresh_game(g@, num_players, deck)),
    {
        Self::new_with_starting_leader(num_players, deck, seed, None)
    }

    /// What a freshly set-up game of `deck` at `n` seats is (apart from
    /// who leads, and which rearrangement of the deck was dealt).
    pub open spec fn fresh_game(v: GameView, n: usize, deck: DeckConfig) -> bool {
        &&& v.num_players == n
        &&& v.mode == (if n == 2 { GameMode::TwoPlayer } else { GameMode::Buyer })
        &&& v.win_threshold == win_threshold_spec(v.mode, n)
        &&& v.catalog == deck.catalog
        &&& v.kinds.len() == deck.cards@.len()
        &&& forall|j: int| 0 <= j < deck.cards@.len() ==> v.kinds[(#[trigger] deck.cards@[j]).id as int] == deck.cards@[j].kind
        &&& forall|j: int| 0 <= j < deck.cards@.len() ==> v.names[(#[trigger] deck.cards@[j]).id as int] == deck.cards@[j].name
        &&& exists|perm: Seq<CardId>| freshly_dealt(v, deck, perm)
        &&& v.discard_pile == Seq::<CardId>::empty()
        &&& v.deals == Seq::<DealView>::empty()
        &&& v.phase == new_turn_phase(v.mode, v.turn_leader, n)
        &&& forall|c: int| 0 <= c < 12 ==> #[trigger] v.deck_counts[c] == count_class(v.kinds, c)
        &&& v.kind_supply == v.deck_counts
        &&& v.turn_index == 0
        &&& v.max_legal_actions == crate::bounds::max_legal_actions_spec(v.catalog, v.deck_counts, v.mode, n)
        &&& v.stats == Seq::new(n as nat, |i: int| zero_stats())
        &&& v.pinned == Seq::new(v.kinds.len(), |i: int| false)
        &&& v.card_count() == v.kinds.len()
        &&& crate::places::game_ids(v) == deck_ids(deck).to_multiset()
        &&& crate::rules::hands_small(v)
    }

    /// Deals a new game once the table size, leader and deck have been checked.
    #[verifier::rlimit(100)]
    #[verifier::spinoff_prover]
    fn set_up(num_players: usize, deck: DeckConfig, seed: u64, starting_leader: Option<PlayerId>) -> (game: GameState)
        requires
            deck_ok(deck),
            2 <= num_players <= 6,
            starting_leader matches Some(l) ==> l < num_players,
            deck.cards@.len() >= num_players * 5,
        ensures
            game@.wf(),
            starting_leader matches Some(l) ==> game@.turn_leader == l,
            Self::fresh_game(game@, num_players, deck),
    {
        let mut rng = GameRng::from_seed(seed);
        let ids = shuffled_ids(&deck, &mut rng);
        let ghost perm = ids@;
        let kinds = kind_table(&deck.cards);
        let names = name_table(&deck.cards);
        let deck_counts = class_counts(&kinds);
        let kind_supply = counts_vec(&deck_counts);
        let (players, draw_pile) = deal_hands(&ids, num_players);
        let mode = if num_players == 2 { GameMode::TwoPlayer } else { GameMode::Buyer };
        let win_threshold: u32 = match mode {
            GameMode::TwoPlayer => 5,
            GameMode::Buyer => if num_players == 3 || num_players == 4 { 4 } else { 5 },
        };
        let turn_leader = match starting_leader {
            Some(l) => l,
            None => rng.gen_index(num_players),
        };
        let catalog = deck.catalog;
        proof {
            lemma_table_thingamabobs_bound(kinds@, deck, deck_counts@);
        }
        let max_legal_actions = crate::bounds::compute_max_legal_actions(&catalog, &deck_counts, mode, num_players);
        let stats = fresh_stats(num_players);
        let pinned = unpinned(kinds.len());
        let phase = match mode {
            GameMode::Buyer => Phase::DealOffer(DealOfferState {
                entries: deal_offer_entries(turn_leader, num_players),
                idx: 0,
                step: DealOfferStep::AwaitingSubmit,
            }),
            GameMode::TwoPlayer => Phase::TwoPlayerDealOffer(TwoPlayerDealState { step: TwoPlayerDealStep::AwaitingSplit }),
        };
        let game = GameState {
            catalog,
            names,
            kinds,
            mode,
            num_players,
            win_threshold,
            players,
            draw_pile,
            discard_pile: Vec::new(),
            deals: Vec::new(),
            turn_leader,
            phase,
            rng,
            deck_counts,
            turn_index: 0,
            max_legal_actions,
            stats,
            kind_supply,
            pinned,
        };
        proof {
            let v = game@;
            assert(v.deals =~= Seq::<DealView>::empty());
            assert(freshly_dealt(v, deck, perm));
            assert(v.kind_supply =~= v.deck_counts);
            assert(v.phase == new_turn_phase(v.mode, v.turn_leader, num_players)) by {
                if mode == GameMode::Buyer {
                    let e1 = v.phase->DealOffer_entries;
                    let e2 = table_order_after(turn_leader, num_players).map_values(
                        |p: PlayerId| DealOfferEntry { player: p, needs_reveal: true },
                    );
                    assert(e1 =~= e2);
                }
            };
            lemma_setup_wf(v, deck, perm);
            lemma_dealt_cards(v.players);
            assert(v.card_count() == v.kinds.len());
            crate::places::lemma_fresh_ids(v, deck, perm);
            assert forall|p: int| 0 <= p < v.players.len() implies (#[trigger] v.players[p]).hand.len() <= 5 by {
                assert(v.players[p].hand == perm.subrange(5 * p, 5 * p + 5));
            };
        }
        game
    }

    /// Like [`GameState::new`], but pins the first turn's leader (the buyer,
    /// or the active player in two-player mode) instead of picking one at
    /// random.
    pub fn new_with_starting_leader(
        num_players: usize,
        deck: DeckConfig,
        seed: u64,
        starting_leader: Option<PlayerId>,
    ) -> (r: Result<GameState, SetupError>)
        requires
            deck_ok(deck),
        ensures
            !(2 <= num_players <= 6) ==> r == Err::<GameState, SetupError>(SetupError::InvalidPlayerCount(num_players)),
            2 <= num_players <= 6 && (starting_leader matches Some(g) && g >= num_players) ==> r == Err::<GameState, SetupError>(
                SetupError::InvalidStartingLeader { given: starting_leader->0, num_players },
            ),
            2 <= num_players <= 6 && !(starting_leader matches Some(g) && g >= num_players)
                && deck.cards@.len() < num_players * 5 ==> r == Err::<GameState, SetupError>(
                SetupError::NotEnoughCardsToDeal { have: deck.cards@.len() as usize, need: (num_players * 5) as usize },
            ),
            2 <= num_players <= 6 && !(starting_leader matches Some(g) && g >= num_players)
                && deck.cards@.len() >= num_players * 5 ==> (r matches Ok(g) && g@.wf()
                && g@.turn_leader < num_players
                && (starting_leader matches Some(l) ==> g@.turn_leader == l)
                && Self::fresh_game(g@, num_players, deck)),
    {
        if !(2 <= num_players && num_players <= 6) {
            return Err(SetupError::InvalidPlayerCount(num_players));
        }
        if let Some(given) = starting_leader {
            if given >= num_players {
                return Err(SetupError::InvalidStartingLeader { given, num_players });
            }
        }
        let needed = num_players * HAND_SIZE;
        if deck.cards.len() < needed {
            return Err(SetupError::NotEnoughCardsToDeal { have: deck.cards.len(), need: needed });
        }
        Ok(Self::set_up(num_players, deck, seed, starting_leader))
    }
}


/// Whether the catalog is one the rules can run: see [`Catalog::wf`].
pub fn catalog_ok(c: &Catalog) -> (r: bool)
    ensures
        r == c.wf(),
{
    let mut i: usize = 0;
    while i < 3
        invariant
            i <= 3,
            forall|j: int| 0 <= j < i ==> (#[trigger] c.nasty_set_size@[j] is Some <==> c.nasty_effect@[j] is Some),
            forall|j: int| 0 <= j < i ==> (#[trigger] c.nasty_set_size@[j] matches Some(n) ==> n >= 1),
        decreases 3 - i,
    {
        if c.nasty_set_size[i].is_some() != c.nasty_effect[i].is_some() {
            return false;
        }
        match c.nasty_set_size[i] {
            Some(n) => {
                if n < 1 {
                    return false;
                }
            },
            None => {},
        }
        i += 1;
    }
    let mut i: usize = 0;
    while i < 4
        invariant
            i <= 4,
            forall|j: int| 0 <= j < 3 ==> (#[trigger] c.nasty_set_size@[j] is Some <==> c.nasty_effect@[j] is Some),
            forall|j: int| 0 <= j < 3 ==> (#[trigger] c.nasty_set_size@[j] matches Some(n) ==> n >= 1),
            forall|j: int| 0 <= j < i ==> (#[trigger] c.creature_set_size@[j] matches Some(n) ==> n >= 1),
        decreases 4 - i,
    {
        match c.creature_set_size[i] {
            Some(n) => {
                if n < 1 {
                    return false;
                }
            },
            None => {},
        }
        i += 1;
    }
    true
}

/// Whether a deck is one the engine can run (see [`deck_ok`]): fewer than
/// `u32::MAX + 1` cards with the distinct ids `0..n`, a catalog the rules can run,
/// and every thingamabob in the deck bound to an effect.
pub fn deck_is_runnable(deck: &DeckConfig) -> (r: bool)
    ensures
        r == deck_ok(*deck),
{
    let n = deck.cards.len();
    if n > 4294967295 {
        return false;
    }
    if !catalog_ok(&deck.catalog) {
        return false;
    }
    let mut seen: Vec<bool> = Vec::new();
    let mut k: usize = 0;
    while k < n
        invariant
            k <= n,
            seen@.len() == k,
            forall|j: int| 0 <= j < k ==> !(#[trigger] seen@[j]),
        decreases n - k,
    {
        seen.push(false);
        k += 1;
    }
    let ghost cards = deck.cards@;
    let mut i: usize = 0;
    while i < n
        invariant
            n == cards.len(),
            n <= u32::MAX,
            cards == deck.cards@,
            i <= n,
            seen@.len() == n,
            deck.catalog.wf(),
            forall|a: int| 0 <= a < i ==> (#[trigger] cards[a]).id < n,
            forall|a: int, b: int| 0 <= a < b < i ==> (#[trigger] cards[a]).id != (#[trigger] cards[b]).id,
            forall|a: int| 0 <= a < i ==> ((#[trigger] cards[a]).kind matches CardKind::Thingamabob(k)
                ==> deck.catalog.has_thingamabob(k)),
            forall|x: int| 0 <= x < n ==> (#[trigger] seen@[x] <==> exists|a: int| 0 <= a < i && cards[a].id == x),
        decreases n - i,
    {
        let c = &deck.cards[i];
        if (c.id as usize) >= n {
            return false;
        }
        if seen[c.id as usize] {
            proof {
                let a = choose|a: int| 0 <= a < i && cards[a].id == c.id;
                assert(cards[a].id == cards[i as int].id);
            }
            return false;
        }
        match c.kind {
            CardKind::Thingamabob(k) => {
                if deck.catalog.thingamabob_effect[crate::deck::thingamabob_index(k)].is_none() {
                    return false;
                }
            },
            _ => {},
        }
        let ghost before = seen@;
        seen.set(c.id as usize, true);
        proof {
            assert forall|x: int| 0 <= x < n implies (#[trigger] seen@[x] <==> exists|a: int| 0 <= a < i + 1 && cards[a].id == x) by {
                if x == c.id {
                    assert(cards[i as int].id == x);
                } else {
                    assert(seen@[x] == before[x]);
                    if exists|a: int| 0 <= a < i + 1 && cards[a].id == x {
                        let a = choose|a: int| 0 <= a < i + 1 && cards[a].id == x;
                        assert(a < i);
                    }
                }
            };
            assert forall|a: int, b: int| 0 <= a < b < i + 1 implies (#[trigger] cards[a]).id != (#[trigger] cards[b]).id by {
                if b == i {
                    if cards[a].id == cards[b].id {
                        assert(before[cards[a].id as int]);
                    }
                }
            };
        }
        i += 1;
    }
    true
}
} // verus!
