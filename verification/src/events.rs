//! What applying an action can produce: the structured events of a step,
//! and every error the rules and the setup can report.

use vstd::prelude::*;
use crate::card::{CardId, NastyKind, PlayerId, ThingamabobKind, Tier};

verus! {

/// Which table-size variant of the rules is in effect.
#[derive(Debug, Clone, Copy, PartialEq, Eq, Structural)]
pub enum GameMode {
    /// Three or more players: one buyer, multiple sellers per turn.
    Buyer,
    /// Exactly two players: the split-pile variant.
    TwoPlayer,
}

/// Something that happened as a result of applying an action.
#[derive(Debug, Clone, PartialEq, Eq)]
pub enum Event {
    /// A seller submitted a deal.
    DealSubmitted { player: PlayerId },
    /// A card in a deal was revealed.
    CardRevealed { seller: PlayerId, card: CardId },
    /// The buyer peeked at a hidden card.
    BuyerPeeked { target_seller: PlayerId, card: CardId },
    /// A thingamabob was played.
    ThingamabobPlayed { player: PlayerId, card: CardId, kind: ThingamabobKind },
    /// The thingamabob response window closed.
    ThingamabobWindowClosed,
    /// The buyer chose a deal.
    DealChosen { buyer: PlayerId, seller: PlayerId },
    /// Two-player mode: the responder answered a deal.
    DealResponded { active: PlayerId, reverse: bool },
    /// Cards were awarded to a player's collection.
    CardsAwarded { player: PlayerId, cards: Vec<CardId> },
    /// Cards went to the discard pile.
    CardsDiscarded { cards: Vec<CardId> },
    /// A nasty set was traded in.
    NastySetTradedIn { player: PlayerId, kind: NastyKind },
    /// Point tokens were stolen.
    PointTokenStolen { from: PlayerId, to: PlayerId, amount: u32 },
    /// Cards were stolen.
    CardsStolen { from: PlayerId, to: PlayerId, cards: Vec<CardId> },
    /// A creature set was traded in.
    CreatureSetTradedIn { player: PlayerId, tier: Tier, tokens_gained: u32 },
    /// A player's hand was refilled from the draw pile.
    HandRefilled { player: PlayerId, drawn: usize },
    /// The draw pile was reshuffled from the discard pile.
    DrawPileReshuffledFromDiscard,
    /// The turn leader passed to a new player.
    TurnLeaderPassed { new_leader: PlayerId },
    /// The game ended.
    GameOver { winner: PlayerId },
}

/// Abstract value of an [`Event`].
pub enum EventView {
    DealSubmitted { player: PlayerId },
    CardRevealed { seller: PlayerId, card: CardId },
    BuyerPeeked { target_seller: PlayerId, card: CardId },
    ThingamabobPlayed { player: PlayerId, card: CardId, kind: ThingamabobKind },
    ThingamabobWindowClosed,
    DealChosen { buyer: PlayerId, seller: PlayerId },
    DealResponded { active: PlayerId, reverse: bool },
    CardsAwarded { player: PlayerId, cards: Seq<CardId> },
    CardsDiscarded { cards: Seq<CardId> },
    NastySetTradedIn { player: PlayerId, kind: NastyKind },
    PointTokenStolen { from: PlayerId, to: PlayerId, amount: u32 },
    CardsStolen { from: PlayerId, to: PlayerId, cards: Seq<CardId> },
    CreatureSetTradedIn { player: PlayerId, tier: Tier, tokens_gained: u32 },
    HandRefilled { player: PlayerId, drawn: usize },
    DrawPileReshuffledFromDiscard,
    TurnLeaderPassed { new_leader: PlayerId },
    GameOver { winner: PlayerId },
}

impl View for Event {
    type V = EventView;

    open spec fn view(&self) -> EventView {
        match self {
            Event::DealSubmitted { player } => EventView::DealSubmitted { player: *player },
            Event::CardRevealed { seller, card } => EventView::CardRevealed { seller: *seller, card: *card },
            Event::BuyerPeeked { target_seller, card } => EventView::BuyerPeeked {
                target_seller: *target_seller,
                card: *card,
            },
            Event::ThingamabobPlayed { player, card, kind } => EventView::ThingamabobPlayed {
                player: *player,
                card: *card,
                kind: *kind,
            },
            Event::ThingamabobWindowClosed => EventView::ThingamabobWindowClosed,
            Event::DealChosen { buyer, seller } => EventView::DealChosen { buyer: *buyer, seller: *seller },
            Event::DealResponded { active, reverse } => EventView::DealResponded {
                active: *active,
                reverse: *reverse,
            },
            Event::CardsAwarded { player, cards } => EventView::CardsAwarded { player: *player, cards: cards@ },
            Event::CardsDiscarded { cards } => EventView::CardsDiscarded { cards: cards@ },
            Event::NastySetTradedIn { player, kind } => EventView::NastySetTradedIn {
                player: *player,
                kind: *kind,
            },
            Event::PointTokenStolen { from, to, amount } => EventView::PointTokenStolen {
                from: *from,
                to: *to,
                amount: *amount,
            },
            Event::CardsStolen { from, to, cards } => EventView::CardsStolen {
                from: *from,
                to: *to,
                cards: cards@,
            },
            Event::CreatureSetTradedIn { player, tier, tokens_gained } => EventView::CreatureSetTradedIn {
                player: *player,
                tier: *tier,
                tokens_gained: *tokens_gained,
            },
            Event::HandRefilled { player, drawn } => EventView::HandRefilled { player: *player, drawn: *drawn },
            Event::DrawPileReshuffledFromDiscard => EventView::DrawPileReshuffledFromDiscard,
            Event::TurnLeaderPassed { new_leader } => EventView::TurnLeaderPassed { new_leader: *new_leader },
            Event::GameOver { winner } => EventView::GameOver { winner: *winner },
        }
    }
}

/// Abstract values of a list of events.
pub open spec fn events_view(events: Seq<Event>) -> Seq<EventView> {
    events.map_values(|e: Event| e@)
}

/// Everything that can go wrong applying an action.
#[derive(Debug, Clone, PartialEq, Eq)]
pub enum RulesError {
    /// Someone other than the active player tried to act.
    NotActivePlayer(PlayerId),
    /// The action doesn't match what the current phase expects; carries the
    /// phase's name.
    WrongPhaseAction(&'static str),
    /// The card isn't in the acting player's hand.
    CardNotInHand(CardId),
    /// The card isn't in the acting player's collection.
    CardNotInCollection(CardId),
    /// A submitted deal wasn't exactly three distinct cards.
    DealMustBeThreeDistinctCards,
    /// The card being revealed isn't part of the deal.
    RevealCardNotInDeal,
    /// The named seller has no active deal.
    NoSuchDeal(PlayerId),
    /// The card isn't a still-hidden card in that deal.
    CardNotHiddenInDeal(CardId),
    /// The card isn't a thingamabob.
    NotAThingamabob(CardId),
    /// The thingamabob params don't match this card's effect.
    InvalidThingamabobParams,
    /// Platonic Isolator's target doesn't currently have more point tokens.
    IsolatorTargetNotRicher,
    /// The removal targets exceed this card's max cards or deals.
    TooManyRemovals,
    /// The removal list named the same card twice.
    DuplicateRemovalTarget,
    /// The nasty penalty resolution asked for more cards than allowed.
    TooManyCardsTaken,
    /// The nasty penalty resolution named the same card twice.
    DuplicateCardTaken,
    /// The game has already ended.
    GameAlreadyOver,
}

/// A rules error as an abstract value; the phase name is kept as text.
pub enum RulesErrorView {
    NotActivePlayer(PlayerId),
    WrongPhaseAction(Seq<char>),
    CardNotInHand(CardId),
    CardNotInCollection(CardId),
    DealMustBeThreeDistinctCards,
    RevealCardNotInDeal,
    NoSuchDeal(PlayerId),
    CardNotHiddenInDeal(CardId),
    NotAThingamabob(CardId),
    InvalidThingamabobParams,
    IsolatorTargetNotRicher,
    TooManyRemovals,
    DuplicateRemovalTarget,
    TooManyCardsTaken,
    DuplicateCardTaken,
    GameAlreadyOver,
}

impl View for RulesError {
    type V = RulesErrorView;

    open spec fn view(&self) -> RulesErrorView {
        match self {
            RulesError::NotActivePlayer(p) => RulesErrorView::NotActivePlayer(*p),
            RulesError::WrongPhaseAction(s) => RulesErrorView::WrongPhaseAction(s@),
            RulesError::CardNotInHand(c) => RulesErrorView::CardNotInHand(*c),
            RulesError::CardNotInCollection(c) => RulesErrorView::CardNotInCollection(*c),
            RulesError::DealMustBeThreeDistinctCards => RulesErrorView::DealMustBeThreeDistinctCards,
            RulesError::RevealCardNotInDeal => RulesErrorView::RevealCardNotInDeal,
            RulesError::NoSuchDeal(p) => RulesErrorView::NoSuchDeal(*p),
            RulesError::CardNotHiddenInDeal(c) => RulesErrorView::CardNotHiddenInDeal(*c),
            RulesError::NotAThingamabob(c) => RulesErrorView::NotAThingamabob(*c),
            RulesError::InvalidThingamabobParams => RulesErrorView::InvalidThingamabobParams,
            RulesError::IsolatorTargetNotRicher => RulesErrorView::IsolatorTargetNotRicher,
            RulesError::TooManyRemovals => RulesErrorView::TooManyRemovals,
            RulesError::DuplicateRemovalTarget => RulesErrorView::DuplicateRemovalTarget,
            RulesError::TooManyCardsTaken => RulesErrorView::TooManyCardsTaken,
            RulesError::DuplicateCardTaken => RulesErrorView::DuplicateCardTaken,
            RulesError::GameAlreadyOver => RulesErrorView::GameAlreadyOver,
        }
    }
}

/// Everything that can go wrong pinning a live-tracked card's kind.
#[derive(Debug, Clone, Copy, PartialEq, Eq, Structural)]
pub enum PinError {
    /// The card id doesn't exist in this game.
    UnknownCard(CardId),
    /// The card was already pinned to a kind.
    AlreadyPinned(CardId),
    /// No cards of that kind remain unaccounted for in the deck.
    NoSupplyRemaining,
}

/// Everything that can go wrong setting up a new game.
#[derive(Debug, Clone, Copy, PartialEq, Eq, Structural)]
pub enum SetupError {
    /// `num_players` was outside the supported 2 to 6 range.
    InvalidPlayerCount(usize),
    /// The deck didn't have enough cards to deal starting hands.
    NotEnoughCardsToDeal {
        /// Cards actually in the deck.
        have: usize,
        /// Cards needed for starting hands.
        need: usize,
    },
    /// The requested starting leader seat doesn't exist at this table size.
    InvalidStartingLeader {
        /// The seat that was requested.
        given: PlayerId,
        /// The table size.
        num_players: usize,
    },
}

} // verus!
