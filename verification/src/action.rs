//! The action space. Actions only carry ids and indices, never full card
//! data, so they stay compact.

use vstd::prelude::*;
use crate::card::{CardId, PlayerId};

verus! {

/// Targeting parameters for a thingamabob play, one variant per card that
/// needs extra information beyond the card id itself.
#[derive(Debug, Clone, PartialEq, Eq)]
pub enum ThingamabobParams {
    /// Platonic Isolator: the target must currently hold strictly more
    /// point tokens than the acting player.
    PlatonicIsolator {
        /// Player being targeted.
        target_player: PlayerId,
    },
    /// Shared by Detrital Repositioner and Super Detrital Repositioner; the
    /// removal limits come from the card's catalog effect.
    RemoveFromDeals {
        /// Deal-card pairs to remove, one per removal.
        removals: Vec<(PlayerId, CardId)>,
    },
    /// Cryptozootic Expander.
    CryptozooticExpander {
        /// Card taken from the player's hand.
        hand_card: CardId,
        /// Deal the hand card is added to.
        target_deal: PlayerId,
    },
    /// Spectroelectric Optimeter.
    SpectroelectricOptimeter {
        /// Deal holding the card.
        target_deal: PlayerId,
        /// Hidden card being revealed.
        target_card: CardId,
    },
}

/// A single complete move a player can make.
#[derive(Debug, Clone, PartialEq, Eq)]
pub enum Action {
    /// Buyer mode: a seller's deal-offer micro-turn.
    SubmitDeal {
        /// The three cards offered.
        cards: [CardId; 3],
    },
    /// Two-player mode: the active player splits exactly three of their own
    /// hand cards between `own_pile` (theirs again on accept) and
    /// `other_pile` (the opponent's on accept).
    TwoPlayerSubmitDeal {
        /// Cards that stay with the active player if accepted.
        own_pile: Vec<CardId>,
        /// Cards that go to the opponent if accepted.
        other_pile: Vec<CardId>,
    },
    /// Flipping one of the just-submitted cards face up.
    RevealCard {
        /// Card being revealed.
        card: CardId,
    },
    /// Buyer mode: the buyer's extra peek; which hidden card flips is
    /// decided by the game's random source.
    BuyerPeek {
        /// Seller being peeked at.
        target_seller: PlayerId,
    },
    /// Playing a thingamabob from the collection.
    PlayThingamabob {
        /// Card being played.
        card: CardId,
        /// Targeting info specific to the card played.
        params: ThingamabobParams,
    },
    /// Declining to play a thingamabob during the response window.
    PassThingamabobWindow,
    /// Buyer mode: the buyer's final commit.
    ChooseDeal {
        /// Seller whose deal is chosen.
        seller: PlayerId,
    },
    /// Two-player mode: the responder's accept or reverse decision.
    RespondToDeal {
        /// True to reverse the deal instead of accepting it.
        reverse: bool,
    },
    /// The beneficiary's choice of which card(s) to take for a Poison Pill
    /// Bug or Loan Shark trade-in.
    ResolveNastyPenalty {
        /// Cards taken from the target's collection.
        taken_cards: Vec<CardId>,
    },
}

} // verus!

verus! {

/// Abstract value of [`ThingamabobParams`].
pub enum ParamsView {
    PlatonicIsolator { target_player: PlayerId },
    RemoveFromDeals { removals: Seq<(PlayerId, CardId)> },
    CryptozooticExpander { hand_card: CardId, target_deal: PlayerId },
    SpectroelectricOptimeter { target_deal: PlayerId, target_card: CardId },
}

impl View for ThingamabobParams {
    type V = ParamsView;

    open spec fn view(&self) -> ParamsView {
        match self {
            ThingamabobParams::PlatonicIsolator { target_player } => ParamsView::PlatonicIsolator {
                target_player: *target_player,
            },
            ThingamabobParams::RemoveFromDeals { removals } => ParamsView::RemoveFromDeals { removals: removals@ },
            ThingamabobParams::CryptozooticExpander { hand_card, target_deal } => ParamsView::CryptozooticExpander {
                hand_card: *hand_card,
                target_deal: *target_deal,
            },
            ThingamabobParams::SpectroelectricOptimeter { target_deal, target_card } => ParamsView::SpectroelectricOptimeter {
                target_deal: *target_deal,
                target_card: *target_card,
            },
        }
    }
}

/// Abstract value of an [`Action`].
pub enum ActionView {
    SubmitDeal { cards: Seq<CardId> },
    TwoPlayerSubmitDeal { own_pile: Seq<CardId>, other_pile: Seq<CardId> },
    RevealCard { card: CardId },
    BuyerPeek { target_seller: PlayerId },
    PlayThingamabob { card: CardId, params: ParamsView },
    PassThingamabobWindow,
    ChooseDeal { seller: PlayerId },
    RespondToDeal { reverse: bool },
    ResolveNastyPenalty { taken_cards: Seq<CardId> },
}

impl View for Action {
    type V = ActionView;

    open spec fn view(&self) -> ActionView {
        match self {
            Action::SubmitDeal { cards } => ActionView::SubmitDeal { cards: cards@ },
            Action::TwoPlayerSubmitDeal { own_pile, other_pile } => ActionView::TwoPlayerSubmitDeal {
                own_pile: own_pile@,
                other_pile: other_pile@,
            },
            Action::RevealCard { card } => ActionView::RevealCard { card: *card },
            Action::BuyerPeek { target_seller } => ActionView::BuyerPeek { target_seller: *target_seller },
            Action::PlayThingamabob { card, params } => ActionView::PlayThingamabob { card: *card, params: params@ },
            Action::PassThingamabobWindow => ActionView::PassThingamabobWindow,
            Action::ChooseDeal { seller } => ActionView::ChooseDeal { seller: *seller },
            Action::RespondToDeal { reverse } => ActionView::RespondToDeal { reverse: *reverse },
            Action::ResolveNastyPenalty { taken_cards } => ActionView::ResolveNastyPenalty { taken_cards: taken_cards@ },
        }
    }
}

} // verus!
