//! Turn phase state machine. One [`Phase`] value at a time lives in the
//! game state; the rules in `game` drive transitions.

use vstd::prelude::*;
use crate::card::{NastyKind, PlayerId};

verus! {

/// Where a buyer-mode deal offer is in its submit/reveal cycle.
#[derive(Debug, Clone, Copy, PartialEq, Eq, Structural)]
pub enum DealOfferStep {
    /// Waiting for the seller to submit three cards.
    AwaitingSubmit,
    /// Waiting for the seller to reveal one of those cards.
    AwaitingReveal,
}

/// One seller's slot in the buyer-mode deal-offer sequence.
#[derive(Debug, Clone, Copy, PartialEq, Eq, Structural)]
pub struct DealOfferEntry {
    /// The seller for this slot.
    pub player: PlayerId,
    /// Whether this seller still needs to reveal a card.
    pub needs_reveal: bool,
}

/// Buyer-mode only: the full sequence of sellers making offers.
#[derive(Debug, Clone)]
pub struct DealOfferState {
    /// One entry per seller in offer order.
    pub entries: Vec<DealOfferEntry>,
    /// Index of the seller currently acting.
    pub idx: usize,
    /// Whether that seller is submitting or revealing.
    pub step: DealOfferStep,
}

impl DealOfferState {
    /// The seller currently acting.
    pub fn current(&self) -> (r: &DealOfferEntry)
        requires
            self.idx < self.entries@.len(),
        ensures
            *r == self.entries@[self.idx as int],
    {
        &self.entries[self.idx]
    }

    /// Whether every seller has finished offering.
    pub fn is_done(&self) -> (r: bool)
        ensures
            r == (self.idx >= self.entries@.len()),
    {
        self.idx >= self.entries.len()
    }
}

/// Two-player mode's deal-offer micro-turn: the active player splits three
/// of their own hand cards between the two piles, then reveals one.
#[derive(Debug, Clone, Copy, PartialEq, Eq, Structural)]
pub enum TwoPlayerDealStep {
    /// Waiting for the active player to split their three cards.
    AwaitingSplit,
    /// Waiting for the active player to reveal one card.
    AwaitingReveal,
}

/// Two-player mode only: the split/reveal cycle of the active player's offer.
#[derive(Debug, Clone, Copy, PartialEq, Eq, Structural)]
pub struct TwoPlayerDealState {
    /// Which half of the cycle is in progress.
    pub step: TwoPlayerDealStep,
}

/// Whose turn it is to play a thingamabob during the response window.
#[derive(Debug, Clone)]
pub struct ThingamabobWindowState {
    /// Turn order for this window.
    pub order: Vec<PlayerId>,
    /// Index into `order` (modulo its length) of the player currently up.
    pub turn_idx: usize,
    /// How many players have passed in a row.
    pub consecutive_passes: usize,
}

impl ThingamabobWindowState {
    /// The player currently up in this window.
    pub fn current_player(&self) -> (r: PlayerId)
        requires
            self.order@.len() > 0,
        ensures
            r == self.order@[self.turn_idx as int % self.order@.len() as int],
    {
        self.order[self.turn_idx % self.order.len()]
    }
}

/// A nasty set trade-in whose effect still needs to be resolved.
#[derive(Debug, Clone, Copy, PartialEq, Eq, Structural)]
pub struct PendingNasty {
    /// Player who traded in the set.
    pub player: PlayerId,
    /// Which nasty kind was traded in.
    pub kind: NastyKind,
}

/// At most one pending resolution exists at a time; after it is resolved
/// the rules rescan from scratch for further completed sets.
#[derive(Debug, Clone, Copy, PartialEq, Eq, Structural)]
pub struct NastyResolutionState {
    /// The trade-in awaiting resolution.
    pub pending: PendingNasty,
}

/// One phase of a turn.
#[derive(Debug, Clone)]
pub enum Phase {
    /// Buyer-mode only.
    DealOffer(DealOfferState),
    /// Two-player mode only.
    TwoPlayerDealOffer(TwoPlayerDealState),
    /// Buyer-mode only.
    BuyerPeek,
    /// Players may play thingamabobs in response to the current deal.
    ThingamabobWindow(ThingamabobWindowState),
    /// Buyer-mode only.
    BuyerChoosesDeal,
    /// Two-player mode only.
    RespondToDeal,
    /// A completed nasty set is waiting to be resolved.
    NastyResolution(NastyResolutionState),
    /// The game has ended.
    GameOver {
        /// The winning player.
        winner: PlayerId,
    },
}

/// Stable string name of a phase.
pub open spec fn phase_name_spec(p: Phase) -> Seq<char> {
    match p {
        Phase::DealOffer(s) => if s.step == DealOfferStep::AwaitingSubmit {
            "deal_offer_submit"@
        } else {
            "deal_offer_reveal"@
        },
        Phase::TwoPlayerDealOffer(s) => if s.step == TwoPlayerDealStep::AwaitingSplit {
            "deal_offer_submit"@
        } else {
            "deal_offer_reveal"@
        },
        Phase::BuyerPeek => "buyer_peek"@,
        Phase::ThingamabobWindow(_) => "thingamabob_window"@,
        Phase::BuyerChoosesDeal => "buyer_chooses_deal"@,
        Phase::RespondToDeal => "respond_to_deal"@,
        Phase::NastyResolution(_) => "nasty_resolution"@,
        Phase::GameOver { .. } => "game_over"@,
    }
}

impl Phase {
    /// Stable string name for this phase, used for logging and encoding.
    pub fn name(&self) -> (r: &'static str)
        ensures
            r@ == phase_name_spec(*self),
    {
        match self {
            Phase::DealOffer(s) => {
                if s.step == DealOfferStep::AwaitingSubmit {
                    "deal_offer_submit"
                } else {
                    "deal_offer_reveal"
                }
            },
            Phase::TwoPlayerDealOffer(s) => {
                if s.step == TwoPlayerDealStep::AwaitingSplit {
                    "deal_offer_submit"
                } else {
                    "deal_offer_reveal"
                }
            },
            Phase::BuyerPeek => "buyer_peek",
            Phase::ThingamabobWindow(_) => "thingamabob_window",
            Phase::BuyerChoosesDeal => "buyer_chooses_deal",
            Phase::RespondToDeal => "respond_to_deal",
            Phase::NastyResolution(_) => "nasty_resolution",
            Phase::GameOver { .. } => "game_over",
        }
    }
}

} // verus!

verus! {

/// Abstract value of a [`Phase`].
pub enum PhaseView {
    DealOffer { entries: Seq<DealOfferEntry>, idx: usize, step: DealOfferStep },
    TwoPlayerDealOffer { step: TwoPlayerDealStep },
    BuyerPeek,
    ThingamabobWindow { order: Seq<PlayerId>, turn_idx: usize, consecutive_passes: usize },
    BuyerChoosesDeal,
    RespondToDeal,
    NastyResolution { pending: PendingNasty },
    GameOver { winner: PlayerId },
}

impl View for Phase {
    type V = PhaseView;

    open spec fn view(&self) -> PhaseView {
        match self {
            Phase::DealOffer(s) => PhaseView::DealOffer {
                entries: s.entries@,
                idx: s.idx,
                step: s.step,
            },
            Phase::TwoPlayerDealOffer(s) => PhaseView::TwoPlayerDealOffer { step: s.step },
            Phase::BuyerPeek => PhaseView::BuyerPeek,
            Phase::ThingamabobWindow(s) => PhaseView::ThingamabobWindow {
                order: s.order@,
                turn_idx: s.turn_idx,
                consecutive_passes: s.consecutive_passes,
            },
            Phase::BuyerChoosesDeal => PhaseView::BuyerChoosesDeal,
            Phase::RespondToDeal => PhaseView::RespondToDeal,
            Phase::NastyResolution(s) => PhaseView::NastyResolution { pending: s.pending },
            Phase::GameOver { winner } => PhaseView::GameOver { winner: *winner },
        }
    }
}

/// Stable string name of a phase, on its abstract value.
pub open spec fn phase_view_name(p: PhaseView) -> Seq<char> {
    match p {
        PhaseView::DealOffer { step, .. } => if step == DealOfferStep::AwaitingSubmit {
            "deal_offer_submit"@
        } else {
            "deal_offer_reveal"@
        },
        PhaseView::TwoPlayerDealOffer { step } => if step == TwoPlayerDealStep::AwaitingSplit {
            "deal_offer_submit"@
        } else {
            "deal_offer_reveal"@
        },
        PhaseView::BuyerPeek => "buyer_peek"@,
        PhaseView::ThingamabobWindow { .. } => "thingamabob_window"@,
        PhaseView::BuyerChoosesDeal => "buyer_chooses_deal"@,
        PhaseView::RespondToDeal => "respond_to_deal"@,
        PhaseView::NastyResolution { .. } => "nasty_resolution"@,
        PhaseView::GameOver { .. } => "game_over"@,
    }
}

/// The two phase names agree.
pub proof fn lemma_phase_name_view(p: Phase)
    ensures
        phase_name_spec(p) == phase_view_name(p@),
{
}

/// Slot of a phase in a one-hot phase block: one per phase name, in the
/// order deal offer (submit, reveal), peek, window, choice, response,
/// penalty, and the last slot for a finished game.
pub open spec fn phase_slot(p: PhaseView) -> usize {
    match p {
        PhaseView::DealOffer { step, .. } => if step == DealOfferStep::AwaitingSubmit { 0 } else { 1 },
        PhaseView::TwoPlayerDealOffer { step } => if step == TwoPlayerDealStep::AwaitingSplit { 0 } else { 1 },
        PhaseView::BuyerPeek => 2,
        PhaseView::ThingamabobWindow { .. } => 3,
        PhaseView::BuyerChoosesDeal => 4,
        PhaseView::RespondToDeal => 5,
        PhaseView::NastyResolution { .. } => 6,
        PhaseView::GameOver { .. } => 7,
    }
}

/// Stable slot for a phase in the one-hot phase block.
pub fn phase_index(phase: &Phase) -> (r: usize)
    ensures
        r == phase_slot(phase@),
        r < 8,
{
    match phase {
        Phase::DealOffer(s) => if s.step == DealOfferStep::AwaitingSubmit { 0 } else { 1 },
        Phase::TwoPlayerDealOffer(s) => if s.step == TwoPlayerDealStep::AwaitingSplit { 0 } else { 1 },
        Phase::BuyerPeek => 2,
        Phase::ThingamabobWindow(_) => 3,
        Phase::BuyerChoosesDeal => 4,
        Phase::RespondToDeal => 5,
        Phase::NastyResolution(_) => 6,
        Phase::GameOver { .. } => 7,
    }
}

} // verus!
