//! Rules engine for the card game Sell Me a Sasquatch: cards, deals,
//! players, the turn-phase state machine and the full rules, with no I/O.

/// Player actions.
pub mod action;
/// Card identity and the type catalog.
pub mod card;
/// String helpers.
pub mod text;
/// In-progress deal state.
pub mod deal;
/// Sequence helpers.
pub mod seqs;
/// Per-player state.
pub mod player;
/// Turn phase state machine.
pub mod phase;
/// Deck config and rules catalog.
pub mod deck;
/// Seedable random source.
pub mod rng;
/// Events and errors.
pub mod events;
/// Game statistics tracking.
pub mod stats;

/// Counting and enumerating subsets.
pub mod combinatorics;
/// Game state and rules.
pub mod game;
/// The rules as spec functions.
pub mod rules;
/// The end of a turn as spec functions.
pub mod turn_end;
/// Applying actions.
pub mod turn;
/// End-of-turn trade-ins, refill and win check.
pub mod trade;
/// Reading the game and live tracking.
pub mod access;
/// Legal-action enumeration.
pub mod legal;
/// Legal-action count ceiling.
pub mod bounds;
/// Where the cards are.
pub mod places;
/// What the legal actions are to the rules.
pub mod laws;
/// How many actions each phase offers, against the ceiling.
pub mod menus;
/// Counting class multisets.
pub mod counting;
/// What the legal-action menu and the effects must contain.
pub mod completeness;
