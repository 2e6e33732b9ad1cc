//! A blackjack table: cards, hands and their scoring, a shoe of several decks,
//! and the round state machine that a host drives once per frame.
pub mod cards;
pub mod hand;
pub mod shoe;
pub mod model;
pub mod game;
pub mod session;

use vstd::prelude::*;

verus! {

/// What outlives one game: the player's bankroll.
#[derive(Copy, Clone, Debug, PartialEq, Eq, Structural)]
pub struct PlayerState {
    pub bank: u32,
}

} // verus!
