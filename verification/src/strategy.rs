//! The strategy boundary: two capability interfaces that an external driver
//! invokes at the right points of the round.  The engine never calls them
//! itself, and a policy need only supply the two decision methods — the
//! lifecycle hooks default to doing nothing.

use vstd::prelude::*;
use crate::cards::Card;
use crate::game::Game;

verus! {

/// A bid-sizing policy.
pub trait BidStrategy {
    /// Called once when a round's hand has been dealt, before any bid.
    fn setup_bid_phase(&mut self, game: &Game) {
    }

    /// Chooses the observer's own bid; zero passes.
    fn make_bid(&mut self, game: &Game) -> u8;

    /// Called once when the bidding phase has ended.
    fn after_bid_phase(&mut self, game: &Game) {
    }
}

/// A card-choice policy.
pub trait PlayStrategy {
    /// Called before each trick starts.
    fn setup_trick(&mut self, game: &Game) {
    }

    /// Chooses the observer's own card to play.
    fn choose_card(&mut self, game: &Game) -> Card;

    /// Called after each trick has been resolved.
    fn after_trick(&mut self, game: &Game) {
    }
}

} // verus!
