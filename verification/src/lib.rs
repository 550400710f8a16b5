//! Rules engine for a four-player trick-taking card game played with a
//! 40-card deck (ranks Five through Ace).  The crate models cards and their
//! wire codes, hands and the follow-suit legality rule, trick resolution
//! under trump/follow precedence, round sequencing, bid recording, and a
//! tracker for the cards not yet seen by the observing player.

pub mod cards;
pub mod seqs;
pub mod hand;
pub mod trick;
pub mod round;
pub mod bids;
pub mod deck;
pub mod game;
pub mod protocol;
pub mod strategy;
