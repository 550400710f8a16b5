//! The bid record: each player's declared bid and the current highest
//! bidder.  A bid of zero is a pass and changes nothing; any nonzero bid
//! overwrites the player's slot and unconditionally takes the lead — the
//! engine does not check that bids increase, that is the caller's business.

use vstd::prelude::*;
use crate::cards::{PlayerId, NB_PLAYERS};

verus! {

/// Mathematical image of a [`BidRecord`].
pub ghost struct BidRecordView {
    pub bids: Seq<u8>,
    pub winner: Option<PlayerId>,
}

impl BidRecordView {
    /// One bid slot per player, and a winner only among the players.
    pub open spec fn wf(self) -> bool {
        &&& self.bids.len() == NB_PLAYERS
        &&& (self.winner matches Some(p) ==> p < NB_PLAYERS)
    }

    /// The record after `player` declares `bid`: a pass (zero) is ignored;
    /// anything else fills the player's slot and makes them the winner.
    pub open spec fn spec_player_bid(self, player: PlayerId, bid: u8) -> BidRecordView {
        if bid == 0 {
            self
        } else {
            BidRecordView { bids: self.bids.update(player as int, bid), winner: Some(player) }
        }
    }

    /// The winning bid: the amount in the current winner's slot, if any.
    pub open spec fn spec_winning_bid(self) -> Option<u8> {
        match self.winner {
            Some(p) => Some(self.bids[p as int]),
            None => None,
        }
    }
}

/// Each player's bid (zero meaning no bid above pass) and the current
/// highest bidder.
#[derive(Clone, Debug)]
pub struct BidRecord {
    pub bids: Vec<u8>,
    pub winner: Option<PlayerId>,
}

impl View for BidRecord {
    type V = BidRecordView;

    open spec fn view(&self) -> BidRecordView {
        BidRecordView { bids: self.bids@, winner: self.winner }
    }
}

impl BidRecord {
    /// A record in which nobody has bid.
    pub fn new() -> (r: BidRecord)
        ensures
            r@.bids =~= seq![0u8, 0u8, 0u8, 0u8],
            r@.winner is None,
            r@.wf(),
    {
        let mut bids: Vec<u8> = Vec::new();
        bids.push(0);
        bids.push(0);
        bids.push(0);
        bids.push(0);
        proof {
            assert(bids@ =~= seq![0u8, 0u8, 0u8, 0u8]);
        }
        BidRecord { bids, winner: None }
    }
}

} // verus!
