//! One player's view of one round: their hand, the round state, the bid
//! record, and the deck tracker, with the two event entry points
//! (`player_bid`, `card_played`) and the derived read-only queries.

use vstd::prelude::*;
use crate::bids::{BidRecord, BidRecordView};
use crate::cards::{copy_cards, Card, PlayerId, Suit, NB_PLAYERS};
use crate::deck::{spec_full_deck, Deck};
use crate::hand::{spec_playable, Hand};
use crate::round::{Round, RoundView};
use crate::trick::{OngoingTrick, TrickView};

verus! {

/// Mathematical image of a [`Game`].
pub ghost struct GameView {
    pub me: PlayerId,
    pub hand: Seq<Card>,
    pub bid_record: BidRecordView,
    pub round: RoundView,
    pub deck: Seq<Card>,
}

impl GameView {
    /// The shape every reachable game has: a real player as observer, and
    /// well-formed parts.
    pub open spec fn wf(self) -> bool {
        &&& self.me < NB_PLAYERS
        &&& self.bid_record.wf()
        &&& self.round.wf()
        &&& self.deck.no_duplicates()
    }
}

/// The root aggregate for one player's perspective of one round.
#[derive(Clone, Debug)]
pub struct Game {
    pub me: PlayerId,
    pub hand: Hand,
    pub bid_record: BidRecord,
    pub round: Round,
    pub deck: Deck,
}

impl View for Game {
    type V = GameView;

    open spec fn view(&self) -> GameView {
        GameView {
            me: self.me,
            hand: self.hand@,
            bid_record: self.bid_record@,
            round: self.round@,
            deck: self.deck@,
        }
    }
}

impl Game {
    /// A fresh round seen by player `me` holding `hand`: no bids, no plays,
    /// and the deck tracker starting at the full deck.
    pub fn new(me: PlayerId, hand: Hand) -> (r: Game)
        requires
            me < NB_PLAYERS,
        ensures
            r@.me == me,
            r@.hand == hand@,
            r@.bid_record.bids =~= seq![0u8, 0u8, 0u8, 0u8],
            r@.bid_record.winner is None,
            r@.round.history == Seq::<TrickView>::empty(),
            r@.round.ongoing.cards == Seq::<(PlayerId, Card)>::empty(),
            r@.round.trump is None,
            r@.deck == spec_full_deck(),
            r@.wf(),
    {
        Game {
            me,
            hand,
            bid_record: BidRecord::new(),
            round: Round::new(),
            deck: Deck::default(),
        }
    }

    /// The round's trump suit, if its first card has been played.
    pub fn trump(&self) -> (r: Option<Suit>)
        ensures
            r == self@.round.trump,
    {
        self.round.trump
    }

    /// The observer's partner, seated two places around the table.
    pub fn team_mate(&self) -> (r: PlayerId)
        requires
            self@.me < NB_PLAYERS,
        ensures
            r == (self@.me + 2) % (NB_PLAYERS as int),
    {
        (self.me + 2) % NB_PLAYERS
    }

    /// The current highest bid, if anyone has bid above pass.
    pub fn winning_bid(&self) -> (r: Option<u8>)
        requires
            self@.bid_record.wf(),
        ensures
            r == self@.bid_record.spec_winning_bid(),
    {
        match self.bid_record.winner {
            Some(p) => Some(self.bid_record.bids[p]),
            None => None,
        }
    }

    /// The player currently winning the ongoing trick, or `None` when no
    /// play is in yet.
    pub fn get_current_trick_winner(&self) -> (r: Option<PlayerId>)
        requires
            self@.round.wf(),
        ensures
            r is Some <==> self@.round.ongoing.cards.len() > 0,
            (r matches Some(p) ==> p == self@.round.ongoing.spec_winner()),
    {
        self.round.ongoing.get_current_trick_winner()
    }

    /// The trick being played now.
    pub fn get_current_trick(&self) -> (r: &OngoingTrick)
        ensures
            r@ == self@.round.ongoing,
    {
        &self.round.ongoing
    }

    /// The cards the observer may legally play onto the ongoing trick.
    pub fn playable_cards(&self) -> (r: Vec<Card>)
        requires
            self@.round.wf(),
        ensures
            r@ == spec_playable(self@.hand, self@.round.ongoing),
    {
        self.hand.playable_cards(&self.round.ongoing)
    }

    /// The deck tracker with the observer's own cards excluded.
    pub fn deck_witout_hand(&self) -> (r: Deck)
        requires
            self@.wf(),
        ensures
            r@ == self@.deck.filter(|c: Card| !self@.hand.contains(c)),
            r.wf(),
    {
        let mut deck = Deck::new(copy_cards(&self.deck.cards));
        deck.remove_hand(&self.hand);
        deck
    }

    /// Records one bid event: a pass (zero) changes nothing; any other bid
    /// fills the player's slot and takes the lead unconditionally.
    pub fn player_bid(&mut self, player: PlayerId, bid: u8)
        requires
            old(self)@.wf(),
            player < NB_PLAYERS,
        ensures
            final(self)@ == (GameView {
                bid_record: old(self)@.bid_record.spec_player_bid(player, bid),
                ..old(self)@
            }),
            final(self)@.wf(),
    {
        if bid != 0 {
            self.bid_record.winner = Some(player);
            self.bid_record.bids[player] = bid;
            proof {
                assert(self@.bid_record.bids =~= old(self)@.bid_record.bids.update(
                    player as int,
                    bid,
                ));
            }
        }
    }

    /// Takes a card out of the observer's hand without advancing the round.
    /// A driver that reports every play, the observer's included, through
    /// `card_played` does not need it.
    pub fn play_card(&mut self, card: Card)
        ensures
            final(self)@ == (GameView {
                hand: old(self)@.hand.filter(|c: Card| c != card),
                ..old(self)@
            }),
    {
        self.hand.remove_card(card);
    }

    /// Records one play event: the card leaves the observer's hand if it was
    /// there, the round advances by that play, and the card leaves the deck
    /// tracker.
    pub fn card_played(&mut self, player: PlayerId, card: Card)
        requires
            old(self)@.wf(),
        ensures
            final(self)@.me == old(self)@.me,
            final(self)@.bid_record == old(self)@.bid_record,
            final(self)@.hand == old(self)@.hand.filter(|c: Card| c != card),
            final(self)@.round == old(self)@.round.spec_play_card(player, card),
            final(self)@.deck == old(self)@.deck.filter(|c: Card| c != card),
            final(self)@.wf(),
    {
        self.hand.remove_card(card);
        self.round.play_card(player, card);
        self.deck.card_played(card);
    }
}

} // verus!
