//! The trick engine: the in-progress trick, the precedence rule that picks
//! a trick's winner, and the resolved, immutable trick with its point count.

use vstd::prelude::*;
use crate::cards::{Card, PlayerId, Rank, Suit, NB_PLAYERS, NB_RANKS};

verus! {

/// Mathematical image of an [`OngoingTrick`].
pub ghost struct OngoingTrickView {
    pub cards: Seq<(PlayerId, Card)>,
    pub follow: Option<Suit>,
    pub trump: Option<Suit>,
}

/// Precedence score of a card within a trick.  Trump cards form the top
/// tier, follow-suit cards the next, and every other card sits in the tier
/// given by the static suit order; within a tier the rank decides.
pub open spec fn spec_card_power(c: Card, trump: Suit, follow: Suit) -> int {
    let tier = if c.suit == trump {
        5
    } else if c.suit == follow {
        4
    } else {
        c.suit.spec_order()
    };
    tier * (NB_RANKS as int) + c.rank.spec_order()
}

/// Index of the winning play among `cards`: the last play whose precedence
/// score is maximal.  (Two plays tie only if they show the very same card.)
pub open spec fn spec_winner_index(cards: Seq<(PlayerId, Card)>, trump: Suit, follow: Suit) -> int
    decreases cards.len(),
{
    if cards.len() <= 1 {
        0
    } else {
        let b = spec_winner_index(cards.drop_last(), trump, follow);
        if spec_card_power(cards.last().1, trump, follow) >= spec_card_power(
            cards[b].1,
            trump,
            follow,
        ) {
            cards.len() - 1
        } else {
            b
        }
    }
}

/// Computes [`spec_card_power`].
pub fn card_power(c: &Card, trump: Suit, follow: Suit) -> (r: usize)
    ensures
        r == spec_card_power(*c, trump, follow),
{
    let tier: usize = if c.suit == trump {
        5
    } else if c.suit == follow {
        4
    } else {
        c.suit.order()
    };
    tier * NB_RANKS + c.rank.order()
}

/// The winning play's score is maximal, and no later play matches it.
pub proof fn lemma_winner_index(cards: Seq<(PlayerId, Card)>, trump: Suit, follow: Suit)
    requires
        cards.len() > 0,
    ensures
        0 <= spec_winner_index(cards, trump, follow) < cards.len(),
        forall|j: int|
            0 <= j < cards.len() ==> spec_card_power(#[trigger] cards[j].1, trump, follow)
                <= spec_card_power(cards[spec_winner_index(cards, trump, follow)].1, trump, follow),
        forall|j: int|
            spec_winner_index(cards, trump, follow) < j < cards.len() ==> spec_card_power(
                #[trigger] cards[j].1,
                trump,
                follow,
            ) < spec_card_power(cards[spec_winner_index(cards, trump, follow)].1, trump, follow),
    decreases cards.len(),
{
    if cards.len() > 1 {
        lemma_winner_index(cards.drop_last(), trump, follow);
        assert(forall|j: int| 0 <= j < cards.len() - 1 ==> cards.drop_last()[j] == cards[j]);
    }
}

/// The trick being played now: the plays so far in play order, the suit to
/// follow (fixed by the first play of the trick), and the round's trump suit
/// (fixed by the first play of the round and kept when the trick clears).
#[derive(Clone, Debug)]
pub struct OngoingTrick {
    pub cards: Vec<(PlayerId, Card)>,
    pub follow: Option<Suit>,
    pub trump: Option<Suit>,
}

impl View for OngoingTrick {
    type V = OngoingTrickView;

    open spec fn view(&self) -> OngoingTrickView {
        OngoingTrickView { cards: self.cards@, follow: self.follow, trump: self.trump }
    }
}

impl OngoingTrickView {
    /// The shape every reachable ongoing trick has: at most four plays, and
    /// once a play is in, the follow suit is that of the first play and the
    /// trump suit is recorded.
    pub open spec fn wf(self) -> bool {
        &&& self.cards.len() <= NB_PLAYERS
        &&& (self.cards.len() == 0 <==> self.follow is None)
        &&& (self.cards.len() > 0 ==> self.follow == Some(self.cards[0].1.suit) && self.trump
            is Some)
    }

    /// The trick after one play is appended.
    pub open spec fn spec_push(self, player: PlayerId, card: Card) -> OngoingTrickView {
        OngoingTrickView {
            cards: self.cards.push((player, card)),
            follow: if self.follow is None {
                Some(card.suit)
            } else {
                self.follow
            },
            trump: if self.trump is None {
                Some(card.suit)
            } else {
                self.trump
            },
        }
    }

    /// The trick after it is cleared: no plays, follow unset, trump kept.
    pub open spec fn spec_clear(self) -> OngoingTrickView {
        OngoingTrickView { cards: Seq::empty(), follow: None, trump: self.trump }
    }

    /// The winner once at least one play is in: the player of the play at
    /// [`spec_winner_index`].
    pub open spec fn spec_winner(self) -> PlayerId {
        self.cards[spec_winner_index(self.cards, self.trump->0, self.follow->0)].0
    }
}

impl OngoingTrick {
    /// An ongoing trick with no plays and neither suit fixed yet.
    pub fn new() -> (r: OngoingTrick)
        ensures
            r@ == (OngoingTrickView { cards: Seq::<(PlayerId, Card)>::empty(), follow: None, trump: None }),
            r@.wf(),
    {
        let r = OngoingTrick { cards: Vec::new(), follow: None, trump: None };
        proof {
            assert(r@.cards =~= Seq::<(PlayerId, Card)>::empty());
        }
        r
    }

    /// Appends a play.  The first play of the trick fixes the follow suit;
    /// the first play of the round fixes the trump suit.
    pub fn push(&mut self, player: PlayerId, card: Card)
        requires
            old(self)@.wf(),
            old(self)@.cards.len() < NB_PLAYERS,
        ensures
            final(self)@ == old(self)@.spec_push(player, card),
            final(self)@.wf(),
    {
        if self.trump.is_none() {
            self.trump = Some(card.suit);
        }
        if self.follow.is_none() {
            self.follow = Some(card.suit);
        }
        self.cards.push((player, card));
    }

    /// Whether one play per player is in.
    pub fn is_full(&self) -> (r: bool)
        ensures
            r == (self@.cards.len() == NB_PLAYERS),
    {
        self.cards.len() == NB_PLAYERS
    }

    /// Empties the play list and unsets the follow suit; the trump suit is
    /// round-scoped and survives.
    pub fn clear(&mut self)
        ensures
            final(self)@ == old(self)@.spec_clear(),
            final(self)@.wf(),
    {
        self.cards.clear();
        self.follow = None;
        proof {
            assert(self@.cards =~= Seq::<(PlayerId, Card)>::empty());
        }
    }

    /// Whether no play is in yet.
    pub fn is_empty(&self) -> (r: bool)
        ensures
            r == (self@.cards.len() == 0),
    {
        self.cards.len() == 0
    }

    /// The player currently winning the trick, or `None` when no play is in.
    pub fn get_current_trick_winner(&self) -> (r: Option<PlayerId>)
        requires
            self@.wf(),
        ensures
            r is Some <==> self@.cards.len() > 0,
            (r matches Some(p) ==> p == self@.spec_winner()),
    {
        if self.cards.len() == 0 {
            return None;
        }
        let follow = self.follow.unwrap();
        let trump = self.trump.unwrap();
        let mut best: usize = 0;
        let mut best_power = card_power(&self.cards[0].1, trump, follow);
        let mut i: usize = 1;
        while i < self.cards.len()
            invariant
                1 <= i <= self@.cards.len(),
                best < i,
                self@.wf(),
                self@.cards.len() > 0,
                Some(trump) == self@.trump,
                Some(follow) == self@.follow,
                best == spec_winner_index(self@.cards.subrange(0, i as int), trump, follow),
                best_power == spec_card_power(self@.cards[best as int].1, trump, follow),
            decreases self@.cards.len() - i,
        {
            let p = card_power(&self.cards[i].1, trump, follow);
            proof {
                let pre = self@.cards.subrange(0, i as int);
                let cur = self@.cards.subrange(0, i + 1 as int);
                assert(cur.drop_last() =~= pre);
                assert(cur.last() == self@.cards[i as int]);
                lemma_winner_index(pre, trump, follow);
                assert(forall|j: int| 0 <= j < pre.len() ==> pre[j] == cur[j]);
            }
            if p >= best_power {
                best = i;
                best_power = p;
            }
            i += 1;
        }
        proof {
            assert(self@.cards.subrange(0, self@.cards.len() as int) =~= self@.cards);
        }
        Some(self.cards[best].0)
    }

    /// Freezes a full trick into its resolved, immutable form, winner
    /// computed.  Calling this on a trick that is not full is a caller
    /// error, which the precondition rules out.
    pub fn to_trick(&self) -> (r: Trick)
        requires
            self@.wf(),
            self@.cards.len() == NB_PLAYERS,
        ensures
            r@ == (TrickView { cards: self@.cards, winner: self@.spec_winner() }),
            r@.wf(),
    {
        let winner = match self.get_current_trick_winner() {
            Some(p) => p,
            None => unreached(),
        };
        let mut cards: Vec<(PlayerId, Card)> = Vec::new();
        let mut i: usize = 0;
        while i < self.cards.len()
            invariant
                i <= self@.cards.len(),
                cards@ == self@.cards.subrange(0, i as int),
            decreases self@.cards.len() - i,
        {
            let (p, c) = self.cards[i];
            cards.push((p, c));
            proof {
                assert(cards@ =~= self@.cards.subrange(0, i + 1 as int));
            }
            i += 1;
        }
        proof {
            assert(cards@ =~= self@.cards);
        }
        Trick { cards, winner }
    }
}

/// Mathematical image of a resolved [`Trick`].
pub ghost struct TrickView {
    pub cards: Seq<(PlayerId, Card)>,
    pub winner: PlayerId,
}

impl TrickView {
    /// A resolved trick always holds one play per player.
    pub open spec fn wf(self) -> bool {
        self.cards.len() == NB_PLAYERS
    }
}

/// A resolved trick: exactly one play per player, plus the winning player,
/// computed when the trick was frozen.  Not mutated afterwards.
#[derive(Clone, Debug)]
pub struct Trick {
    pub cards: Vec<(PlayerId, Card)>,
    pub winner: PlayerId,
}

impl View for Trick {
    type V = TrickView;

    open spec fn view(&self) -> TrickView {
        TrickView { cards: self.cards@, winner: self.winner }
    }
}

/// Points a single card is worth: ten for an Ace or a Ten, five for a Five,
/// nothing otherwise, trump or not.
pub open spec fn spec_card_points(r: Rank) -> int {
    match r {
        Rank::Ace => 10,
        Rank::Ten => 10,
        Rank::Five => 5,
        _ => 0,
    }
}

/// Total points of a sequence of plays.
pub open spec fn spec_trick_points(cards: Seq<(PlayerId, Card)>) -> int
    decreases cards.len(),
{
    if cards.len() == 0 {
        0
    } else {
        spec_trick_points(cards.drop_last()) + spec_card_points(cards.last().1.rank)
    }
}

impl Trick {
    pub fn new(cards: Vec<(PlayerId, Card)>, winner: PlayerId) -> (r: Trick)
        requires
            cards@.len() == NB_PLAYERS,
        ensures
            r@ == (TrickView { cards: cards@, winner }),
            r@.wf(),
    {
        Trick { cards, winner }
    }

    /// Sums the point values of the four plays.
    pub fn get_nb_points(&self) -> (r: usize)
        requires
            self@.wf(),
        ensures
            r == spec_trick_points(self@.cards),
            r <= 40,
    {
        let mut total: usize = 0;
        let mut i: usize = 0;
        while i < self.cards.len()
            invariant
                i <= self@.cards.len(),
                self@.cards.len() == NB_PLAYERS,
                total == spec_trick_points(self@.cards.subrange(0, i as int)),
                total <= 10 * i,
            decreases self@.cards.len() - i,
        {
            proof {
                let cur = self@.cards.subrange(0, i + 1 as int);
                assert(cur.drop_last() =~= self@.cards.subrange(0, i as int));
                assert(cur.last() == self@.cards[i as int]);
            }
            let pts: usize = match self.cards[i].1.rank {
                Rank::Ace => 10,
                Rank::Ten => 10,
                Rank::Five => 5,
                _ => 0,
            };
            total = total + pts;
            i += 1;
        }
        proof {
            assert(self@.cards.subrange(0, self@.cards.len() as int) =~= self@.cards);
        }
        total
    }
}

} // verus!
