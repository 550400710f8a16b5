//! One round of play: the chronological history of resolved tricks, the
//! trick in progress, and the round's trump suit, fixed by the first card
//! of the round.

use vstd::prelude::*;
use crate::cards::{Card, PlayerId, Suit, NB_PLAYERS};
use crate::trick::{OngoingTrick, OngoingTrickView, Trick, TrickView};

verus! {

/// Mathematical image of a [`Round`].
pub ghost struct RoundView {
    pub history: Seq<TrickView>,
    pub ongoing: OngoingTrickView,
    pub trump: Option<Suit>,
}

impl RoundView {
    /// The shape every reachable round has: a well-formed ongoing trick that
    /// is never left full, a trump suit agreeing with the ongoing trick's,
    /// and only complete tricks in the history.
    pub open spec fn wf(self) -> bool {
        &&& self.ongoing.wf()
        &&& self.ongoing.cards.len() < NB_PLAYERS
        &&& self.trump == self.ongoing.trump
        &&& forall|i: int| 0 <= i < self.history.len() ==> (#[trigger] self.history[i]).wf()
    }

    /// The round after one play: the first play of the round fixes the
    /// trump; the play lands on the ongoing trick; a trick that becomes
    /// full is resolved into the history and the ongoing trick clears,
    /// keeping the trump.
    pub open spec fn spec_play_card(self, player: PlayerId, card: Card) -> RoundView {
        let trump = if self.trump is None {
            Some(card.suit)
        } else {
            self.trump
        };
        let pushed = self.ongoing.spec_push(player, card);
        if pushed.cards.len() == NB_PLAYERS {
            RoundView {
                history: self.history.push(
                    TrickView { cards: pushed.cards, winner: pushed.spec_winner() },
                ),
                ongoing: pushed.spec_clear(),
                trump,
            }
        } else {
            RoundView { history: self.history, ongoing: pushed, trump }
        }
    }
}

/// The state of one round: resolved tricks oldest first, the trick being
/// played, and the trump suit once the round's first card has fixed it.
#[derive(Clone, Debug)]
pub struct Round {
    pub history: Vec<Trick>,
    pub ongoing: OngoingTrick,
    pub trump: Option<Suit>,
}

impl View for Round {
    type V = RoundView;

    open spec fn view(&self) -> RoundView {
        RoundView {
            history: self.history@.map_values(|t: Trick| t@),
            ongoing: self.ongoing@,
            trump: self.trump,
        }
    }
}

impl Round {
    /// A round in which nothing has happened yet.
    pub fn new() -> (r: Round)
        ensures
            r@.history == Seq::<TrickView>::empty(),
            r@.ongoing.cards == Seq::<(PlayerId, Card)>::empty(),
            r@.ongoing.follow is None,
            r@.trump is None,
            r@.wf(),
    {
        let r = Round { history: Vec::new(), ongoing: OngoingTrick::new(), trump: None };
        proof {
            assert(r@.history =~= Seq::<TrickView>::empty());
        }
        r
    }

    /// Applies one play, the round's only mutator: fixes the trump on the
    /// round's first card, and resolves the trick when it becomes full.
    pub fn play_card(&mut self, player: PlayerId, card: Card)
        requires
            old(self)@.wf(),
        ensures
            final(self)@ == old(self)@.spec_play_card(player, card),
            final(self)@.wf(),
    {
        if self.trump.is_none() {
            self.trump = Some(card.suit);
        }
        self.ongoing.push(player, card);
        if self.ongoing.is_full() {
            let resolved = self.ongoing.to_trick();
            self.history.push(resolved);
            self.ongoing.clear();
        }
        proof {
            let target = old(self)@.spec_play_card(player, card);
            assert(self@.history =~= target.history);
        }
    }
}

/// Round-sequencing law: four plays on a round whose ongoing trick is empty
/// resolve exactly one trick into the history, leave the ongoing trick
/// empty with the follow suit unset and the trump suit still set, and a
/// fifth play starts the next trick with that play alone.
pub proof fn lemma_four_plays_resolve_one_trick(
    r0: RoundView,
    plays: Seq<(PlayerId, Card)>,
    next: (PlayerId, Card),
)
    requires
        r0.wf(),
        r0.ongoing.cards.len() == 0,
        plays.len() == NB_PLAYERS,
    ensures
        ({
            let r4 = r0.spec_play_card(plays[0].0, plays[0].1).spec_play_card(
                plays[1].0,
                plays[1].1,
            ).spec_play_card(plays[2].0, plays[2].1).spec_play_card(plays[3].0, plays[3].1);
            &&& r4.history.len() == r0.history.len() + 1
            &&& r4.history.last().cards == plays
            &&& r4.ongoing.cards.len() == 0
            &&& r4.ongoing.follow is None
            &&& r4.trump == (if r0.trump is None {
                Some(plays[0].1.suit)
            } else {
                r0.trump
            })
            &&& r4.spec_play_card(next.0, next.1).ongoing.cards == seq![next]
            &&& r4.spec_play_card(next.0, next.1).history == r4.history
        }),
{
    let r1 = r0.spec_play_card(plays[0].0, plays[0].1);
    let r2 = r1.spec_play_card(plays[1].0, plays[1].1);
    let r3 = r2.spec_play_card(plays[2].0, plays[2].1);
    let r4 = r3.spec_play_card(plays[3].0, plays[3].1);
    assert(r3.ongoing.cards =~= plays.subrange(0, 3));
    assert(r3.ongoing.cards.push(plays[3]) =~= plays);
    assert(r4.history.last().cards == plays);
    let r5 = r4.spec_play_card(next.0, next.1);
    assert(r5.ongoing.cards =~= seq![next]);
}

} // verus!
