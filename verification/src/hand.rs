//! A player's hand: the cards held, the follow-suit legality rule, and
//! composition queries used by bidding and play decisions.

use vstd::prelude::*;
use crate::cards::{copy_cards, cards_contain, Card, Suit, NB_SUITS};
use crate::deck::{spec_is_master, Deck};
use crate::seqs::{lemma_filter_membership, lemma_filter_step};
use crate::trick::{OngoingTrick, OngoingTrickView};

verus! {

/// How many cards of suit `s` stand in `cards`.
pub open spec fn spec_count_suit(cards: Seq<Card>, s: Suit) -> int {
    cards.filter(|c: Card| c.suit == s).len() as int
}

/// The cards of `cards` that are legal to play onto a trick: every card
/// when no play is in yet; the cards of the follow suit when the hand holds
/// any (the must-follow rule); every card again when it holds none, so
/// trumping is enabled but never forced.
pub open spec fn spec_playable(cards: Seq<Card>, trick: OngoingTrickView) -> Seq<Card> {
    if trick.cards.len() == 0 {
        cards
    } else {
        let followed = cards.filter(|c: Card| c.suit == trick.follow->0);
        if followed.len() == 0 {
            cards
        } else {
            followed
        }
    }
}

/// The suits of which `cards` holds none, in static suit order.
pub open spec fn spec_empty_suits(cards: Seq<Card>) -> Seq<Suit> {
    seq![Suit::Clubs, Suit::Diamonds, Suit::Hearts, Suit::Spades].filter(
        |s: Suit| spec_count_suit(cards, s) == 0,
    )
}

/// The cards one player still holds.  It shrinks as cards are played and
/// never regrows within a round.
#[derive(Clone, Debug)]
pub struct Hand {
    pub cards: Vec<Card>,
}

impl View for Hand {
    type V = Seq<Card>;

    open spec fn view(&self) -> Seq<Card> {
        self.cards@
    }
}

impl Hand {
    pub fn new(cards: Vec<Card>) -> (r: Hand)
        ensures
            r@ == cards@,
    {
        Hand { cards }
    }

    /// The cards that may legally be played onto `ongoing_trick`, in hand
    /// order: all of them onto an empty trick or when the hand cannot
    /// follow suit, only the follow-suit cards otherwise.
    pub fn playable_cards(&self, ongoing_trick: &OngoingTrick) -> (r: Vec<Card>)
        requires
            ongoing_trick@.cards.len() > 0 ==> ongoing_trick@.follow is Some,
        ensures
            r@ == spec_playable(self@, ongoing_trick@),
            ongoing_trick@.cards.len() == 0 ==> r@ == self@,
            ongoing_trick@.cards.len() > 0 && spec_count_suit(self@, ongoing_trick@.follow->0)
                > 0 ==> r@ == self@.filter(|c: Card| c.suit == ongoing_trick@.follow->0),
            ongoing_trick@.cards.len() > 0 && spec_count_suit(self@, ongoing_trick@.follow->0)
                == 0 ==> r@ == self@,
    {
        if ongoing_trick.is_empty() {
            return copy_cards(&self.cards);
        }
        let follow = ongoing_trick.follow.unwrap();
        let mut followed: Vec<Card> = Vec::new();
        let mut i: usize = 0;
        while i < self.cards.len()
            invariant
                i <= self@.len(),
                followed@ == self@.subrange(0, i as int).filter(|c: Card| c.suit == follow),
            decreases self@.len() - i,
        {
            proof {
                lemma_filter_step(self@, |c: Card| c.suit == follow, i as int);
            }
            let c = self.cards[i];
            if c.suit == follow {
                followed.push(c);
            }
            i += 1;
        }
        proof {
            assert(self@.subrange(0, self@.len() as int) =~= self@);
        }
        if followed.len() == 0 {
            copy_cards(&self.cards)
        } else {
            followed
        }
    }

    /// Takes every copy of `card` out of the hand; a card not held leaves
    /// the hand unchanged.
    pub fn remove_card(&mut self, card: Card)
        ensures
            final(self)@ == old(self)@.filter(|c: Card| c != card),
    {
        let ghost cards0 = self@;
        let mut kept: Vec<Card> = Vec::new();
        let mut i: usize = 0;
        while i < self.cards.len()
            invariant
                i <= cards0.len(),
                self@ == cards0,
                kept@ == cards0.subrange(0, i as int).filter(|c: Card| c != card),
            decreases cards0.len() - i,
        {
            proof {
                lemma_filter_step(cards0, |c: Card| c != card, i as int);
            }
            let c = self.cards[i];
            if !(c == card) {
                kept.push(c);
            }
            i += 1;
        }
        proof {
            assert(cards0.subrange(0, cards0.len() as int) =~= cards0);
        }
        self.cards = kept;
    }

    /// Whether the hand holds at least one card of `suit`.
    pub fn has_suit(&self, suit: Suit) -> (r: bool)
        ensures
            r == (spec_count_suit(self@, suit) > 0),
            r == (exists|i: int| 0 <= i < self@.len() && self@[i].suit == suit),
    {
        proof {
            lemma_count_suit_positive(self@, suit);
        }
        let mut i: usize = 0;
        while i < self.cards.len()
            invariant
                i <= self@.len(),
                forall|j: int| 0 <= j < i ==> self@[j].suit != suit,
            decreases self@.len() - i,
        {
            if self.cards[i].suit == suit {
                proof {
                    lemma_count_suit_positive(self@, suit);
                    assert(self@[i as int].suit == suit);
                    assert(exists|j: int| 0 <= j < self@.len() && self@[j].suit == suit);
                }
                return true;
            }
            i += 1;
        }
        false
    }

    /// How many cards of each suit the hand holds, indexed by the static
    /// suit order.
    pub fn repartition(&self) -> (r: Vec<u8>)
        requires
            self@.len() <= 255,
        ensures
            r@.len() == NB_SUITS,
            forall|s: Suit| r@[s.spec_order()] == spec_count_suit(self@, s),
    {
        let mut r: Vec<u8> = Vec::new();
        r.push(0);
        r.push(0);
        r.push(0);
        r.push(0);
        let mut i: usize = 0;
        while i < self.cards.len()
            invariant
                i <= self@.len(),
                self@.len() <= 255,
                r@.len() == NB_SUITS,
                forall|s: Suit|
                    r@[s.spec_order()] == spec_count_suit(self@.subrange(0, i as int), s),
            decreases self@.len() - i,
        {
            proof {
                assert forall|s: Suit|
                    spec_count_suit(self@.subrange(0, i + 1 as int), s) == spec_count_suit(
                        self@.subrange(0, i as int),
                        s,
                    ) + (if self@[i as int].suit == s {
                        1int
                    } else {
                        0int
                    }) by {
                    lemma_filter_step(self@, |c: Card| c.suit == s, i as int);
                }
                assert forall|s: Suit| spec_count_suit(self@.subrange(0, i as int), s)
                    <= i by {
                    self@.subrange(0, i as int).lemma_filter_len(|c: Card| c.suit == s);
                }
            }
            let ghost cs = self@[i as int].suit;
            proof {
                assert(r@[cs.spec_order()] == spec_count_suit(self@.subrange(0, i as int), cs));
            }
            let ghost old_r = r@;
            let o = self.cards[i].suit.order();
            let prev = r[o];
            proof {
                assert(o as int == cs.spec_order());
                assert(prev == r@[cs.spec_order()]);
                assert(spec_count_suit(self@.subrange(0, i as int), cs) <= i);
                assert(prev < 255);
            }
            r[o] = prev + 1;
            proof {
                assert(r@ == old_r.update(cs.spec_order(), (prev + 1) as u8));
                assert forall|s: Suit|
                    r@[s.spec_order()] == spec_count_suit(self@.subrange(0, i + 1 as int), s) by {
                    assert(old_r[s.spec_order()] == spec_count_suit(self@.subrange(0, i as int), s));
                    if s == cs {
                        assert(r@[s.spec_order()] == prev + 1);
                    } else {
                        assert(s.spec_order() != cs.spec_order());
                        assert(r@[s.spec_order()] == old_r[s.spec_order()]);
                    }
                }
            }
            i += 1;
        }
        proof {
            assert(self@.subrange(0, self@.len() as int) =~= self@);
        }
        r
    }

    /// The suits of which the hand holds no card, in static suit order.
    pub fn empty_suits(&self) -> (r: Vec<Suit>)
        ensures
            r@ == spec_empty_suits(self@),
            forall|s: Suit| r@.contains(s) <==> spec_count_suit(self@, s) == 0,
    {
        let mut r: Vec<Suit> = Vec::new();
        if !self.has_suit(Suit::Clubs) {
            r.push(Suit::Clubs);
        }
        if !self.has_suit(Suit::Diamonds) {
            r.push(Suit::Diamonds);
        }
        if !self.has_suit(Suit::Hearts) {
            r.push(Suit::Hearts);
        }
        if !self.has_suit(Suit::Spades) {
            r.push(Suit::Spades);
        }
        proof {
            let pred = |s: Suit| spec_count_suit(self@, s) == 0;
            reveal_with_fuel(Seq::filter, 5);
            let all = seq![Suit::Clubs, Suit::Diamonds, Suit::Hearts, Suit::Spades];
            assert(all.drop_last() =~= seq![Suit::Clubs, Suit::Diamonds, Suit::Hearts]);
            assert(all.drop_last().drop_last() =~= seq![Suit::Clubs, Suit::Diamonds]);
            assert(all.drop_last().drop_last().drop_last() =~= seq![Suit::Clubs]);
            assert(all.drop_last().drop_last().drop_last().drop_last() =~= Seq::<Suit>::empty());
            assert(r@ =~= spec_empty_suits(self@));
            assert forall|s: Suit| r@.contains(s) <==> pred(s) by {
                lemma_filter_membership(all, pred, s);
                assert(all[s.spec_order()] == s);
            }
        }
        r
    }

    /// The held cards that are currently unbeatable: each equals the highest
    /// remaining card of its suit across `deck`.
    pub fn master_cards(&self, deck: &Deck) -> (r: Vec<Card>)
        ensures
            r@ == self@.filter(|c: Card| spec_is_master(deck@, c)),
    {
        let masters = deck.master_cards();
        let mut r: Vec<Card> = Vec::new();
        let mut i: usize = 0;
        while i < self.cards.len()
            invariant
                i <= self@.len(),
                forall|c: Card| masters@.contains(c) <==> spec_is_master(deck@, c),
                r@ == self@.subrange(0, i as int).filter(|c: Card| spec_is_master(deck@, c)),
            decreases self@.len() - i,
        {
            proof {
                lemma_filter_step(self@, |c: Card| spec_is_master(deck@, c), i as int);
            }
            let c = self.cards[i];
            if cards_contain(&masters, c) {
                r.push(c);
            }
            i += 1;
        }
        proof {
            assert(self@.subrange(0, self@.len() as int) =~= self@);
        }
        r
    }
}

/// A hand holds a card of suit `s` exactly when its count for `s` is
/// positive.
pub proof fn lemma_count_suit_positive(cards: Seq<Card>, s: Suit)
    ensures
        spec_count_suit(cards, s) > 0 <==> exists|i: int|
            0 <= i < cards.len() && cards[i].suit == s,
{
    let pred = |c: Card| c.suit == s;
    let f = cards.filter(pred);
    if f.len() > 0 {
        assert(f.contains(f[0]));
        lemma_filter_membership(cards, pred, f[0]);
        let i = choose|i: int| 0 <= i < cards.len() && cards[i] == f[0];
        assert(cards[i].suit == s);
    }
    if exists|i: int| 0 <= i < cards.len() && cards[i].suit == s {
        let i = choose|i: int| 0 <= i < cards.len() && cards[i].suit == s;
        lemma_filter_membership(cards, pred, cards[i]);
        assert(cards.contains(cards[i]));
        assert(f.contains(cards[i]));
    }
}

} // verus!
