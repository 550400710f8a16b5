//! The deck tracker: the universe of cards not yet known to be played and
//! not held by the observing player, used to tell which remaining cards are
//! the highest of their suit ("master" cards).

use vstd::prelude::*;
use crate::cards::{Card, Rank, Suit, NB_RANKS, NB_SUITS};
use crate::hand::Hand;
use crate::seqs::{
    lemma_filter_membership,
    lemma_filter_no_duplicates,
    lemma_filter_step,
    lemma_remove_value_once,
};

verus! {

/// A constraint on what a hidden hand may hold, for reasoning about how the
/// unseen cards could be distributed among the other players.
#[derive(Clone, Copy, Debug, PartialEq, Eq, Structural)]
pub enum HandConstraint {
    /// The hand holds at least one card of the suit.
    HasSuit(Suit),
    /// The hand holds no card of the suit.
    EmptySuit(Suit),
}

/// The suit whose position in the static order is `o`.
pub open spec fn spec_suit_with_order(o: int) -> Suit {
    if o == 0 {
        Suit::Clubs
    } else if o == 1 {
        Suit::Diamonds
    } else if o == 2 {
        Suit::Hearts
    } else {
        Suit::Spades
    }
}

/// The rank whose position in the rank order is `o`.
pub open spec fn spec_rank_with_order(o: int) -> Rank {
    if o == 0 {
        Rank::Five
    } else if o == 1 {
        Rank::Six
    } else if o == 2 {
        Rank::Seven
    } else if o == 3 {
        Rank::Eight
    } else if o == 4 {
        Rank::Nine
    } else if o == 5 {
        Rank::Ten
    } else if o == 6 {
        Rank::Jack
    } else if o == 7 {
        Rank::Queen
    } else if o == 8 {
        Rank::King
    } else {
        Rank::Ace
    }
}

/// Card number `i` of the full deck, suits in static order, ranks ascending
/// within each suit.
pub open spec fn spec_card_at(i: int) -> Card {
    Card { suit: spec_suit_with_order(i / (NB_RANKS as int)), rank: spec_rank_with_order(i % (NB_RANKS as int)) }
}

/// All forty cards.
pub open spec fn spec_full_deck() -> Seq<Card> {
    Seq::new((NB_SUITS * NB_RANKS) as nat, |i: int| spec_card_at(i))
}

/// The full deck holds forty distinct cards, and every card is among them.
pub proof fn lemma_full_deck()
    ensures
        spec_full_deck().len() == NB_SUITS * NB_RANKS,
        spec_full_deck().no_duplicates(),
        forall|c: Card| spec_full_deck().contains(c),
{
    let d = spec_full_deck();
    assert forall|i: int, j: int| 0 <= i < d.len() && 0 <= j < d.len() && i != j implies d[i]
        != d[j] by {
        assert(i == (NB_RANKS as int) * (i / (NB_RANKS as int)) + i % (NB_RANKS as int)) by {
            vstd::arithmetic::div_mod::lemma_fundamental_div_mod(i, NB_RANKS as int);
        }
        assert(j == (NB_RANKS as int) * (j / (NB_RANKS as int)) + j % (NB_RANKS as int)) by {
            vstd::arithmetic::div_mod::lemma_fundamental_div_mod(j, NB_RANKS as int);
        }
    }
    assert forall|c: Card| d.contains(c) by {
        let i = c.suit.spec_order() * (NB_RANKS as int) + c.rank.spec_order();
        assert(i / (NB_RANKS as int) == c.suit.spec_order() && i % (NB_RANKS as int)
            == c.rank.spec_order()) by {
            vstd::arithmetic::div_mod::lemma_fundamental_div_mod_converse(
                i,
                NB_RANKS as int,
                c.suit.spec_order(),
                c.rank.spec_order(),
            );
        }
        assert(d[i] == c);
    }
}

/// Whether `c` is a highest remaining card of its suit in `deck`.
pub open spec fn spec_is_master(deck: Seq<Card>, c: Card) -> bool {
    &&& deck.contains(c)
    &&& forall|j: int|
        0 <= j < deck.len() && (#[trigger] deck[j]).suit == c.suit ==> deck[j].rank.spec_order()
            <= c.rank.spec_order()
}

/// Index of the last card of maximal rank in `cards`.
pub open spec fn spec_max_rank_index(cards: Seq<Card>) -> int
    decreases cards.len(),
{
    if cards.len() <= 1 {
        0
    } else {
        let b = spec_max_rank_index(cards.drop_last());
        if cards.last().rank.spec_order() >= cards[b].rank.spec_order() {
            cards.len() - 1
        } else {
            b
        }
    }
}

/// The card at [`spec_max_rank_index`] has maximal rank.
pub proof fn lemma_max_rank_index(cards: Seq<Card>)
    requires
        cards.len() > 0,
    ensures
        0 <= spec_max_rank_index(cards) < cards.len(),
        forall|j: int|
            0 <= j < cards.len() ==> (#[trigger] cards[j]).rank.spec_order()
                <= cards[spec_max_rank_index(cards)].rank.spec_order(),
    decreases cards.len(),
{
    if cards.len() > 1 {
        lemma_max_rank_index(cards.drop_last());
        assert(forall|j: int| 0 <= j < cards.len() - 1 ==> cards.drop_last()[j] == cards[j]);
    }
}

/// The highest remaining card of suit `s` in `deck`, if the suit has any.
pub open spec fn spec_master_of_suit(deck: Seq<Card>, s: Suit) -> Option<Card> {
    let remaining = deck.filter(|c: Card| c.suit == s);
    if remaining.len() == 0 {
        None
    } else {
        Some(remaining[spec_max_rank_index(remaining)])
    }
}

/// The master cards of `deck`, one per suit that still has cards, suits in
/// static order.
pub open spec fn spec_masters(deck: Seq<Card>) -> Seq<Card> {
    spec_master_seq(deck, Suit::Clubs) + spec_master_seq(deck, Suit::Diamonds) + spec_master_seq(
        deck,
        Suit::Hearts,
    ) + spec_master_seq(deck, Suit::Spades)
}

/// The master card of suit `s` as a zero- or one-element sequence.
pub open spec fn spec_master_seq(deck: Seq<Card>, s: Suit) -> Seq<Card> {
    match spec_master_of_suit(deck, s) {
        Some(c) => seq![c],
        None => Seq::empty(),
    }
}

/// The multiset of all cards not yet known to be played and not excluded as
/// held by the observer; it starts as the full forty-card deck.
#[derive(Clone, Debug)]
pub struct Deck {
    pub cards: Vec<Card>,
}

impl View for Deck {
    type V = Seq<Card>;

    open spec fn view(&self) -> Seq<Card> {
        self.cards@
    }
}

impl Deck {
    /// No card appears twice in the tracker.
    pub open spec fn wf(self) -> bool {
        self@.no_duplicates()
    }

    pub fn new(cards: Vec<Card>) -> (r: Deck)
        requires
            cards@.no_duplicates(),
        ensures
            r@ == cards@,
            r.wf(),
    {
        Deck { cards }
    }

    /// Drops every card of `hand` from the tracker; used once per round to
    /// exclude the observer's own cards.
    pub fn remove_hand(&mut self, hand: &Hand)
        requires
            old(self).wf(),
        ensures
            final(self)@ == old(self)@.filter(|c: Card| !hand@.contains(c)),
            final(self).wf(),
    {
        let mut kept: Vec<Card> = Vec::new();
        let mut i: usize = 0;
        while i < self.cards.len()
            invariant
                i <= self@.len(),
                kept@ == self@.subrange(0, i as int).filter(|c: Card| !hand@.contains(c)),
            decreases self@.len() - i,
        {
            proof {
                lemma_filter_step(self@, |c: Card| !hand@.contains(c), i as int);
            }
            let c = self.cards[i];
            if !crate::cards::cards_contain(&hand.cards, c) {
                kept.push(c);
            }
            i += 1;
        }
        proof {
            assert(self@.subrange(0, self@.len() as int) =~= self@);
            lemma_filter_no_duplicates(self@, |c: Card| !hand@.contains(c));
        }
        self.cards = kept;
    }

    /// Drops `card` from the tracker; a card already gone stays gone, so a
    /// repeated report changes nothing.
    pub fn card_played(&mut self, card: Card)
        requires
            old(self).wf(),
        ensures
            final(self)@ == old(self)@.filter(|c: Card| c != card),
            final(self).wf(),
    {
        let mut kept: Vec<Card> = Vec::new();
        let mut i: usize = 0;
        while i < self.cards.len()
            invariant
                i <= self@.len(),
                kept@ == self@.subrange(0, i as int).filter(|c: Card| c != card),
            decreases self@.len() - i,
        {
            proof {
                lemma_filter_step(self@, |c: Card| c != card, i as int);
            }
            let c = self.cards[i];
            if !(c == card) {
                kept.push(c);
            }
            i += 1;
        }
        proof {
            assert(self@.subrange(0, self@.len() as int) =~= self@);
            lemma_filter_no_duplicates(self@, |c: Card| c != card);
        }
        self.cards = kept;
    }

    /// The cards of suit `suit` still in the tracker, in tracker order.
    pub fn remaining_of_suit(&self, suit: &Suit) -> (r: Vec<Card>)
        ensures
            r@ == self@.filter(|c: Card| c.suit == *suit),
    {
        let s = *suit;
        let mut r: Vec<Card> = Vec::new();
        let mut i: usize = 0;
        while i < self.cards.len()
            invariant
                i <= self@.len(),
                r@ == self@.subrange(0, i as int).filter(|c: Card| c.suit == s),
            decreases self@.len() - i,
        {
            proof {
                lemma_filter_step(self@, |c: Card| c.suit == s, i as int);
            }
            let c = self.cards[i];
            if c.suit == s {
                r.push(c);
            }
            i += 1;
        }
        proof {
            assert(self@.subrange(0, self@.len() as int) =~= self@);
        }
        r
    }

    /// The highest remaining card of each suit that still has cards, suits
    /// in static order.
    pub fn master_cards(&self) -> (r: Vec<Card>)
        ensures
            r@ == spec_masters(self@),
            forall|c: Card| r@.contains(c) <==> spec_is_master(self@, c),
    {
        let mut r: Vec<Card> = Vec::new();
        let suits = suit_list();
        let mut i: usize = 0;
        while i < suits.len()
            invariant
                i <= suits@.len(),
                suits@ == seq![Suit::Clubs, Suit::Diamonds, Suit::Hearts, Suit::Spades],
                r@ == spec_masters_upto(self@, suits@, i as int),
            decreases suits@.len() - i,
        {
            let suit = suits[i];
            let remaining = self.remaining_of_suit(&suit);
            if remaining.len() > 0 {
                let m = max_rank_card(&remaining);
                r.push(m);
            }
            proof {
                assert(spec_masters_upto(self@, suits@, i + 1 as int) =~= spec_masters_upto(
                    self@,
                    suits@,
                    i as int,
                ) + spec_master_seq(self@, suits@[i as int]));
                assert(r@ =~= spec_masters_upto(self@, suits@, i + 1 as int));
            }
            i += 1;
        }
        proof {
            reveal_with_fuel(spec_masters_upto, 5);
            assert(spec_masters_upto(self@, suits@, 4) =~= spec_masters(self@));
            lemma_masters_membership(self@);
        }
        r
    }
}

impl Default for Deck {
    /// The full forty-card deck, suits in static order, ranks ascending
    /// within each suit.
    fn default() -> (r: Deck)
        ensures
            r@ == spec_full_deck(),
            r.wf(),
    {
        let mut cards: Vec<Card> = Vec::new();
        let mut i: usize = 0;
        while i < NB_SUITS * NB_RANKS
            invariant
                i <= NB_SUITS * NB_RANKS,
                cards@.len() == i,
                forall|j: int| 0 <= j < i ==> cards@[j] == spec_card_at(j),
            decreases NB_SUITS * NB_RANKS - i,
        {
            let suit = suit_with_order(i / NB_RANKS);
            let rank = rank_with_order(i % NB_RANKS);
            cards.push(Card { suit, rank });
            i += 1;
        }
        proof {
            assert(cards@ =~= spec_full_deck());
            lemma_full_deck();
        }
        Deck { cards }
    }
}

/// Computes [`spec_suit_with_order`] for the four valid positions.
fn suit_with_order(o: usize) -> (r: Suit)
    requires
        o < NB_SUITS,
    ensures
        r == spec_suit_with_order(o as int),
{
    if o == 0 {
        Suit::Clubs
    } else if o == 1 {
        Suit::Diamonds
    } else if o == 2 {
        Suit::Hearts
    } else {
        Suit::Spades
    }
}

/// Computes [`spec_rank_with_order`] for the ten valid positions.
fn rank_with_order(o: usize) -> (r: Rank)
    requires
        o < NB_RANKS,
    ensures
        r == spec_rank_with_order(o as int),
{
    if o == 0 {
        Rank::Five
    } else if o == 1 {
        Rank::Six
    } else if o == 2 {
        Rank::Seven
    } else if o == 3 {
        Rank::Eight
    } else if o == 4 {
        Rank::Nine
    } else if o == 5 {
        Rank::Ten
    } else if o == 6 {
        Rank::Jack
    } else if o == 7 {
        Rank::Queen
    } else if o == 8 {
        Rank::King
    } else {
        Rank::Ace
    }
}

/// The master cards of the suits before position `i` of `suits`.
pub open spec fn spec_masters_upto(deck: Seq<Card>, suits: Seq<Suit>, i: int) -> Seq<Card>
    decreases i,
{
    if i <= 0 {
        Seq::empty()
    } else {
        spec_masters_upto(deck, suits, i - 1) + spec_master_seq(deck, suits[i - 1])
    }
}

/// The four suits in static order.
fn suit_list() -> (r: Vec<Suit>)
    ensures
        r@ == seq![Suit::Clubs, Suit::Diamonds, Suit::Hearts, Suit::Spades],
{
    let mut r: Vec<Suit> = Vec::new();
    r.push(Suit::Clubs);
    r.push(Suit::Diamonds);
    r.push(Suit::Hearts);
    r.push(Suit::Spades);
    proof {
        assert(r@ =~= seq![Suit::Clubs, Suit::Diamonds, Suit::Hearts, Suit::Spades]);
    }
    r
}

/// The last card of maximal rank in a non-empty vector.
fn max_rank_card(cards: &Vec<Card>) -> (r: Card)
    requires
        cards@.len() > 0,
    ensures
        r == cards@[spec_max_rank_index(cards@)],
{
    let mut best: usize = 0;
    let mut best_order = cards[0].rank.order();
    let mut i: usize = 1;
    while i < cards.len()
        invariant
            1 <= i <= cards@.len(),
            best < i,
            cards@.len() > 0,
            best == spec_max_rank_index(cards@.subrange(0, i as int)),
            best_order == cards@[best as int].rank.spec_order(),
        decreases cards@.len() - i,
    {
        proof {
            let pre = cards@.subrange(0, i as int);
            let cur = cards@.subrange(0, i + 1 as int);
            assert(cur.drop_last() =~= pre);
            assert(cur.last() == cards@[i as int]);
            lemma_max_rank_index(pre);
            assert(forall|j: int| 0 <= j < pre.len() ==> pre[j] == cur[j]);
        }
        let o = cards[i].rank.order();
        if o >= best_order {
            best = i;
            best_order = o;
        }
        i += 1;
    }
    proof {
        assert(cards@.subrange(0, cards@.len() as int) =~= cards@);
    }
    cards[best]
}

/// A card stands among the masters exactly when it is a highest remaining
/// card of its suit.
#[verifier::rlimit(50)]
pub proof fn lemma_masters_membership(deck: Seq<Card>)
    ensures
        forall|c: Card| spec_masters(deck).contains(c) <==> spec_is_master(deck, c),
{
    assert forall|c: Card| spec_masters(deck).contains(c) <==> spec_is_master(deck, c) by {
        lemma_master_seq_membership(deck, Suit::Clubs, c);
        lemma_master_seq_membership(deck, Suit::Diamonds, c);
        lemma_master_seq_membership(deck, Suit::Hearts, c);
        lemma_master_seq_membership(deck, Suit::Spades, c);
        let m = spec_masters(deck);
        if spec_is_master(deck, c) {
            assert(spec_master_seq(deck, c.suit).contains(c));
            assert(m.contains(c)) by {
                let part = spec_master_seq(deck, c.suit);
                let k = choose|k: int| 0 <= k < part.len() && part[k] == c;
                if c.suit == Suit::Clubs {
                    assert(m[k] == c);
                } else if c.suit == Suit::Diamonds {
                    assert(m[spec_master_seq(deck, Suit::Clubs).len() + k] == c);
                } else if c.suit == Suit::Hearts {
                    assert(m[spec_master_seq(deck, Suit::Clubs).len() + spec_master_seq(
                        deck,
                        Suit::Diamonds,
                    ).len() + k] == c);
                } else {
                    assert(m[spec_master_seq(deck, Suit::Clubs).len() + spec_master_seq(
                        deck,
                        Suit::Diamonds,
                    ).len() + spec_master_seq(deck, Suit::Hearts).len() + k] == c);
                }
            }
        }
        if m.contains(c) {
            let k = choose|k: int| 0 <= k < m.len() && m[k] == c;
            assert(spec_master_seq(deck, Suit::Clubs).contains(c) || spec_master_seq(
                deck,
                Suit::Diamonds,
            ).contains(c) || spec_master_seq(deck, Suit::Hearts).contains(c) || spec_master_seq(
                deck,
                Suit::Spades,
            ).contains(c));
        }
    }
}

/// A card stands in suit `s`'s master sequence exactly when it has suit `s`
/// and is a highest remaining card of that suit.
proof fn lemma_master_seq_membership(deck: Seq<Card>, s: Suit, c: Card)
    ensures
        spec_master_seq(deck, s).contains(c) <==> (c.suit == s && spec_is_master(deck, c)),
{
    let pred = |x: Card| x.suit == s;
    let remaining = deck.filter(pred);
    lemma_filter_membership(deck, pred, c);
    if remaining.len() > 0 {
        lemma_max_rank_index(remaining);
        let mi = spec_max_rank_index(remaining);
        let m = remaining[mi];
        assert(remaining.contains(m));
        lemma_filter_membership(deck, pred, m);
        assert(m.suit == s && deck.contains(m));
        // The chosen card is a highest remaining card of suit `s`.
        assert forall|j: int|
            0 <= j < deck.len() && (#[trigger] deck[j]).suit == m.suit implies deck[j].rank.spec_order()
            <= m.rank.spec_order() by {
            lemma_filter_membership(deck, pred, deck[j]);
            assert(deck.contains(deck[j]));
            assert(remaining.contains(deck[j]));
            let rj = choose|rj: int| 0 <= rj < remaining.len() && remaining[rj] == deck[j];
            assert(remaining[rj].rank.spec_order() <= m.rank.spec_order());
        }
        assert(spec_is_master(deck, m));
        assert(spec_master_seq(deck, s) == seq![m]);
        assert(spec_master_seq(deck, s)[0] == m);
        assert(spec_master_seq(deck, s).contains(m));
        if c.suit == s && spec_is_master(deck, c) {
            // Both are highest remaining cards of the same suit, so they
            // carry the same rank, and a card is its (suit, rank) pair.
            assert(remaining.contains(c));
            let rc = choose|rc: int| 0 <= rc < remaining.len() && remaining[rc] == c;
            assert(remaining[rc].rank.spec_order() <= m.rank.spec_order());
            let jm = choose|jm: int| 0 <= jm < deck.len() && deck[jm] == m;
            assert(deck[jm].suit == c.suit);
            assert(deck[jm].rank.spec_order() <= c.rank.spec_order());
            assert(m.rank == c.rank) by {
                lemma_rank_order_injective(m.rank, c.rank);
            }
            assert(c == m);
        }
        if spec_master_seq(deck, s).contains(c) {
            let k = choose|k: int| 0 <= k < 1 && spec_master_seq(deck, s)[k] == c;
            assert(c == m);
        }
    } else {
        assert(spec_master_seq(deck, s).len() == 0);
        if c.suit == s && deck.contains(c) {
            assert(remaining.contains(c));
        }
    }
}

/// Two ranks at the same position of the rank order are the same rank.
proof fn lemma_rank_order_injective(a: Rank, b: Rank)
    requires
        a.spec_order() == b.spec_order(),
    ensures
        a == b,
{
}

/// Deck-tracking law: once the observer's hand is removed, reporting a card
/// that is outside that hand and still unseen shrinks the tracker by exactly
/// one; reporting the same card again changes nothing.
pub proof fn lemma_card_played_shrinks_once(deck: Seq<Card>, hand: Seq<Card>, c: Card)
    requires
        deck.no_duplicates(),
        deck.contains(c),
        !hand.contains(c),
    ensures
        ({
            let without_hand = deck.filter(|x: Card| !hand.contains(x));
            let after = without_hand.filter(|x: Card| x != c);
            &&& without_hand.contains(c)
            &&& after.len() == without_hand.len() - 1
            &&& after.filter(|x: Card| x != c) == after
        }),
{
    let without_hand = deck.filter(|x: Card| !hand.contains(x));
    lemma_filter_membership(deck, |x: Card| !hand.contains(x), c);
    lemma_filter_no_duplicates(deck, |x: Card| !hand.contains(x));
    lemma_remove_value_once(without_hand, |x: Card| x != c, c);
}

} // verus!
