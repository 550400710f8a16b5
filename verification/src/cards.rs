//! The card model: suits, ranks, cards, and the two-character wire code
//! (`<SuitCode><RankCode>`, e.g. `"SA"` for the Ace of Spades).

use vstd::prelude::*;
use vstd::string::StrSliceExecFns;
use vstd::string::StringExecFns;
use crate::protocol::GameError;

verus! {

/// Number of distinct suits in the deck.
pub const NB_SUITS: usize = 4;

/// Number of players around the table.
pub const NB_PLAYERS: usize = 4;

/// Number of distinct ranks within each suit.
pub const NB_RANKS: usize = 10;

/// Identifies one of the four players, 0 through 3.
pub type PlayerId = usize;

/// One of the four suits.  The declaration order Clubs, Diamonds, Hearts,
/// Spades is the fixed tie-break order; it has no gameplay meaning beyond
/// being a last-resort comparator.
#[derive(Clone, Copy, Debug, PartialEq, Eq, Structural)]
pub enum Suit {
    Clubs,
    Diamonds,
    Hearts,
    Spades,
}

impl Suit {
    /// Position of the suit in the fixed order Clubs < Diamonds < Hearts < Spades.
    pub open spec fn spec_order(self) -> int {
        match self {
            Suit::Clubs => 0,
            Suit::Diamonds => 1,
            Suit::Hearts => 2,
            Suit::Spades => 3,
        }
    }

    pub fn order(&self) -> (r: usize)
        ensures
            r == self.spec_order(),
    {
        match self {
            Suit::Clubs => 0,
            Suit::Diamonds => 1,
            Suit::Hearts => 2,
            Suit::Spades => 3,
        }
    }

    /// Single-character wire code of the suit.
    pub fn code(&self) -> (r: char)
        ensures
            r == spec_suit_code(*self),
    {
        match self {
            Suit::Spades => 'S',
            Suit::Hearts => 'H',
            Suit::Diamonds => 'D',
            Suit::Clubs => 'C',
        }
    }

    /// The suit named by a wire-code character, if any.
    pub fn from_code(c: char) -> (r: Option<Suit>)
        ensures
            r == spec_suit_of_code(c),
    {
        match c {
            'S' => Some(Suit::Spades),
            'H' => Some(Suit::Hearts),
            'D' => Some(Suit::Diamonds),
            'C' => Some(Suit::Clubs),
            _ => None,
        }
    }
}

/// The wire code of a suit: S, H, D or C.
pub open spec fn spec_suit_code(s: Suit) -> char {
    match s {
        Suit::Spades => 'S',
        Suit::Hearts => 'H',
        Suit::Diamonds => 'D',
        Suit::Clubs => 'C',
    }
}

/// The suit a wire-code character names, if any.
pub open spec fn spec_suit_of_code(c: char) -> Option<Suit> {
    if c == 'S' {
        Some(Suit::Spades)
    } else if c == 'H' {
        Some(Suit::Hearts)
    } else if c == 'D' {
        Some(Suit::Diamonds)
    } else if c == 'C' {
        Some(Suit::Clubs)
    } else {
        None
    }
}

/// One of the ten ranks, Five lowest, Ace highest.
#[derive(Clone, Copy, Debug, PartialEq, Eq, Structural)]
pub enum Rank {
    Five,
    Six,
    Seven,
    Eight,
    Nine,
    Ten,
    Jack,
    Queen,
    King,
    Ace,
}

impl Rank {
    /// Position of the rank in the order Five < Six < ... < King < Ace.
    pub open spec fn spec_order(self) -> int {
        match self {
            Rank::Five => 0,
            Rank::Six => 1,
            Rank::Seven => 2,
            Rank::Eight => 3,
            Rank::Nine => 4,
            Rank::Ten => 5,
            Rank::Jack => 6,
            Rank::Queen => 7,
            Rank::King => 8,
            Rank::Ace => 9,
        }
    }

    pub fn order(&self) -> (r: usize)
        ensures
            r == self.spec_order(),
    {
        match self {
            Rank::Five => 0,
            Rank::Six => 1,
            Rank::Seven => 2,
            Rank::Eight => 3,
            Rank::Nine => 4,
            Rank::Ten => 5,
            Rank::Jack => 6,
            Rank::Queen => 7,
            Rank::King => 8,
            Rank::Ace => 9,
        }
    }

    /// Single-character wire code of the rank.
    pub fn code(&self) -> (r: char)
        ensures
            r == spec_rank_code(*self),
    {
        match self {
            Rank::Ace => 'A',
            Rank::King => 'K',
            Rank::Queen => 'Q',
            Rank::Jack => 'J',
            Rank::Ten => 'T',
            Rank::Nine => '9',
            Rank::Eight => '8',
            Rank::Seven => '7',
            Rank::Six => '6',
            Rank::Five => '5',
        }
    }

    /// The rank named by a wire-code character, if any.
    pub fn from_code(c: char) -> (r: Option<Rank>)
        ensures
            r == spec_rank_of_code(c),
    {
        match c {
            'A' => Some(Rank::Ace),
            'K' => Some(Rank::King),
            'Q' => Some(Rank::Queen),
            'J' => Some(Rank::Jack),
            'T' => Some(Rank::Ten),
            '9' => Some(Rank::Nine),
            '8' => Some(Rank::Eight),
            '7' => Some(Rank::Seven),
            '6' => Some(Rank::Six),
            '5' => Some(Rank::Five),
            _ => None,
        }
    }
}

/// The wire code of a rank: A, K, Q, J, T, 9, 8, 7, 6 or 5.
pub open spec fn spec_rank_code(r: Rank) -> char {
    match r {
        Rank::Ace => 'A',
        Rank::King => 'K',
        Rank::Queen => 'Q',
        Rank::Jack => 'J',
        Rank::Ten => 'T',
        Rank::Nine => '9',
        Rank::Eight => '8',
        Rank::Seven => '7',
        Rank::Six => '6',
        Rank::Five => '5',
    }
}

/// The rank a wire-code character names, if any.
pub open spec fn spec_rank_of_code(c: char) -> Option<Rank> {
    if c == 'A' {
        Some(Rank::Ace)
    } else if c == 'K' {
        Some(Rank::King)
    } else if c == 'Q' {
        Some(Rank::Queen)
    } else if c == 'J' {
        Some(Rank::Jack)
    } else if c == 'T' {
        Some(Rank::Ten)
    } else if c == '9' {
        Some(Rank::Nine)
    } else if c == '8' {
        Some(Rank::Eight)
    } else if c == '7' {
        Some(Rank::Seven)
    } else if c == '6' {
        Some(Rank::Six)
    } else if c == '5' {
        Some(Rank::Five)
    } else {
        None
    }
}

/// An immutable (suit, rank) pair.  Equality is structural.
#[derive(Clone, Copy, Debug, PartialEq, Eq, Structural)]
pub struct Card {
    pub suit: Suit,
    pub rank: Rank,
}

/// The two-character wire form of a card: suit code, then rank code.
pub open spec fn spec_encode(c: Card) -> Seq<char> {
    seq![spec_suit_code(c.suit), spec_rank_code(c.rank)]
}

/// The card a character sequence names: its first two characters must be a
/// suit code and a rank code; characters after the first two are ignored.
pub open spec fn spec_decode(s: Seq<char>) -> Option<Card> {
    if s.len() < 2 {
        None
    } else {
        match (spec_suit_of_code(s[0]), spec_rank_of_code(s[1])) {
            (Some(suit), Some(rank)) => Some(Card { suit, rank }),
            _ => None,
        }
    }
}

impl Card {
    pub fn new(suit: Suit, rank: Rank) -> (r: Card)
        ensures
            r == (Card { suit, rank }),
    {
        Card { suit, rank }
    }

    /// Renders the card in its two-character wire form.
    pub fn encode(&self) -> (r: String)
        ensures
            r@ == spec_encode(*self),
    {
        let s = String::from_str(self.suit.code_str());
        let r = s.concat(self.rank.code_str());
        proof {
            assert(r@ =~= spec_encode(*self));
        }
        r
    }

    /// Parses a card from its wire form.  Fails exactly when the input is
    /// shorter than two characters or either code is unrecognized.
    pub fn decode(s: &str) -> (r: Result<Card, GameError>)
        ensures
            (match r {
                Ok(c) => spec_decode(s@) == Some(c),
                Err(e) => spec_decode(s@) is None && e == GameError::InvalidFormat,
            }),
    {
        if s.unicode_len() < 2 {
            return Err(GameError::InvalidFormat);
        }
        let sc = s.get_char(0);
        let rc = s.get_char(1);
        match (Suit::from_code(sc), Rank::from_code(rc)) {
            (Some(suit), Some(rank)) => Ok(Card { suit, rank }),
            _ => Err(GameError::InvalidFormat),
        }
    }
}

impl Suit {
    /// Wire code of the suit as a one-character string.
    pub fn code_str(&self) -> (r: &'static str)
        ensures
            r@ =~= seq![spec_suit_code(*self)],
    {
        proof {
            reveal_strlit("S");
            reveal_strlit("H");
            reveal_strlit("D");
            reveal_strlit("C");
        }
        match self {
            Suit::Spades => "S",
            Suit::Hearts => "H",
            Suit::Diamonds => "D",
            Suit::Clubs => "C",
        }
    }
}

impl Rank {
    /// Wire code of the rank as a one-character string.
    pub fn code_str(&self) -> (r: &'static str)
        ensures
            r@ =~= seq![spec_rank_code(*self)],
    {
        proof {
            reveal_strlit("A");
            reveal_strlit("K");
            reveal_strlit("Q");
            reveal_strlit("J");
            reveal_strlit("T");
            reveal_strlit("9");
            reveal_strlit("8");
            reveal_strlit("7");
            reveal_strlit("6");
            reveal_strlit("5");
        }
        match self {
            Rank::Ace => "A",
            Rank::King => "K",
            Rank::Queen => "Q",
            Rank::Jack => "J",
            Rank::Ten => "T",
            Rank::Nine => "9",
            Rank::Eight => "8",
            Rank::Seven => "7",
            Rank::Six => "6",
            Rank::Five => "5",
        }
    }
}

/// Copies a vector of cards element by element.
pub fn copy_cards(v: &Vec<Card>) -> (r: Vec<Card>)
    ensures
        r@ == v@,
{
    let mut r: Vec<Card> = Vec::new();
    let mut i: usize = 0;
    while i < v.len()
        invariant
            i <= v@.len(),
            r@ == v@.subrange(0, i as int),
        decreases v@.len() - i,
    {
        r.push(v[i]);
        proof {
            assert(r@ =~= v@.subrange(0, i + 1 as int));
        }
        i += 1;
    }
    proof {
        assert(r@ =~= v@);
    }
    r
}

/// Whether a vector of cards holds a given card.
pub fn cards_contain(v: &Vec<Card>, c: Card) -> (r: bool)
    ensures
        r == v@.contains(c),
{
    let mut i: usize = 0;
    while i < v.len()
        invariant
            i <= v@.len(),
            forall|j: int| 0 <= j < i ==> v@[j] != c,
        decreases v@.len() - i,
    {
        if v[i] == c {
            return true;
        }
        i += 1;
    }
    false
}

/// Decoding is the inverse of encoding: every card's wire form parses back
/// to the same card.
pub proof fn lemma_card_code_round_trip(c: Card)
    ensures
        spec_decode(spec_encode(c)) == Some(c),
{
}

} // verus!
