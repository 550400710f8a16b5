use dix_oxyde::cards::{Card, Rank, Suit};
use dix_oxyde::protocol::GameError;

fn all_suits() -> Vec<Suit> {
    vec![Suit::Clubs, Suit::Diamonds, Suit::Hearts, Suit::Spades]
}

fn all_ranks() -> Vec<Rank> {
    vec![
        Rank::Five,
        Rank::Six,
        Rank::Seven,
        Rank::Eight,
        Rank::Nine,
        Rank::Ten,
        Rank::Jack,
        Rank::Queen,
        Rank::King,
        Rank::Ace,
    ]
}

#[test]
fn encode_examples() {
    assert_eq!(Card::new(Suit::Spades, Rank::Ace).encode(), "SA");
    assert_eq!(Card::new(Suit::Hearts, Rank::Five).encode(), "H5");
    assert_eq!(Card::new(Suit::Clubs, Rank::Ten).encode(), "CT");
    assert_eq!(Card::new(Suit::Diamonds, Rank::Queen).encode(), "DQ");
}

#[test]
fn decode_examples() {
    assert_eq!(Card::decode("SA"), Ok(Card::new(Suit::Spades, Rank::Ace)));
    assert_eq!(Card::decode("C9"), Ok(Card::new(Suit::Clubs, Rank::Nine)));
    assert_eq!(Card::decode("DJ"), Ok(Card::new(Suit::Diamonds, Rank::Jack)));
}

#[test]
fn decode_ignores_extra_characters() {
    assert_eq!(Card::decode("SA5"), Ok(Card::new(Suit::Spades, Rank::Ace)));
}

#[test]
fn decode_rejects_short_input() {
    assert_eq!(Card::decode(""), Err(GameError::InvalidFormat));
    assert_eq!(Card::decode("S"), Err(GameError::InvalidFormat));
}

#[test]
fn decode_rejects_unknown_codes() {
    assert_eq!(Card::decode("XA"), Err(GameError::InvalidFormat));
    assert_eq!(Card::decode("S2"), Err(GameError::InvalidFormat));
    assert_eq!(Card::decode("AS"), Err(GameError::InvalidFormat));
}

#[test]
fn decode_encode_round_trips_every_card() {
    for &suit in all_suits().iter() {
        for &rank in all_ranks().iter() {
            let card = Card::new(suit, rank);
            let code = card.encode();
            assert_eq!(code.chars().count(), 2);
            assert_eq!(Card::decode(&code), Ok(card));
        }
    }
}

#[test]
fn suit_and_rank_orders_are_dense() {
    let mut suit_orders: Vec<usize> = all_suits().iter().map(|s| s.order()).collect();
    suit_orders.sort();
    assert_eq!(suit_orders, vec![0, 1, 2, 3]);
    let mut rank_orders: Vec<usize> = all_ranks().iter().map(|r| r.order()).collect();
    rank_orders.sort();
    assert_eq!(rank_orders, (0..10).collect::<Vec<usize>>());
}
