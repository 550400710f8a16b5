use dix_oxyde::cards::{Card, Rank, Suit};
use dix_oxyde::protocol::{
    get_hand, get_me, parse_bid_line, parse_card_line, parse_usize, tokenize, BidPhase, GameError,
};

#[test]
fn parse_usize_accepts_plain_numbers() {
    assert_eq!(parse_usize("0"), Ok(0));
    assert_eq!(parse_usize("123"), Ok(123));
    assert_eq!(parse_usize("007"), Ok(7));
}

#[test]
fn parse_usize_rejects_bad_fields() {
    assert_eq!(parse_usize(""), Err(GameError::InvalidFormat));
    assert_eq!(parse_usize("12a"), Err(GameError::InvalidFormat));
    assert_eq!(parse_usize("-1"), Err(GameError::InvalidFormat));
    assert_eq!(parse_usize(" 1"), Err(GameError::InvalidFormat));
    assert_eq!(
        parse_usize("99999999999999999999999999999999"),
        Err(GameError::InvalidFormat)
    );
}

#[test]
fn get_me_reads_the_player_line() {
    assert_eq!(get_me("player 2"), Ok(2));
    assert_eq!(get_me("player 0"), Ok(0));
}

#[test]
fn get_me_rejects_bad_lines() {
    assert_eq!(get_me("player x"), Err(GameError::InvalidFormat));
    assert_eq!(get_me("player "), Err(GameError::InvalidFormat));
    assert_eq!(get_me("hand SA"), Err(GameError::ProtocolViolation));
    assert_eq!(get_me(""), Err(GameError::ProtocolViolation));
}

#[test]
fn get_hand_reads_the_dealt_cards() {
    let hand = get_hand("hand SA H5 CT").unwrap();
    assert_eq!(
        hand.cards,
        vec![
            Card::new(Suit::Spades, Rank::Ace),
            Card::new(Suit::Hearts, Rank::Five),
            Card::new(Suit::Clubs, Rank::Ten),
        ]
    );
}

#[test]
fn get_hand_handles_repeated_separators() {
    let hand = get_hand("hand   SA\t H5").unwrap();
    assert_eq!(
        hand.cards,
        vec![
            Card::new(Suit::Spades, Rank::Ace),
            Card::new(Suit::Hearts, Rank::Five),
        ]
    );
}

#[test]
fn get_hand_of_a_bare_keyword_is_empty() {
    assert_eq!(get_hand("hand").unwrap().cards, vec![]);
    assert_eq!(get_hand("").unwrap().cards, vec![]);
}

#[test]
fn get_hand_rejects_a_bad_code() {
    assert_eq!(get_hand("hand SA XX").unwrap_err(), GameError::InvalidFormat);
}

#[test]
fn tokenize_splits_on_whitespace_runs() {
    assert_eq!(tokenize("a  bb\tccc"), vec!["a", "bb", "ccc"]);
    assert_eq!(tokenize("   "), Vec::<String>::new());
    assert_eq!(tokenize(""), Vec::<String>::new());
}

#[test]
fn parse_bid_line_reads_player_and_amount() {
    assert_eq!(parse_bid_line("1 80"), Ok((1, 80)));
    assert_eq!(parse_bid_line("0 0"), Ok((0, 0)));
}

#[test]
fn parse_bid_line_rejects_bad_events() {
    assert_eq!(parse_bid_line("180"), Err(GameError::ProtocolViolation));
    assert_eq!(parse_bid_line("x 80"), Err(GameError::InvalidFormat));
    assert_eq!(parse_bid_line("1 8x"), Err(GameError::InvalidFormat));
    assert_eq!(parse_bid_line("1 300"), Err(GameError::InvalidFormat));
    assert_eq!(parse_bid_line("7 80"), Err(GameError::ProtocolViolation));
}

#[test]
fn parse_card_line_reads_player_and_card() {
    assert_eq!(
        parse_card_line("2 S5"),
        Ok((2, Card::new(Suit::Spades, Rank::Five)))
    );
}

#[test]
fn parse_card_line_rejects_bad_events() {
    assert_eq!(parse_card_line("2S5"), Err(GameError::ProtocolViolation));
    assert_eq!(parse_card_line("2 5S"), Err(GameError::InvalidFormat));
    assert_eq!(parse_card_line("9 S5"), Err(GameError::ProtocolViolation));
    assert_eq!(parse_card_line("q S5"), Err(GameError::InvalidFormat));
}

#[test]
fn bid_phase_ends_after_three_passes_once_everyone_acted() {
    let mut phase = BidPhase::new();
    assert!(!phase.done());
    phase.record(0, 0);
    phase.record(1, 80);
    phase.record(2, 0);
    assert!(!phase.done());
    phase.record(3, 0);
    assert!(phase.done());
}

#[test]
fn bid_phase_keeps_going_while_bids_are_live() {
    let mut phase = BidPhase::new();
    phase.record(0, 10);
    phase.record(1, 20);
    phase.record(2, 30);
    phase.record(3, 40);
    assert!(!phase.done());
    phase.record(0, 0);
    phase.record(1, 0);
    assert!(!phase.done());
    phase.record(2, 0);
    assert!(phase.done());
}
