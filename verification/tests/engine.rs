use dix_oxyde::cards::{Card, Rank, Suit};
use dix_oxyde::hand::Hand;
use dix_oxyde::round::Round;
use dix_oxyde::trick::{OngoingTrick, Trick};

fn card(s: Suit, r: Rank) -> Card {
    Card::new(s, r)
}

#[test]
fn empty_trick_allows_every_card() {
    let hand = Hand::new(vec![
        card(Suit::Hearts, Rank::Five),
        card(Suit::Spades, Rank::Seven),
        card(Suit::Hearts, Rank::Ace),
    ]);
    let trick = OngoingTrick::new();
    assert_eq!(hand.playable_cards(&trick), hand.cards);
}

#[test]
fn must_follow_when_holding_the_suit() {
    let hand = Hand::new(vec![
        card(Suit::Hearts, Rank::Five),
        card(Suit::Spades, Rank::Seven),
        card(Suit::Hearts, Rank::Ace),
    ]);
    let mut trick = OngoingTrick::new();
    trick.push(0, card(Suit::Hearts, Rank::Nine));
    assert_eq!(
        hand.playable_cards(&trick),
        vec![card(Suit::Hearts, Rank::Five), card(Suit::Hearts, Rank::Ace)]
    );
}

#[test]
fn free_discard_when_void_in_the_follow_suit() {
    let hand = Hand::new(vec![
        card(Suit::Spades, Rank::Seven),
        card(Suit::Clubs, Rank::Five),
    ]);
    let mut trick = OngoingTrick::new();
    trick.push(0, card(Suit::Hearts, Rank::Nine));
    assert_eq!(hand.playable_cards(&trick), hand.cards);
}

#[test]
fn lone_trump_beats_higher_follow_cards() {
    let trick = OngoingTrick {
        cards: vec![
            (0, card(Suit::Hearts, Rank::Nine)),
            (1, card(Suit::Hearts, Rank::King)),
            (2, card(Suit::Spades, Rank::Five)),
            (3, card(Suit::Hearts, Rank::Ace)),
        ],
        follow: Some(Suit::Hearts),
        trump: Some(Suit::Spades),
    };
    assert_eq!(trick.get_current_trick_winner(), Some(2));
}

#[test]
fn highest_follow_card_wins_without_trump() {
    let mut trick = OngoingTrick::new();
    trick.push(0, card(Suit::Clubs, Rank::Seven));
    trick.push(1, card(Suit::Clubs, Rank::Ace));
    trick.push(2, card(Suit::Diamonds, Rank::Nine));
    trick.push(3, card(Suit::Clubs, Rank::Five));
    assert_eq!(trick.get_current_trick_winner(), Some(1));
}

#[test]
fn winner_is_none_on_an_empty_trick() {
    let trick = OngoingTrick::new();
    assert_eq!(trick.get_current_trick_winner(), None);
    assert!(trick.is_empty());
    assert!(!trick.is_full());
}

#[test]
fn push_fixes_follow_and_trump_and_clear_keeps_trump() {
    let mut trick = OngoingTrick::new();
    trick.push(0, card(Suit::Diamonds, Rank::Ten));
    assert_eq!(trick.follow, Some(Suit::Diamonds));
    assert_eq!(trick.trump, Some(Suit::Diamonds));
    trick.clear();
    assert!(trick.cards.is_empty());
    assert_eq!(trick.follow, None);
    assert_eq!(trick.trump, Some(Suit::Diamonds));
}

#[test]
fn trick_points_count_aces_tens_and_fives() {
    let trick = Trick::new(
        vec![
            (0, card(Suit::Hearts, Rank::Ace)),
            (1, card(Suit::Hearts, Rank::Seven)),
            (2, card(Suit::Spades, Rank::Five)),
            (3, card(Suit::Diamonds, Rank::Nine)),
        ],
        0,
    );
    assert_eq!(trick.get_nb_points(), 15);
}

#[test]
fn trick_points_of_a_ten_heavy_trick() {
    let trick = Trick::new(
        vec![
            (0, card(Suit::Hearts, Rank::Ten)),
            (1, card(Suit::Spades, Rank::Ten)),
            (2, card(Suit::Clubs, Rank::Ace)),
            (3, card(Suit::Diamonds, Rank::King)),
        ],
        2,
    );
    assert_eq!(trick.get_nb_points(), 30);
}

#[test]
fn four_plays_resolve_one_trick_and_a_fifth_starts_the_next() {
    let mut round = Round::new();
    round.play_card(0, card(Suit::Hearts, Rank::Nine));
    round.play_card(1, card(Suit::Hearts, Rank::King));
    round.play_card(2, card(Suit::Spades, Rank::Five));
    round.play_card(3, card(Suit::Hearts, Rank::Ace));
    assert_eq!(round.history.len(), 1);
    assert!(round.ongoing.cards.is_empty());
    assert_eq!(round.ongoing.follow, None);
    assert_eq!(round.trump, Some(Suit::Hearts));
    assert_eq!(round.history[0].winner, 3);
    round.play_card(0, card(Suit::Clubs, Rank::Seven));
    assert_eq!(round.history.len(), 1);
    assert_eq!(round.ongoing.cards, vec![(0, card(Suit::Clubs, Rank::Seven))]);
    assert_eq!(round.ongoing.follow, Some(Suit::Clubs));
    assert_eq!(round.trump, Some(Suit::Hearts));
}

#[test]
fn round_trump_is_round_scoped_not_trick_scoped() {
    let mut round = Round::new();
    round.play_card(0, card(Suit::Spades, Rank::Five));
    round.play_card(1, card(Suit::Spades, Rank::Six));
    round.play_card(2, card(Suit::Spades, Rank::Seven));
    round.play_card(3, card(Suit::Spades, Rank::Eight));
    // Second trick led in Hearts: follow changes, trump does not.
    round.play_card(0, card(Suit::Hearts, Rank::Nine));
    round.play_card(1, card(Suit::Hearts, Rank::King));
    round.play_card(2, card(Suit::Spades, Rank::Nine));
    round.play_card(3, card(Suit::Hearts, Rank::Ace));
    assert_eq!(round.history.len(), 2);
    // The lone spade trumps the hearts in the second trick.
    assert_eq!(round.history[1].winner, 2);
}

#[test]
fn remove_card_is_silent_for_a_card_not_held() {
    let mut hand = Hand::new(vec![
        card(Suit::Spades, Rank::Ace),
        card(Suit::Hearts, Rank::Nine),
    ]);
    hand.remove_card(card(Suit::Clubs, Rank::Five));
    assert_eq!(hand.cards.len(), 2);
    hand.remove_card(card(Suit::Hearts, Rank::Nine));
    assert_eq!(hand.cards, vec![card(Suit::Spades, Rank::Ace)]);
}

#[test]
fn trick_winner_updates_as_plays_come_in() {
    let mut trick = OngoingTrick::new();
    trick.push(3, card(Suit::Clubs, Rank::Seven));
    assert_eq!(trick.get_current_trick_winner(), Some(3));
    trick.push(0, card(Suit::Clubs, Rank::King));
    assert_eq!(trick.get_current_trick_winner(), Some(0));
    trick.push(1, card(Suit::Diamonds, Rank::Ace));
    // Off-suit, so the king of the follow suit still leads.
    assert_eq!(trick.get_current_trick_winner(), Some(0));
}

#[test]
fn hand_composition_queries() {
    let hand = Hand::new(vec![
        card(Suit::Spades, Rank::Ace),
        card(Suit::Spades, Rank::Five),
        card(Suit::Hearts, Rank::Nine),
    ]);
    assert!(hand.has_suit(Suit::Spades));
    assert!(hand.has_suit(Suit::Hearts));
    assert!(!hand.has_suit(Suit::Clubs));
    // Counts indexed by the static suit order: Clubs, Diamonds, Hearts, Spades.
    assert_eq!(hand.repartition(), vec![0, 0, 1, 2]);
    assert_eq!(hand.empty_suits(), vec![Suit::Clubs, Suit::Diamonds]);
}

#[test]
fn empty_suits_of_an_empty_hand_is_every_suit() {
    let hand = Hand::new(vec![]);
    assert_eq!(
        hand.empty_suits(),
        vec![Suit::Clubs, Suit::Diamonds, Suit::Hearts, Suit::Spades]
    );
    assert_eq!(hand.repartition(), vec![0, 0, 0, 0]);
}
