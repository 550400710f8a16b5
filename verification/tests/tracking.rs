use dix_oxyde::cards::{Card, Rank, Suit};
use dix_oxyde::deck::Deck;
use dix_oxyde::game::Game;
use dix_oxyde::hand::Hand;

fn card(s: Suit, r: Rank) -> Card {
    Card::new(s, r)
}

#[test]
fn full_deck_holds_forty_distinct_cards() {
    let deck = Deck::default();
    assert_eq!(deck.cards.len(), 40);
    for i in 0..deck.cards.len() {
        for j in 0..i {
            assert_ne!(deck.cards[i], deck.cards[j]);
        }
    }
}

#[test]
fn card_played_removes_exactly_once() {
    let mut deck = Deck::default();
    let hand = Hand::new(vec![
        card(Suit::Spades, Rank::Ace),
        card(Suit::Spades, Rank::Five),
    ]);
    deck.remove_hand(&hand);
    assert_eq!(deck.cards.len(), 38);
    // A card outside the removed hand and not yet reported leaves once.
    deck.card_played(card(Suit::Hearts, Rank::Ace));
    assert_eq!(deck.cards.len(), 37);
    // Reporting the same card again is a no-op.
    deck.card_played(card(Suit::Hearts, Rank::Ace));
    assert_eq!(deck.cards.len(), 37);
}

#[test]
fn remaining_of_suit_filters_the_tracker() {
    let deck = Deck::new(vec![
        card(Suit::Clubs, Rank::Five),
        card(Suit::Hearts, Rank::Nine),
        card(Suit::Clubs, Rank::Seven),
    ]);
    assert_eq!(
        deck.remaining_of_suit(&Suit::Clubs),
        vec![card(Suit::Clubs, Rank::Five), card(Suit::Clubs, Rank::Seven)]
    );
    assert_eq!(deck.remaining_of_suit(&Suit::Spades), vec![]);
}

#[test]
fn deck_master_cards_take_the_highest_of_each_suit() {
    let deck = Deck::new(vec![
        card(Suit::Clubs, Rank::Five),
        card(Suit::Clubs, Rank::Seven),
        card(Suit::Hearts, Rank::Nine),
    ]);
    assert_eq!(
        deck.master_cards(),
        vec![card(Suit::Clubs, Rank::Seven), card(Suit::Hearts, Rank::Nine)]
    );
}

#[test]
fn hand_master_cards_are_the_unbeatable_held_cards() {
    let deck = Deck::new(vec![
        card(Suit::Clubs, Rank::Five),
        card(Suit::Clubs, Rank::Seven),
        card(Suit::Spades, Rank::Ace),
        card(Suit::Spades, Rank::King),
    ]);
    let hand = Hand::new(vec![
        card(Suit::Clubs, Rank::Seven),
        card(Suit::Spades, Rank::King),
    ]);
    assert_eq!(hand.master_cards(&deck), vec![card(Suit::Clubs, Rank::Seven)]);
}

#[test]
fn bids_overwrite_unconditionally_and_zero_is_a_pass() {
    let hand = Hand::new(vec![card(Suit::Spades, Rank::Ace)]);
    let mut game = Game::new(1, hand);
    assert_eq!(game.winning_bid(), None);
    game.player_bid(0, 0);
    game.player_bid(1, 80);
    game.player_bid(2, 0);
    game.player_bid(3, 0);
    assert_eq!(game.bid_record.winner, Some(1));
    assert_eq!(game.winning_bid(), Some(80));
    // A later nonzero bid takes the lead without any monotonicity check.
    game.player_bid(0, 90);
    assert_eq!(game.bid_record.winner, Some(0));
    assert_eq!(game.winning_bid(), Some(90));
    // Even a lower one does.
    game.player_bid(2, 10);
    assert_eq!(game.bid_record.winner, Some(2));
    assert_eq!(game.winning_bid(), Some(10));
}

#[test]
fn team_mate_sits_across_the_table() {
    for me in 0..4 {
        let game = Game::new(me, Hand::new(vec![]));
        assert_eq!(game.team_mate(), (me + 2) % 4);
    }
}

#[test]
fn game_card_played_updates_hand_round_and_deck() {
    let hand = Hand::new(vec![
        card(Suit::Spades, Rank::Ace),
        card(Suit::Hearts, Rank::Five),
    ]);
    let mut game = Game::new(0, hand);
    assert_eq!(game.trump(), None);
    game.card_played(0, card(Suit::Spades, Rank::Ace));
    assert_eq!(game.hand.cards, vec![card(Suit::Hearts, Rank::Five)]);
    assert_eq!(game.deck.cards.len(), 39);
    assert_eq!(game.trump(), Some(Suit::Spades));
    assert_eq!(game.get_current_trick_winner(), Some(0));
    assert_eq!(game.get_current_trick().cards.len(), 1);
}

#[test]
fn game_card_played_for_a_card_not_held_leaves_the_hand_alone() {
    let hand = Hand::new(vec![card(Suit::Spades, Rank::Ace)]);
    let mut game = Game::new(0, hand);
    game.card_played(1, card(Suit::Hearts, Rank::Nine));
    assert_eq!(game.hand.cards, vec![card(Suit::Spades, Rank::Ace)]);
    assert_eq!(game.deck.cards.len(), 39);
}

#[test]
fn game_play_card_only_touches_the_hand() {
    let hand = Hand::new(vec![
        card(Suit::Spades, Rank::Ace),
        card(Suit::Hearts, Rank::Five),
    ]);
    let mut game = Game::new(0, hand);
    game.play_card(card(Suit::Spades, Rank::Ace));
    assert_eq!(game.hand.cards, vec![card(Suit::Hearts, Rank::Five)]);
    assert_eq!(game.deck.cards.len(), 40);
    assert_eq!(game.round.ongoing.cards.len(), 0);
    assert_eq!(game.trump(), None);
}

#[test]
fn game_playable_cards_follow_the_ongoing_trick() {
    let hand = Hand::new(vec![
        card(Suit::Hearts, Rank::Five),
        card(Suit::Spades, Rank::Seven),
    ]);
    let mut game = Game::new(0, hand);
    assert_eq!(game.playable_cards().len(), 2);
    game.card_played(1, card(Suit::Hearts, Rank::Nine));
    assert_eq!(game.playable_cards(), vec![card(Suit::Hearts, Rank::Five)]);
}

#[test]
fn deck_witout_hand_excludes_the_observers_cards() {
    let hand = Hand::new(vec![
        card(Suit::Spades, Rank::Ace),
        card(Suit::Hearts, Rank::Five),
    ]);
    let game = Game::new(0, hand);
    let rest = game.deck_witout_hand();
    assert_eq!(game.deck.cards.len(), 40);
    assert_eq!(rest.cards.len(), 38);
    assert!(!rest.cards.contains(&card(Suit::Spades, Rank::Ace)));
    assert!(!rest.cards.contains(&card(Suit::Hearts, Rank::Five)));
}
