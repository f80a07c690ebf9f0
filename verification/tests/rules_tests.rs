use briscola::bitset::{card_mask, contains, FULL_MASK};
use briscola::card::{full_deck, Card, Rank, Suit};
use briscola::rules::{trick_points, trick_winner, TrickWinner};

#[test]
fn trick_winner_follows_briscola_rules() {
    let briscola = Suit::Clubs;
    let lead = Card::new(Suit::Coins, Rank::King);
    let reply = Card::new(Suit::Coins, Rank::Ace);
    assert_eq!(trick_winner(lead, reply, briscola), TrickWinner::Follower);

    let lead = Card::new(Suit::Swords, Rank::Ace);
    let reply = Card::new(Suit::Clubs, Rank::Two);
    assert_eq!(trick_winner(lead, reply, briscola), TrickWinner::Follower);

    let lead = Card::new(Suit::Clubs, Rank::Four);
    let reply = Card::new(Suit::Coins, Rank::Ace);
    assert_eq!(trick_winner(lead, reply, briscola), TrickWinner::Leader);

    let lead = Card::new(Suit::Cups, Rank::Seven);
    let reply = Card::new(Suit::Coins, Rank::Ace);
    assert_eq!(trick_winner(lead, reply, briscola), TrickWinner::Leader);
}

#[test]
fn trump_beats_non_trump_in_either_seat() {
    let briscola = Suit::Cups;
    let trump = Card::new(Suit::Cups, Rank::Two);
    let other = Card::new(Suit::Swords, Rank::Ace);
    assert_eq!(trick_winner(trump, other, briscola), TrickWinner::Leader);
    assert_eq!(trick_winner(other, trump, briscola), TrickWinner::Follower);
}

#[test]
fn lower_card_of_led_suit_loses_to_leader() {
    let lead = Card::new(Suit::Swords, Rank::Three);
    let reply = Card::new(Suit::Swords, Rank::King);
    assert_eq!(trick_winner(lead, reply, Suit::Clubs), TrickWinner::Leader);
    let lead = Card::new(Suit::Clubs, Rank::Three);
    let reply = Card::new(Suit::Clubs, Rank::Ace);
    assert_eq!(trick_winner(lead, reply, Suit::Clubs), TrickWinner::Follower);
}

#[test]
fn trick_points_add_both_cards() {
    let a = Card::new(Suit::Coins, Rank::Ace);
    let b = Card::new(Suit::Cups, Rank::Three);
    assert_eq!(trick_points(a, b), 21);
    let c = Card::new(Suit::Cups, Rank::Ace);
    assert_eq!(trick_points(a, c), 22);
    let d = Card::new(Suit::Cups, Rank::Six);
    assert_eq!(trick_points(d, Card::new(Suit::Clubs, Rank::Queen)), 3);
}

#[test]
fn bitset_masks_track_cards() {
    let card = Card::new(Suit::Swords, Rank::Five);
    assert_eq!(card_mask(card), 1u64 << 24);
    let mask = briscola::bitset::add(0, card);
    assert!(contains(mask, card));
    assert!(!contains(mask, Card::new(Suit::Swords, Rank::Six)));
    assert_eq!(briscola::bitset::add(mask, card), mask);
    assert_eq!(FULL_MASK, (1u64 << 40) - 1);
    for c in full_deck() {
        assert!(contains(FULL_MASK, c));
        assert!(!contains(0, c));
    }
}
