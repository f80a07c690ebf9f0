use briscola::card::{
    card_from_index, full_deck, Card, Rank, Suit, FULL_DECK_SIZE, HAND_SIZE, INITIAL_TALON_SIZE,
};

#[test]
fn rank_points_and_power_follow_briscola_rules() {
    assert_eq!(Rank::Ace.points(), 11);
    assert_eq!(Rank::Three.points(), 10);
    assert_eq!(Rank::King.points(), 4);
    assert_eq!(Rank::Queen.points(), 3);
    assert_eq!(Rank::Jack.points(), 2);
    assert_eq!(Rank::Seven.points(), 0);

    assert!(Rank::Ace.power() > Rank::Three.power());
    assert!(Rank::Three.power() > Rank::King.power());
    assert!(Rank::King.power() > Rank::Queen.power());
    assert!(Rank::Queen.power() > Rank::Jack.power());
    assert!(Rank::Jack.power() > Rank::Seven.power());
    assert!(Rank::Seven.power() > Rank::Six.power());
    assert!(Rank::Six.power() > Rank::Five.power());
    assert!(Rank::Five.power() > Rank::Four.power());
    assert!(Rank::Four.power() > Rank::Two.power());
}

#[test]
fn card_index_round_trip_and_full_deck_size() {
    let deck = full_deck();
    assert_eq!(deck.len(), FULL_DECK_SIZE);

    for card in deck {
        let reconstructed = card_from_index(card.index()).expect("valid index");
        assert_eq!(card, reconstructed);
    }
}

#[test]
fn deck_sizes_are_consistent() {
    assert_eq!(FULL_DECK_SIZE, 40);
    assert_eq!(HAND_SIZE, 3);
    assert_eq!(INITIAL_TALON_SIZE, 33);
}

#[test]
fn full_deck_points_sum_to_120() {
    let total: u32 = full_deck().iter().map(|c| u32::from(c.rank.points())).sum();
    assert_eq!(total, 120);
}

#[test]
fn card_index_is_suit_major() {
    assert_eq!(Card::new(Suit::Coins, Rank::Ace).index(), 0);
    assert_eq!(Card::new(Suit::Cups, Rank::Two).index(), 11);
    assert_eq!(Card::new(Suit::Swords, Rank::Jack).index(), 27);
    assert_eq!(Card::new(Suit::Clubs, Rank::King).index(), 39);
    assert_eq!(Suit::Clubs.index(), 3);
    assert_eq!(Rank::Queen.deck_index(), 8);
}

#[test]
fn card_from_index_rejects_out_of_range() {
    assert_eq!(card_from_index(40), None);
    assert_eq!(card_from_index(usize::MAX), None);
    assert_eq!(card_from_index(39), Some(Card::new(Suit::Clubs, Rank::King)));
}

#[test]
fn deck_is_in_canonical_order_without_duplicates() {
    let deck = full_deck();
    for (i, card) in deck.iter().enumerate() {
        assert_eq!(card.index(), i);
    }
    assert_eq!(Suit::all(), [Suit::Coins, Suit::Cups, Suit::Swords, Suit::Clubs]);
    assert_eq!(Rank::all()[0], Rank::Ace);
    assert_eq!(Rank::all()[9], Rank::King);
}

#[test]
fn low_cards_score_nothing_and_power_is_exact() {
    for rank in [Rank::Two, Rank::Four, Rank::Five, Rank::Six, Rank::Seven] {
        assert_eq!(rank.points(), 0);
    }
    assert_eq!(Rank::Ace.power(), 9);
    assert_eq!(Rank::Two.power(), 0);
}
