use briscola::card::{Card, Rank, Suit};
use briscola::rollout::{choose_lead_card, choose_reply_card};
use briscola::state::{DeterminizedState, Player};

fn state_with(my_hand: Vec<Card>, talon_len: usize) -> DeterminizedState {
    let mut talon = Vec::new();
    for rank in [Rank::Two, Rank::Four, Rank::Five, Rank::Six, Rank::Seven, Rank::Jack] {
        if talon.len() < talon_len {
            talon.push(Card::new(Suit::Cups, rank));
        }
    }
    DeterminizedState {
        my_hand,
        opp_hand: Vec::new(),
        talon,
        briscola_suit: Suit::Clubs,
        face_up_trump: Card::new(Suit::Clubs, Rank::Seven),
        score_me: 0,
        score_opp: 0,
        leader: Player::Me,
        pending_lead: None,
        pending_lead_by: None,
    }
}

#[test]
fn lead_prefers_weakest_worthless_non_trump() {
    let hand = vec![
        Card::new(Suit::Coins, Rank::Ace),
        Card::new(Suit::Swords, Rank::Six),
        Card::new(Suit::Clubs, Rank::Two),
        Card::new(Suit::Coins, Rank::Four),
    ];
    let state = state_with(hand, 0);
    assert_eq!(choose_lead_card(&state, Player::Me), Card::new(Suit::Coins, Rank::Four));
}

#[test]
fn lead_falls_back_to_cheapest_non_trump_then_any() {
    let hand = vec![
        Card::new(Suit::Coins, Rank::Ace),
        Card::new(Suit::Swords, Rank::Queen),
        Card::new(Suit::Clubs, Rank::Two),
    ];
    let state = state_with(hand, 0);
    assert_eq!(choose_lead_card(&state, Player::Me), Card::new(Suit::Swords, Rank::Queen));

    let trumps = vec![Card::new(Suit::Clubs, Rank::King), Card::new(Suit::Clubs, Rank::Five)];
    let state = state_with(trumps, 0);
    assert_eq!(choose_lead_card(&state, Player::Me), Card::new(Suit::Clubs, Rank::Five));
}

#[test]
fn lead_ties_go_to_first_card_in_hand() {
    let hand = vec![Card::new(Suit::Swords, Rank::Two), Card::new(Suit::Coins, Rank::Two)];
    let state = state_with(hand, 0);
    assert_eq!(choose_lead_card(&state, Player::Me), Card::new(Suit::Swords, Rank::Two));
}

#[test]
fn reply_plays_weakest_winner() {
    let hand = vec![
        Card::new(Suit::Coins, Rank::Ace),
        Card::new(Suit::Coins, Rank::Three),
        Card::new(Suit::Clubs, Rank::Two),
    ];
    let state = state_with(hand, 0);
    let lead = Card::new(Suit::Coins, Rank::King);
    assert_eq!(choose_reply_card(&state, Player::Me, lead), Card::new(Suit::Coins, Rank::Three));
}

#[test]
fn reply_prefers_non_trump_winner() {
    let hand = vec![Card::new(Suit::Clubs, Rank::Two), Card::new(Suit::Coins, Rank::Ace)];
    let lead = Card::new(Suit::Coins, Rank::Four);
    let deep = state_with(hand.clone(), 6);
    assert_eq!(choose_reply_card(&deep, Player::Me, lead), Card::new(Suit::Coins, Rank::Ace));
    let shallow = state_with(hand, 2);
    assert_eq!(choose_reply_card(&shallow, Player::Me, lead), Card::new(Suit::Coins, Rank::Ace));
}

#[test]
fn reply_uses_trump_when_only_trump_wins() {
    let hand = vec![Card::new(Suit::Clubs, Rank::King), Card::new(Suit::Clubs, Rank::Two)];
    let lead = Card::new(Suit::Coins, Rank::Ace);
    let state = state_with(hand, 6);
    assert_eq!(choose_reply_card(&state, Player::Me, lead), Card::new(Suit::Clubs, Rank::Two));
}

#[test]
fn reply_discards_cheapest_when_nothing_wins() {
    let hand = vec![
        Card::new(Suit::Swords, Rank::King),
        Card::new(Suit::Cups, Rank::Five),
        Card::new(Suit::Swords, Rank::Four),
    ];
    let lead = Card::new(Suit::Coins, Rank::Ace);
    let state = state_with(hand, 0);
    assert_eq!(choose_reply_card(&state, Player::Me, lead), Card::new(Suit::Swords, Rank::Four));
}
