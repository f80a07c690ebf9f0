use briscola::card::{Card, Rank, Suit};
use briscola::state::{DeterminizedState, Player, PublicGameState, StateError};

fn two_card_state() -> DeterminizedState {
    DeterminizedState {
        my_hand: vec![Card::new(Suit::Coins, Rank::Ace), Card::new(Suit::Cups, Rank::Two)],
        opp_hand: vec![Card::new(Suit::Swords, Rank::Two), Card::new(Suit::Clubs, Rank::Three)],
        talon: vec![Card::new(Suit::Cups, Rank::Four), Card::new(Suit::Cups, Rank::Five)],
        briscola_suit: Suit::Clubs,
        face_up_trump: Card::new(Suit::Clubs, Rank::King),
        score_me: 0,
        score_opp: 0,
        leader: Player::Me,
        pending_lead: None,
        pending_lead_by: None,
    }
}

#[test]
fn legal_moves_allow_any_card() {
    let state = PublicGameState {
        my_hand: vec![
            Card::new(Suit::Coins, Rank::Ace),
            Card::new(Suit::Clubs, Rank::Two),
            Card::new(Suit::Swords, Rank::King),
        ],
        opp_played: None,
        briscola_suit: Suit::Clubs,
        talon_len: 20,
        last_face_up_trump: Card::new(Suit::Clubs, Rank::Four),
        seen_cards: 0,
        score_me: 0,
        score_opp: 0,
        leader: Player::Me,
    };

    let legal = state.legal_moves();
    assert_eq!(legal.len(), 3);
    assert!(legal.contains(&Card::new(Suit::Coins, Rank::Ace)));
    assert!(legal.contains(&Card::new(Suit::Clubs, Rank::Two)));
    assert!(legal.contains(&Card::new(Suit::Swords, Rank::King)));
}

#[test]
fn draws_face_up_trump_as_last_card() {
    let mut state = DeterminizedState {
        my_hand: vec![Card::new(Suit::Coins, Rank::Ace)],
        opp_hand: vec![Card::new(Suit::Swords, Rank::Two)],
        talon: vec![Card::new(Suit::Cups, Rank::Four)],
        briscola_suit: Suit::Clubs,
        face_up_trump: Card::new(Suit::Clubs, Rank::King),
        score_me: 0,
        score_opp: 0,
        leader: Player::Me,
        pending_lead: None,
        pending_lead_by: None,
    };

    state
        .play_lead_card(Player::Me, Card::new(Suit::Coins, Rank::Ace))
        .expect("lead should work");

    state
        .play_reply_card(Player::Opponent, Card::new(Suit::Swords, Rank::Two))
        .expect("reply should resolve");

    assert_eq!(state.talon.len(), 0);
    assert!(state.my_hand.contains(&Card::new(Suit::Cups, Rank::Four)));
    assert!(state.opp_hand.contains(&Card::new(Suit::Clubs, Rank::King)));
}

#[test]
fn player_other_swaps_roles() {
    assert_eq!(Player::Me.other(), Player::Opponent);
    assert_eq!(Player::Opponent.other(), Player::Me);
}

#[test]
fn lead_out_of_turn_is_rejected_and_changes_nothing() {
    let mut state = two_card_state();
    let err = state.play_lead_card(Player::Opponent, Card::new(Suit::Swords, Rank::Two));
    assert_eq!(err, Err(StateError::InvalidTurn));
    assert_eq!(state.opp_hand.len(), 2);
    assert_eq!(state.pending_lead, None);
}

#[test]
fn lead_with_card_not_in_hand_is_rejected() {
    let mut state = two_card_state();
    let err = state.play_lead_card(Player::Me, Card::new(Suit::Swords, Rank::Two));
    assert_eq!(err, Err(StateError::CardNotInHand));
    assert_eq!(state.my_hand.len(), 2);
}

#[test]
fn second_lead_while_pending_is_invalid_turn() {
    let mut state = two_card_state();
    state.play_lead_card(Player::Me, Card::new(Suit::Coins, Rank::Ace)).expect("lead");
    let err = state.play_lead_card(Player::Me, Card::new(Suit::Cups, Rank::Two));
    assert_eq!(err, Err(StateError::InvalidTurn));
}

#[test]
fn reply_without_lead_is_missing_lead() {
    let mut state = two_card_state();
    let err = state.play_reply_card(Player::Opponent, Card::new(Suit::Swords, Rank::Two));
    assert_eq!(err, Err(StateError::MissingLead));
    assert_eq!(state.opp_hand.len(), 2);
}

#[test]
fn leader_cannot_reply_to_own_lead() {
    let mut state = two_card_state();
    state.play_lead_card(Player::Me, Card::new(Suit::Coins, Rank::Ace)).expect("lead");
    let err = state.play_reply_card(Player::Me, Card::new(Suit::Cups, Rank::Two));
    assert_eq!(err, Err(StateError::InvalidTurn));
    assert_eq!(state.my_hand.len(), 1);
}

#[test]
fn reply_with_card_not_in_hand_is_rejected() {
    let mut state = two_card_state();
    state.play_lead_card(Player::Me, Card::new(Suit::Coins, Rank::Ace)).expect("lead");
    let err = state.play_reply_card(Player::Opponent, Card::new(Suit::Coins, Rank::Two));
    assert_eq!(err, Err(StateError::CardNotInHand));
    assert_eq!(state.pending_lead, Some(Card::new(Suit::Coins, Rank::Ace)));
}

#[test]
fn trump_reply_wins_and_winner_draws_first() {
    let mut state = two_card_state();
    state.play_lead_card(Player::Me, Card::new(Suit::Coins, Rank::Ace)).expect("lead");
    let outcome = state
        .play_reply_card(Player::Opponent, Card::new(Suit::Clubs, Rank::Three))
        .expect("reply");
    assert_eq!(outcome.winner, Player::Opponent);
    assert_eq!(outcome.trick_points, 21);
    assert_eq!(state.score_opp, 21);
    assert_eq!(state.score_me, 0);
    assert_eq!(state.leader, Player::Opponent);
    assert_eq!(state.pending_lead, None);
    assert_eq!(state.pending_lead_by, None);
    assert_eq!(
        state.opp_hand,
        vec![Card::new(Suit::Swords, Rank::Two), Card::new(Suit::Cups, Rank::Four)]
    );
    assert_eq!(
        state.my_hand,
        vec![Card::new(Suit::Cups, Rank::Two), Card::new(Suit::Cups, Rank::Five)]
    );
    assert!(state.talon.is_empty());
    assert!(!state.is_terminal());
}

#[test]
fn points_are_conserved_over_a_full_hand() {
    let mut state = two_card_state();
    let mut tricks = 0;
    while !state.is_terminal() {
        let leader = state.leader;
        let lead = state.hand(leader)[0];
        state.play_lead_card(leader, lead).expect("lead");
        let follower = leader.other();
        let reply = state.hand(follower)[0];
        state.play_reply_card(follower, reply).expect("reply");
        tricks += 1;
    }
    assert_eq!(tricks, 3);
    // With an even talon the face-up trump is never drawn: A(11) + 3(10).
    assert_eq!(u16::from(state.score_me) + u16::from(state.score_opp), 21);
}

#[test]
fn scores_saturate_at_u8_max() {
    let mut state = two_card_state();
    state.score_opp = 250;
    state.play_lead_card(Player::Me, Card::new(Suit::Coins, Rank::Ace)).expect("lead");
    state.play_reply_card(Player::Opponent, Card::new(Suit::Clubs, Rank::Three)).expect("reply");
    assert_eq!(state.score_opp, 255);
}

#[test]
fn determinized_legal_moves_and_hand_match() {
    let state = two_card_state();
    assert_eq!(state.legal_moves(Player::Me), state.my_hand);
    assert_eq!(state.hand(Player::Opponent), state.opp_hand.as_slice());
}
