use briscola::bitset::{card_mask, FULL_MASK};
use briscola::card::{Card, Rank, Suit};
use briscola::mc::{choose_best_move, MonteCarloConfig, MonteCarloError};
use briscola::rng::FastRng;
use briscola::state::{Player, PublicGameState};

fn end_state() -> (PublicGameState, Card, Card) {
    let winning = Card::new(Suit::Coins, Rank::Ace);
    let losing = Card::new(Suit::Swords, Rank::Two);
    let hidden = Card::new(Suit::Clubs, Rank::King);
    let opp_played = Card::new(Suit::Coins, Rank::King);
    let trump = Card::new(Suit::Clubs, Rank::Four);

    let public = PublicGameState {
        my_hand: vec![winning, losing],
        opp_played: Some(opp_played),
        briscola_suit: Suit::Clubs,
        talon_len: 0,
        last_face_up_trump: trump,
        seen_cards: FULL_MASK & !card_mask(hidden),
        score_me: 50,
        score_opp: 48,
        leader: Player::Opponent,
    };
    (public, winning, losing)
}

#[test]
fn follower_prefers_winning_card_in_deterministic_end_state() {
    let (public, winning, _) = end_state();

    let mut rng = FastRng::new(13);
    let result = choose_best_move(&public, &mut rng, MonteCarloConfig { samples_per_move: 8 })
        .expect("choose move");

    assert_eq!(result.best_move, winning);
}

#[test]
fn move_statistics_are_exact_in_a_deterministic_end_state() {
    let (public, winning, losing) = end_state();
    let mut rng = FastRng::new(13);
    let result = choose_best_move(&public, &mut rng, MonteCarloConfig { samples_per_move: 8 })
        .expect("choose move");
    assert_eq!(result.moves.len(), 2);
    // Winning reply: +15 then the opponent's trump king takes the last 4: 65-52.
    assert_eq!(result.moves[0].card, winning);
    assert_eq!(result.moves[0].win_score_sum, 16);
    assert_eq!(result.moves[0].score_delta_sum, 8 * 13);
    assert_eq!(result.moves[0].n_samples, 8);
    // Losing reply: the opponent takes 4 and then my ace with trump: 50-67.
    assert_eq!(result.moves[1].card, losing);
    assert_eq!(result.moves[1].win_score_sum, 0);
    assert_eq!(result.moves[1].score_delta_sum, 8 * -17);
    assert_eq!(result.moves[1].n_samples, 8);
}

#[test]
fn zero_samples_are_clamped_to_one() {
    let (public, winning, _) = end_state();
    let mut rng = FastRng::new(1);
    let result = choose_best_move(&public, &mut rng, MonteCarloConfig { samples_per_move: 0 })
        .expect("choose move");
    assert_eq!(result.best_move, winning);
    assert!(result.moves.iter().all(|m| m.n_samples == 1));
}

#[test]
fn empty_hand_has_no_legal_moves() {
    let (mut public, _, _) = end_state();
    public.my_hand.clear();
    let mut rng = FastRng::new(1);
    let result = choose_best_move(&public, &mut rng, MonteCarloConfig { samples_per_move: 4 });
    assert!(matches!(result, Err(MonteCarloError::NoLegalMoves)));
}

#[test]
fn leading_out_of_turn_is_rejected() {
    let (mut public, _, _) = end_state();
    public.opp_played = None;
    public.leader = Player::Opponent;
    let mut rng = FastRng::new(1);
    let result = choose_best_move(&public, &mut rng, MonteCarloConfig { samples_per_move: 4 });
    assert!(matches!(result, Err(MonteCarloError::NotMyTurn)));
}

#[test]
fn inconsistent_public_state_fails_to_determinize() {
    let (mut public, _, _) = end_state();
    public.seen_cards = FULL_MASK;
    public.talon_len = 2;
    let mut rng = FastRng::new(1);
    let result = choose_best_move(&public, &mut rng, MonteCarloConfig { samples_per_move: 4 });
    assert!(matches!(result, Err(MonteCarloError::DeterminizeFailed)));
}

#[test]
fn ranking_is_sorted_by_win_rate_then_delta() {
    let public = PublicGameState {
        my_hand: vec![
            Card::new(Suit::Cups, Rank::Two),
            Card::new(Suit::Coins, Rank::Ace),
            Card::new(Suit::Clubs, Rank::Three),
        ],
        opp_played: None,
        briscola_suit: Suit::Clubs,
        talon_len: 20,
        last_face_up_trump: Card::new(Suit::Clubs, Rank::Jack),
        seen_cards: 0,
        score_me: 10,
        score_opp: 20,
        leader: Player::Me,
    };
    let mut rng = FastRng::new(77);
    let result = choose_best_move(&public, &mut rng, MonteCarloConfig { samples_per_move: 16 })
        .expect("choose move");
    assert_eq!(result.moves.len(), 3);
    assert_eq!(result.best_move, result.moves[0].card);
    for pair in result.moves.windows(2) {
        let (a, b) = (pair[0], pair[1]);
        let lhs = a.win_score_sum * b.n_samples as u128;
        let rhs = b.win_score_sum * a.n_samples as u128;
        assert!(lhs >= rhs);
        if lhs == rhs {
            assert!(a.score_delta_sum * b.n_samples as i128 >= b.score_delta_sum * a.n_samples as i128);
        }
    }
    for card in &public.my_hand {
        assert!(result.moves.iter().any(|m| m.card == *card));
    }
}

#[test]
fn ranked_moves_are_a_permutation_of_the_hand_within_bounds() {
    let hand = vec![
        Card::new(Suit::Cups, Rank::Two),
        Card::new(Suit::Coins, Rank::Ace),
        Card::new(Suit::Clubs, Rank::Three),
    ];
    let public = PublicGameState {
        my_hand: hand.clone(),
        opp_played: None,
        briscola_suit: Suit::Clubs,
        talon_len: 20,
        last_face_up_trump: Card::new(Suit::Clubs, Rank::Jack),
        seen_cards: 0,
        score_me: 0,
        score_opp: 0,
        leader: Player::Me,
    };
    let mut rng = FastRng::new(5);
    let result = choose_best_move(&public, &mut rng, MonteCarloConfig { samples_per_move: 6 })
        .expect("choose move");
    let mut ranked: Vec<usize> = result.moves.iter().map(|m| m.card.index()).collect();
    let mut cards: Vec<usize> = hand.iter().map(|c| c.index()).collect();
    ranked.sort();
    cards.sort();
    assert_eq!(ranked, cards);
    for m in &result.moves {
        assert!(m.n_samples >= 1 && m.n_samples <= 6);
        assert!(m.win_score_sum <= 2 * m.n_samples as u128);
    }
}
