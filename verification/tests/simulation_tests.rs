use briscola::simulation::{
    simulate_game, simulate_game_with_options, GameWinner, MePolicy, SimulationOptions,
};

#[test]
fn simulation_completes_with_20_tricks_and_120_points() {
    let result = simulate_game(42);
    assert!(result.is_ok());

    let Ok(log) = result else {
        return;
    };

    assert_eq!(log.tricks.len(), 20);
    assert_eq!(u16::from(log.final_score_me) + u16::from(log.final_score_opp), 120);
}

#[test]
fn simulation_is_deterministic_for_same_seed() {
    let first = simulate_game(7);
    let second = simulate_game(7);
    assert!(first.is_ok());
    assert!(second.is_ok());

    let Ok(first_log) = first else {
        return;
    };
    let Ok(second_log) = second else {
        return;
    };

    assert_eq!(first_log, second_log);
}

#[test]
fn winner_matches_final_score_relation() {
    let result = simulate_game(99);
    assert!(result.is_ok());

    let Ok(log) = result else {
        return;
    };

    match log.final_score_me.cmp(&log.final_score_opp) {
        std::cmp::Ordering::Greater => assert_eq!(log.winner, GameWinner::Me),
        std::cmp::Ordering::Less => assert_eq!(log.winner, GameWinner::Opponent),
        std::cmp::Ordering::Equal => assert_eq!(log.winner, GameWinner::Draw),
    }
}

#[test]
fn best_move_policy_simulation_completes() {
    let result = simulate_game_with_options(
        42,
        SimulationOptions { me_policy: MePolicy::BestMove, samples_per_move: 128 },
    );
    assert!(result.is_ok());

    let Ok(log) = result else {
        return;
    };

    assert_eq!(log.tricks.len(), 20);
    assert_eq!(u16::from(log.final_score_me) + u16::from(log.final_score_opp), 120);
}

#[test]
fn default_options_use_heuristic_policy() {
    let options = SimulationOptions::default();
    assert_eq!(options.me_policy, MePolicy::Heuristic);
    assert_eq!(options.samples_per_move, 128);
    assert_eq!(simulate_game_with_options(5, options), simulate_game(5));
}

#[test]
fn every_seed_plays_a_full_consistent_game() {
    for seed in 0..40u64 {
        let log = simulate_game(seed).expect("simulation");
        assert_eq!(log.seed, seed);
        assert_eq!(log.tricks.len(), 20);
        assert_eq!(log.initial_my_hand.len(), 3);
        assert_eq!(log.initial_opp_hand.len(), 3);
        assert_eq!(log.face_up_trump.suit, log.briscola_suit);
        let mut me = 0u16;
        let mut opp = 0u16;
        for (i, trick) in log.tricks.iter().enumerate() {
            assert_eq!(trick.number, i + 1);
            assert_eq!(trick.follower, trick.leader.other());
            match trick.winner {
                briscola::state::Player::Me => me += u16::from(trick.trick_points),
                briscola::state::Player::Opponent => opp += u16::from(trick.trick_points),
            }
            assert_eq!(u16::from(trick.score_me), me);
            assert_eq!(u16::from(trick.score_opp), opp);
            if i > 0 {
                assert_eq!(trick.leader, log.tricks[i - 1].winner);
            }
        }
        assert_eq!(u16::from(log.final_score_me), me);
        assert_eq!(u16::from(log.final_score_opp), opp);
        assert_eq!(me + opp, 120);
        let last = log.tricks.last().expect("last trick");
        assert_eq!((last.my_hand_len, last.opp_hand_len, last.talon_len), (0, 0, 0));
    }
}

#[test]
fn small_sample_best_move_games_also_total_120() {
    for seed in [1u64, 2, 3] {
        let log = simulate_game_with_options(
            seed,
            SimulationOptions { me_policy: MePolicy::BestMove, samples_per_move: 4 },
        )
        .expect("simulation");
        assert_eq!(log.tricks.len(), 20);
        assert_eq!(u16::from(log.final_score_me) + u16::from(log.final_score_opp), 120);
    }
}

#[test]
fn heuristic_simulation_succeeds_for_many_seeds() {
    for seed in [0u64, 1, 2, 1000, u64::MAX, 0x9E37_79B9_7F4A_7C15] {
        assert!(simulate_game(seed).is_ok());
    }
}
