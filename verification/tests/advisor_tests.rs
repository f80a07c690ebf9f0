use briscola::advisor::{
    all_cards_except, format_card, my_draw_needed, parse_card, parse_card_list, parse_player,
    parse_suit, resolve_trick_cards, suggest_from_json_input, InteractiveInit, InteractiveSession,
    JsonSuggestionInput, JsonTrick, SessionError,
};
use briscola::card::{full_deck, Card, Rank, Suit};
use briscola::rng::FastRng;
use briscola::state::Player;

#[test]
fn parse_card_supports_compact_and_colon_formats() {
    assert_eq!(parse_card("oA").ok(), Some(Card::new(Suit::Coins, Rank::Ace)));
    assert_eq!(parse_card("🪙A").ok(), Some(Card::new(Suit::Coins, Rank::Ace)));
    assert_eq!(parse_card("⚔️7").ok(), Some(Card::new(Suit::Swords, Rank::Seven)));
    assert_eq!(parse_card("clubs:K").ok(), Some(Card::new(Suit::Clubs, Rank::King)));
    assert!(parse_card("bad").is_err());
}

fn end_state_input(seen_cards: Vec<String>) -> JsonSuggestionInput {
    let winning = Card::new(Suit::Coins, Rank::Ace);
    let losing = Card::new(Suit::Swords, Rank::Two);
    let opp_played = Card::new(Suit::Coins, Rank::King);
    let face_up = Card::new(Suit::Clubs, Rank::Four);
    JsonSuggestionInput {
        briscola_suit: String::from("clubs"),
        face_up_trump: format_card(face_up),
        my_hand: vec![format_card(winning), format_card(losing)],
        opp_played: Some(format_card(opp_played)),
        talon_len: 0,
        score_me: 50,
        score_opp: 48,
        leader: String::from("opponent"),
        history: Vec::new(),
        seen_cards,
        samples_per_move: Some(32),
        seed: Some(13),
    }
}

#[test]
fn suggest_from_json_returns_legal_card() {
    let winning = Card::new(Suit::Coins, Rank::Ace);
    let losing = Card::new(Suit::Swords, Rank::Two);
    let opp_played = Card::new(Suit::Coins, Rank::King);
    let face_up = Card::new(Suit::Clubs, Rank::Four);
    let hidden = Card::new(Suit::Clubs, Rank::Ace);

    let mut seen_cards = Vec::new();
    for card in all_cards_except(&[winning, losing, hidden]) {
        seen_cards.push(format_card(card));
    }

    let input = JsonSuggestionInput {
        briscola_suit: String::from("clubs"),
        face_up_trump: format_card(face_up),
        my_hand: vec![format_card(winning), format_card(losing)],
        opp_played: Some(format_card(opp_played)),
        talon_len: 0,
        score_me: 50,
        score_opp: 48,
        leader: String::from("opponent"),
        history: Vec::new(),
        seen_cards,
        samples_per_move: Some(32),
        seed: Some(13),
    };

    let result = suggest_from_json_input(&input, None, None);
    assert!(result.is_ok());

    let Ok(best) = result else {
        return;
    };

    assert_eq!(best.best_move, winning);
}

#[test]
fn parse_errors_name_the_bad_token() {
    assert_eq!(parse_card("   "), Err(String::from("empty card string")));
    assert_eq!(parse_card("xyz"), Err(String::from("invalid card notation 'xyz'")));
    assert_eq!(parse_card(" xyz "), Err(String::from("invalid card notation 'xyz'")));
    assert_eq!(parse_card("oZ"), Err(String::from("invalid rank 'Z'")));
    assert_eq!(parse_card("bad"), Err(String::from("invalid rank 'ad'")));
    assert_eq!(parse_card("x:A"), Err(String::from("invalid suit 'x'")));
    assert_eq!(parse_suit("x"), Err(String::from("invalid suit 'x'")));
    assert_eq!(parse_player("zz"), Err(String::from("invalid player 'zz' (use me/opponent)")));
}

#[test]
fn parse_accepts_names_in_any_case() {
    assert_eq!(parse_suit(" Denari "), Ok(Suit::Coins));
    assert_eq!(parse_suit("COPPE"), Ok(Suit::Cups));
    assert_eq!(parse_suit("⚔"), Ok(Suit::Swords));
    assert_eq!(parse_suit("🪄"), Ok(Suit::Clubs));
    assert_eq!(parse_player(" Opp "), Ok(Player::Opponent));
    assert_eq!(parse_player("PLAYER"), Ok(Player::Me));
    assert_eq!(parse_card("bastoni : Fante"), Ok(Card::new(Suit::Clubs, Rank::Jack)));
    assert_eq!(parse_card("u re"), Ok(Card::new(Suit::Cups, Rank::King)));
    assert_eq!(parse_card("dQ"), Ok(Card::new(Suit::Coins, Rank::Queen)));
    assert_eq!(parse_card("spade:asso"), Ok(Card::new(Suit::Swords, Rank::Ace)));
}

#[test]
fn format_and_parse_round_trip_for_every_card() {
    for card in full_deck() {
        let text = format_card(card);
        assert_eq!(parse_card(&text), Ok(card));
    }
    assert_eq!(format_card(Card::new(Suit::Cups, Rank::Jack)), "🏆J");
    assert_eq!(format_card(Card::new(Suit::Swords, Rank::Two)), "⚔️2");
}

#[test]
fn parse_card_list_stops_at_first_error() {
    let items = vec![String::from("oA"), String::from("c7")];
    assert_eq!(
        parse_card_list(&items),
        Ok(vec![Card::new(Suit::Coins, Rank::Ace), Card::new(Suit::Clubs, Rank::Seven)])
    );
    let bad = vec![String::from("oA"), String::from("q1"), String::from("zz")];
    assert_eq!(parse_card_list(&bad), Err(String::from("invalid card notation 'q1'")));
    assert_eq!(parse_card_list(&[]), Ok(Vec::new()));
}

#[test]
fn all_cards_except_keeps_deck_order() {
    let excluded = [Card::new(Suit::Coins, Rank::Ace), Card::new(Suit::Clubs, Rank::King)];
    let rest = all_cards_except(&excluded);
    assert_eq!(rest.len(), 38);
    assert_eq!(rest[0], Card::new(Suit::Coins, Rank::Two));
    assert_eq!(rest[37], Card::new(Suit::Clubs, Rank::Queen));
    assert_eq!(all_cards_except(&[]), full_deck());
}

#[test]
fn json_suggestion_errors() {
    let mut input = end_state_input(Vec::new());
    input.face_up_trump = String::from("oA");
    assert_eq!(
        suggest_from_json_input(&input, None, None).err(),
        Some(String::from("face_up_trump suit must match briscola_suit"))
    );

    let mut input = end_state_input(Vec::new());
    input.my_hand = Vec::new();
    assert_eq!(
        suggest_from_json_input(&input, None, None).err(),
        Some(String::from("my_hand must contain 1 to 3 cards"))
    );

    let mut input = end_state_input(Vec::new());
    input.leader = String::from("nobody");
    assert_eq!(
        suggest_from_json_input(&input, None, None).err(),
        Some(String::from("invalid player 'nobody' (use me/opponent)"))
    );

    let mut input = end_state_input(Vec::new());
    input.history = vec![JsonTrick { lead: String::from("oA"), reply: String::from("??") }];
    assert_eq!(
        suggest_from_json_input(&input, None, None).err(),
        Some(String::from("invalid card notation '??'"))
    );

    let mut input = end_state_input(Vec::new());
    input.opp_played = None;
    assert_eq!(
        suggest_from_json_input(&input, None, None).err(),
        Some(String::from("suggestion failed: NotMyTurn"))
    );

    let mut input = end_state_input(Vec::new());
    input.talon_len = 40;
    assert_eq!(
        suggest_from_json_input(&input, None, None).err(),
        Some(String::from("suggestion failed: DeterminizeFailed"))
    );
}

#[test]
fn json_overrides_take_precedence() {
    let hidden = Card::new(Suit::Clubs, Rank::Ace);
    let mut seen = Vec::new();
    for card in all_cards_except(&[hidden]) {
        seen.push(format_card(card));
    }
    let input = end_state_input(seen);
    let best = suggest_from_json_input(&input, Some(3), Some(99)).expect("suggestion");
    assert!(best.moves.iter().all(|m| m.n_samples == 3));
    let best = suggest_from_json_input(&input, Some(0), None).expect("suggestion");
    assert!(best.moves.iter().all(|m| m.n_samples == 1));
    let best = suggest_from_json_input(&input, None, None).expect("suggestion");
    assert!(best.moves.iter().all(|m| m.n_samples == 32));
}

fn init(leader: Player, talon_len: usize) -> InteractiveInit {
    InteractiveInit {
        briscola_suit: Suit::Clubs,
        face_up_trump: Card::new(Suit::Clubs, Rank::Four),
        leader,
        talon_len,
        score_me: 0,
        score_opp: 0,
    }
}

#[test]
fn session_setup_is_validated() {
    let hand = vec![Card::new(Suit::Coins, Rank::Ace)];
    let mut bad = init(Player::Me, 10);
    bad.face_up_trump = Card::new(Suit::Coins, Rank::Four);
    assert_eq!(InteractiveSession::new(bad, hand.clone()).err(), Some(SessionError::InvalidSetup));
    assert_eq!(
        InteractiveSession::new(init(Player::Me, 10), Vec::new()).err(),
        Some(SessionError::InvalidSetup)
    );
    let four = vec![
        Card::new(Suit::Coins, Rank::Ace),
        Card::new(Suit::Coins, Rank::Two),
        Card::new(Suit::Coins, Rank::Three),
        Card::new(Suit::Coins, Rank::Four),
    ];
    assert_eq!(InteractiveSession::new(init(Player::Me, 10), four).err(), Some(SessionError::InvalidSetup));
    assert_eq!(
        InteractiveSession::new(init(Player::Me, 34), hand.clone()).err(),
        Some(SessionError::InvalidSetup)
    );
    let session = InteractiveSession::new(init(Player::Me, 33), hand.clone()).expect("session");
    assert_eq!(session.my_hand(), hand.as_slice());
    assert_eq!(session.trick_number(), 1);
    assert_eq!(session.talon_len(), 33);
    assert_eq!(session.leader(), Player::Me);
    assert!(!session.game_over());
}

#[test]
fn session_turns_track_scores_and_draws() {
    let hand = vec![
        Card::new(Suit::Coins, Rank::Ace),
        Card::new(Suit::Cups, Rank::Two),
        Card::new(Suit::Swords, Rank::King),
    ];
    let mut session = InteractiveSession::new(init(Player::Me, 3), hand).expect("session");

    // I lead the coin ace, the opponent answers low: I win 11 and draw.
    let drawn = Card::new(Suit::Cups, Rank::Three);
    let result = session
        .apply_turn(None, Card::new(Suit::Coins, Rank::Ace), Some(Card::new(Suit::Coins, Rank::Two)), Some(drawn))
        .expect("turn");
    assert_eq!(result.winner, Player::Me);
    assert_eq!(result.points, 11);
    assert_eq!((result.score_me, result.score_opp, result.talon_len), (11, 0, 1));
    assert_eq!(session.trick_number(), 2);
    assert!(session.my_hand().contains(&drawn));
    assert_eq!(session.my_hand().len(), 3);

    // Last draw: I lead low, the opponent trumps and wins; I take the face-up trump.
    assert_eq!(session.leader(), Player::Me);
    let result = session
        .apply_turn(None, Card::new(Suit::Cups, Rank::Two), Some(Card::new(Suit::Clubs, Rank::Ace)), None)
        .expect("turn");
    assert_eq!(result.winner, Player::Opponent);
    assert_eq!((result.score_me, result.score_opp, result.talon_len), (11, 11, 0));
    assert!(session.my_hand().contains(&Card::new(Suit::Clubs, Rank::Four)));
    assert_eq!(session.leader(), Player::Opponent);
}

#[test]
fn session_rejects_bad_moves_and_draws() {
    let hand = vec![Card::new(Suit::Coins, Rank::Ace), Card::new(Suit::Cups, Rank::Two)];
    let mut session = InteractiveSession::new(init(Player::Me, 10), hand).expect("session");
    let missing = Card::new(Suit::Swords, Rank::Six);
    assert_eq!(session.apply_turn(None, missing, Some(Card::new(Suit::Cups, Rank::Five)), None).err(), Some(SessionError::InvalidMove));
    assert_eq!(
        session.apply_turn(None, Card::new(Suit::Coins, Rank::Ace), None, None).err(),
        Some(SessionError::InvalidMove)
    );
    assert_eq!(session.my_hand().len(), 2);
    assert_eq!(session.trick_number(), 1);
    // Drawing a card that was already seen is refused.
    assert_eq!(
        session
            .apply_turn(None, Card::new(Suit::Coins, Rank::Ace), Some(Card::new(Suit::Coins, Rank::Two)), Some(Card::new(Suit::Clubs, Rank::Four)))
            .err(),
        Some(SessionError::InvalidDraw)
    );
}

#[test]
fn session_missing_draw_is_invalid() {
    let hand = vec![Card::new(Suit::Coins, Rank::Ace)];
    let mut session = InteractiveSession::new(init(Player::Me, 10), hand).expect("session");
    assert_eq!(
        session
            .apply_turn(None, Card::new(Suit::Coins, Rank::Ace), Some(Card::new(Suit::Coins, Rank::Two)), None)
            .err(),
        Some(SessionError::InvalidDraw)
    );
}

#[test]
fn session_suggestion_returns_card_in_hand() {
    let hand = vec![
        Card::new(Suit::Coins, Rank::Ace),
        Card::new(Suit::Cups, Rank::Two),
        Card::new(Suit::Swords, Rank::King),
    ];
    let session = InteractiveSession::new(init(Player::Opponent, 33), hand.clone()).expect("session");
    let mut rng = FastRng::new(4);
    let best = session
        .suggest_move(Some(Card::new(Suit::Coins, Rank::Three)), &mut rng, 8)
        .expect("suggestion");
    assert!(hand.contains(&best.best_move));
    assert_eq!(best.moves.len(), 3);
    let mut rng = FastRng::new(4);
    assert_eq!(session.suggest_move(None, &mut rng, 8).err(), Some(SessionError::SuggestionFailed));
}

#[test]
fn turn_card_helpers() {
    let mine = Card::new(Suit::Coins, Rank::Ace);
    let theirs = Card::new(Suit::Cups, Rank::Two);
    assert_eq!(resolve_trick_cards(Player::Me, mine, None, Some(theirs)), Ok((mine, theirs)));
    assert_eq!(resolve_trick_cards(Player::Opponent, mine, Some(theirs), None), Ok((theirs, mine)));
    assert_eq!(
        resolve_trick_cards(Player::Me, mine, Some(theirs), None),
        Err(String::from("missing opponent reply"))
    );
    assert_eq!(
        resolve_trick_cards(Player::Opponent, mine, None, Some(theirs)),
        Err(String::from("missing opponent lead"))
    );
    assert!(my_draw_needed(5, Player::Opponent));
    assert!(my_draw_needed(1, Player::Me));
    assert!(!my_draw_needed(1, Player::Opponent));
    assert!(!my_draw_needed(0, Player::Me));
}

#[test]
fn padded_card_text_parses_back() {
    for card in full_deck() {
        let padded = format!("  {}\t ", format_card(card));
        assert_eq!(parse_card(&padded), Ok(card));
    }
}
