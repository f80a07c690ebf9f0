use briscola::bitset::{contains, CardMask, FULL_MASK};
use briscola::card::{full_deck, Card, Rank, Suit};
use briscola::determinize::{sample_world, DeterminizeError};
use briscola::rng::FastRng;
use briscola::state::{Player, PublicGameState};

fn subtract(full: CardMask, cards: &[Card]) -> CardMask {
    let mut mask = full;
    for card in cards {
        mask &= !(1u64 << card.index());
    }
    mask
}

#[test]
fn sampled_world_uses_only_unknown_cards() {
    let my_cards = vec![
        Card::new(Suit::Coins, Rank::Ace),
        Card::new(Suit::Cups, Rank::Three),
        Card::new(Suit::Swords, Rank::King),
    ];
    let opp_played = Card::new(Suit::Clubs, Rank::Two);
    let face_up = Card::new(Suit::Clubs, Rank::Ace);

    let mut fixed_seen = my_cards.clone();
    fixed_seen.push(opp_played);
    fixed_seen.push(face_up);

    let mut unknown_target = Vec::new();
    for card in full_deck() {
        if !fixed_seen.contains(&card) && unknown_target.len() < 12 {
            unknown_target.push(card);
        }
    }

    let seen = subtract(FULL_MASK, &unknown_target);

    let public = PublicGameState {
        my_hand: my_cards,
        opp_played: Some(opp_played),
        briscola_suit: Suit::Clubs,
        talon_len: 10,
        last_face_up_trump: face_up,
        seen_cards: seen,
        score_me: 20,
        score_opp: 11,
        leader: Player::Opponent,
    };

    let mut rng = FastRng::new(7);
    let sampled = sample_world(&public, &mut rng).expect("sample world");

    assert_eq!(sampled.opp_hand.len(), 2);
    assert_eq!(sampled.talon.len(), 10);

    for card in sampled.opp_hand.iter().chain(sampled.talon.iter()) {
        assert!(!contains(public.seen_cards, *card));
    }

    let mut union = 0u64;
    for card in sampled.opp_hand.iter().chain(sampled.talon.iter()) {
        union = briscola::bitset::add(union, *card);
    }

    for card in unknown_target {
        assert!(contains(union, card));
    }
}

fn public_with(my_hand: Vec<Card>, opp_played: Option<Card>, talon_len: usize, seen: CardMask) -> PublicGameState {
    PublicGameState {
        my_hand,
        opp_played,
        briscola_suit: Suit::Coins,
        talon_len,
        last_face_up_trump: Card::new(Suit::Coins, Rank::Seven),
        seen_cards: seen,
        score_me: 0,
        score_opp: 0,
        leader: if opp_played.is_some() { Player::Opponent } else { Player::Me },
    }
}

#[test]
fn sampled_world_keeps_public_facts() {
    let hand = vec![Card::new(Suit::Cups, Rank::Ace), Card::new(Suit::Cups, Rank::Two)];
    let lead = Card::new(Suit::Swords, Rank::Three);
    let seen = briscola::bitset::add(briscola::bitset::add(0, lead), Card::new(Suit::Coins, Rank::Seven));
    let public = public_with(hand.clone(), Some(lead), 4, seen);
    let mut rng = FastRng::new(21);
    let world = sample_world(&public, &mut rng).expect("sample world");
    assert_eq!(world.my_hand, hand);
    assert_eq!(world.pending_lead, Some(lead));
    assert_eq!(world.pending_lead_by, Some(Player::Opponent));
    assert_eq!(world.leader, Player::Opponent);
    assert_eq!(world.face_up_trump, Card::new(Suit::Coins, Rank::Seven));
    // The leader already played, so the opponent holds one card fewer than me.
    assert_eq!(world.opp_hand.len(), 1);
    assert_eq!(world.talon.len(), 4);
    for card in world.opp_hand.iter().chain(world.talon.iter()) {
        assert!(!hand.contains(card));
        assert!(!contains(seen, *card));
    }
}

#[test]
fn sampling_fails_without_enough_unknown_cards() {
    let hand = vec![Card::new(Suit::Cups, Rank::Ace)];
    let public = public_with(hand, None, 2, FULL_MASK);
    let mut rng = FastRng::new(1);
    let result = sample_world(&public, &mut rng);
    assert!(matches!(result, Err(DeterminizeError::InvalidPublicState)));
}

#[test]
fn sampling_is_deterministic_for_a_seed() {
    let hand = vec![Card::new(Suit::Cups, Rank::Ace), Card::new(Suit::Cups, Rank::Two)];
    let public = public_with(hand, None, 10, 0);
    let a = sample_world(&public, &mut FastRng::new(5)).expect("sample");
    let b = sample_world(&public, &mut FastRng::new(5)).expect("sample");
    assert_eq!(a.opp_hand, b.opp_hand);
    assert_eq!(a.talon, b.talon);
}
