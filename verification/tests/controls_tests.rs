use briscola::card::{Card, Rank, Suit};
use briscola::controls::{clamp_selection, on_key, ControlAction, Controls, KeyInput};

fn hand() -> Vec<Card> {
    vec![
        Card::new(Suit::Coins, Rank::Ace),
        Card::new(Suit::Cups, Rank::Two),
        Card::new(Suit::Swords, Rank::King),
    ]
}

const START: Controls = Controls { selected_index: 0, hint_enabled: false };

#[test]
fn arrows_move_within_the_hand() {
    let h = hand();
    let (c, a) = on_key(START, KeyInput::Next, false, true, &h);
    assert_eq!((c.selected_index, a), (1, ControlAction::Nothing));
    let (c, _) = on_key(c, KeyInput::Next, false, true, &h);
    let (c, _) = on_key(c, KeyInput::Next, false, true, &h);
    assert_eq!(c.selected_index, 2);
    let (c, _) = on_key(c, KeyInput::Previous, false, true, &h);
    assert_eq!(c.selected_index, 1);
    let (c, _) = on_key(START, KeyInput::Previous, false, true, &h);
    assert_eq!(c.selected_index, 0);
}

#[test]
fn digits_jump_to_existing_cards_only() {
    let h = hand();
    let (c, _) = on_key(START, KeyInput::Digit(3), false, true, &h);
    assert_eq!(c.selected_index, 2);
    let (c2, _) = on_key(c, KeyInput::Digit(0), false, true, &h);
    assert_eq!(c2.selected_index, 2);
    let (c3, _) = on_key(c, KeyInput::Digit(4), false, true, &h);
    assert_eq!(c3.selected_index, 2);
}

#[test]
fn enter_plays_selected_card_on_my_turn() {
    let h = hand();
    let c = Controls { selected_index: 1, hint_enabled: false };
    assert_eq!(on_key(c, KeyInput::Enter, false, true, &h).1, ControlAction::PlayCard(h[1]));
    assert_eq!(on_key(c, KeyInput::Space, false, true, &h).1, ControlAction::PlayCard(h[1]));
    assert_eq!(on_key(c, KeyInput::Enter, false, false, &h).1, ControlAction::WaitForOpponent);
    let far = Controls { selected_index: 5, hint_enabled: false };
    assert_eq!(on_key(far, KeyInput::Enter, false, true, &h).1, ControlAction::NoSelectableCard);
}

#[test]
fn hint_toggles_and_quit_exits() {
    let h = hand();
    let (c, a) = on_key(START, KeyInput::ToggleHint, false, true, &h);
    assert!(c.hint_enabled);
    assert_eq!(a, ControlAction::HintToggled(true));
    let (c, a) = on_key(c, KeyInput::ToggleHint, false, true, &h);
    assert!(!c.hint_enabled);
    assert_eq!(a, ControlAction::HintToggled(false));
    assert_eq!(on_key(START, KeyInput::Quit, false, true, &h).1, ControlAction::Exit);
    assert_eq!(on_key(START, KeyInput::Other, false, true, &h), (START, ControlAction::Nothing));
}

#[test]
fn after_the_game_only_leaving_keys_act() {
    let h: Vec<Card> = Vec::new();
    assert_eq!(on_key(START, KeyInput::Enter, true, false, &h).1, ControlAction::Exit);
    assert_eq!(on_key(START, KeyInput::Quit, true, false, &h).1, ControlAction::Exit);
    assert_eq!(on_key(START, KeyInput::Space, true, false, &h), (START, ControlAction::Nothing));
    assert_eq!(on_key(START, KeyInput::ToggleHint, true, false, &h), (START, ControlAction::Nothing));
}

#[test]
fn selection_is_clamped_to_the_hand() {
    assert_eq!(clamp_selection(2, 3), 2);
    assert_eq!(clamp_selection(3, 3), 2);
    assert_eq!(clamp_selection(7, 1), 0);
    assert_eq!(clamp_selection(4, 0), 4);
}
