//! Key handling of the interactive game screen: how a key press moves the
//! card cursor, toggles hints, plays a card or leaves the game.
use vstd::prelude::*;

use crate::card::Card;

verus! {

/// A key press as the game screen tells them apart.
#[derive(Debug, Clone, Copy, PartialEq, Eq, Structural)]
pub enum KeyInput {
    /// `q` or Escape.
    Quit,
    /// Enter.
    Enter,
    /// The space bar.
    Space,
    /// `h`.
    ToggleHint,
    /// Left or up arrow.
    Previous,
    /// Right or down arrow.
    Next,
    /// An ASCII digit key, with its value.
    Digit(u32),
    /// Any other key.
    Other,
}

/// The cursor over my hand and whether hints are shown.
#[derive(Debug, Clone, Copy, PartialEq, Eq, Structural)]
pub struct Controls {
    pub selected_index: usize,
    pub hint_enabled: bool,
}

/// What the screen must do after a key press.
#[derive(Debug, Clone, Copy, PartialEq, Eq, Structural)]
pub enum ControlAction {
    /// Leave the game.
    Exit,
    /// Nothing beyond the new cursor state.
    Nothing,
    /// Hints were switched on or off; a computed hint is stale.
    HintToggled(bool),
    /// It is not my turn to play.
    WaitForOpponent,
    /// The cursor is on no card.
    NoSelectableCard,
    /// Play this card of my hand.
    PlayCard(Card),
}

/// The cursor kept inside a hand of `hand_len` cards.
pub open spec fn clamped(selected: usize, hand_len: nat) -> usize {
    if hand_len > 0 && selected >= hand_len {
        (hand_len - 1) as usize
    } else {
        selected
    }
}

/// The controls and action that follow a key press.
///
/// Once the game is over only `q`, Escape and Enter do anything: they
/// leave. Otherwise `q`/Escape leave, `h` toggles hints, the arrows move
/// the cursor within the hand, digit `d` (from 1) jumps to card `d` when
/// there is one, and Enter or space plays the card under the cursor when it
/// is my turn.
pub open spec fn key_step(c: Controls, key: KeyInput, game_over: bool, player_turn: bool, hand: Seq<Card>) -> (Controls, ControlAction) {
    if game_over {
        match key {
            KeyInput::Quit | KeyInput::Enter => (c, ControlAction::Exit),
            _ => (c, ControlAction::Nothing),
        }
    } else {
        match key {
            KeyInput::Quit => (c, ControlAction::Exit),
            KeyInput::ToggleHint => {
                let on = !c.hint_enabled;
                (Controls { hint_enabled: on, ..c }, ControlAction::HintToggled(on))
            },
            KeyInput::Previous => (
                Controls {
                    selected_index: if c.selected_index > 0 {
                        (c.selected_index - 1) as usize
                    } else {
                        0
                    },
                    ..c
                },
                ControlAction::Nothing,
            ),
            KeyInput::Next => (
                if c.selected_index + 1 < hand.len() {
                    Controls { selected_index: (c.selected_index + 1) as usize, ..c }
                } else {
                    c
                },
                ControlAction::Nothing,
            ),
            KeyInput::Digit(v) => (
                if v >= 1 && v - 1 < hand.len() {
                    Controls { selected_index: (v - 1) as usize, ..c }
                } else {
                    c
                },
                ControlAction::Nothing,
            ),
            KeyInput::Enter | KeyInput::Space => (
                c,
                if !player_turn {
                    ControlAction::WaitForOpponent
                } else if c.selected_index < hand.len() {
                    ControlAction::PlayCard(hand[c.selected_index as int])
                } else {
                    ControlAction::NoSelectableCard
                },
            ),
            KeyInput::Other => (c, ControlAction::Nothing),
        }
    }
}

/// Keeps the cursor on a card of a hand of `hand_len` cards.
pub fn clamp_selection(selected: usize, hand_len: usize) -> (r: usize)
    ensures
        r == clamped(selected, hand_len as nat),
{
    if hand_len > 0 && selected >= hand_len {
        hand_len - 1
    } else {
        selected
    }
}

/// Applies a key press to the controls; see [key_step].
pub fn on_key(c: Controls, key: KeyInput, game_over: bool, player_turn: bool, hand: &[Card]) -> (r: (Controls, ControlAction))
    ensures
        r == key_step(c, key, game_over, player_turn, hand@),
{
    if game_over {
        return match key {
            KeyInput::Quit | KeyInput::Enter => (c, ControlAction::Exit),
            _ => (c, ControlAction::Nothing),
        };
    }
    match key {
        KeyInput::Quit => (c, ControlAction::Exit),
        KeyInput::ToggleHint => {
            let on = !c.hint_enabled;
            (Controls { selected_index: c.selected_index, hint_enabled: on }, ControlAction::HintToggled(on))
        },
        KeyInput::Previous => {
            let i = if c.selected_index > 0 {
                c.selected_index - 1
            } else {
                0
            };
            (Controls { selected_index: i, hint_enabled: c.hint_enabled }, ControlAction::Nothing)
        },
        KeyInput::Next => {
            if c.selected_index < hand.len() && hand.len() - c.selected_index > 1 {
                (
                    Controls { selected_index: c.selected_index + 1, hint_enabled: c.hint_enabled },
                    ControlAction::Nothing,
                )
            } else {
                (c, ControlAction::Nothing)
            }
        },
        KeyInput::Digit(v) => {
            if v >= 1 && ((v - 1) as usize) < hand.len() {
                (
                    Controls { selected_index: (v - 1) as usize, hint_enabled: c.hint_enabled },
                    ControlAction::Nothing,
                )
            } else {
                (c, ControlAction::Nothing)
            }
        },
        KeyInput::Enter | KeyInput::Space => {
            if !player_turn {
                (c, ControlAction::WaitForOpponent)
            } else if c.selected_index < hand.len() {
                (c, ControlAction::PlayCard(hand[c.selected_index]))
            } else {
                (c, ControlAction::NoSelectableCard)
            }
        },
        KeyInput::Other => (c, ControlAction::Nothing),
    }
}

} // verus!
