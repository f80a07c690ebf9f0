//! Trick-resolution and scoring rules for Briscola.
use vstd::prelude::*;

use crate::card::{Card, Suit};

verus! {

/// Winner role in a resolved two-card trick.
#[derive(Debug, Clone, Copy, PartialEq, Eq, Structural)]
pub enum TrickWinner {
    /// Player who led the trick.
    Leader,
    /// Player who replied to the lead.
    Follower,
}

/// Resolves the winner of a two-card trick.
///
/// The follower wins by playing a higher-power card of the led suit, or by
/// playing trump against a non-trump lead. The leader wins otherwise.
#[verifier::allow_in_spec]
pub fn trick_winner(lead_card: Card, reply_card: Card, briscola_suit: Suit) -> TrickWinner
    returns
        (if lead_card.suit == reply_card.suit {
            if reply_card.rank.power() > lead_card.rank.power() {
                TrickWinner::Follower
            } else {
                TrickWinner::Leader
            }
        } else if reply_card.suit == briscola_suit && lead_card.suit != briscola_suit {
            TrickWinner::Follower
        } else {
            TrickWinner::Leader
        }),
{
    if lead_card.suit == reply_card.suit {
        if reply_card.rank.power() > lead_card.rank.power() {
            TrickWinner::Follower
        } else {
            TrickWinner::Leader
        }
    } else if reply_card.suit == briscola_suit && lead_card.suit != briscola_suit {
        TrickWinner::Follower
    } else {
        TrickWinner::Leader
    }
}

/// Returns total points contained in a completed trick.
#[verifier::allow_in_spec]
pub fn trick_points(lead_card: Card, reply_card: Card) -> u8
    returns
        (lead_card.rank.points() + reply_card.rank.points()) as u8,
{
    lead_card.rank.points() + reply_card.rank.points()
}

/// A trump card wins against a non-trump card whichever of the two leads.
pub proof fn lemma_trump_beats_non_trump(trump: Card, other: Card, briscola_suit: Suit)
    requires
        trump.suit == briscola_suit,
        other.suit != briscola_suit,
    ensures
        trick_winner(trump, other, briscola_suit) == TrickWinner::Leader,
        trick_winner(other, trump, briscola_suit) == TrickWinner::Follower,
{
}

/// A trick carries at most 22 points.
pub proof fn lemma_trick_points_bound(a: Card, b: Card)
    ensures
        trick_points(a, b) == a.rank.points() + b.rank.points(),
        trick_points(a, b) <= 22,
{
}

} // verus!
