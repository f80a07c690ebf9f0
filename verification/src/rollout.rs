//! Greedy rollout policy for simulated playouts.
//!
//! The policy is deterministic and intentionally cheap: it attempts to preserve
//! high-value cards and avoid spending trump unless useful in context.
use vstd::prelude::*;

use crate::card::{Card, Suit};
use crate::rules::{trick_points, trick_winner, TrickWinner};
use crate::state::{DeterminizedState, Player};

verus! {

/// Which cards of a hand are candidates.
#[derive(Debug, Clone, Copy, PartialEq, Eq, Structural)]
pub enum CardFilter {
    /// Non-trump cards worth no points.
    ZeroPointNonTrump,
    /// Non-trump cards.
    NonTrump,
    /// Every card.
    Any,
    /// Cards that win a trick against the given lead.
    Winning(Card),
    /// Non-trump cards that win a trick against the given lead.
    WinningNonTrump(Card),
}

/// The key by which candidates are compared, smallest first.
#[derive(Debug, Clone, Copy, PartialEq, Eq, Structural)]
pub enum CardOrder {
    /// Rank power.
    Power,
    /// Points, then power.
    PointsPower,
    /// Being trump, then power, then points.
    TrumpPowerPoints,
    /// Points, then being trump, then power.
    PointsTrumpPower,
}

/// Whether a card passes a filter.
pub open spec fn passes(f: CardFilter, trump: Suit, c: Card) -> bool {
    match f {
        CardFilter::ZeroPointNonTrump => c.suit != trump && c.rank.points() == 0,
        CardFilter::NonTrump => c.suit != trump,
        CardFilter::Any => true,
        CardFilter::Winning(lead) => trick_winner(lead, c, trump) == TrickWinner::Follower,
        CardFilter::WinningNonTrump(lead) => trick_winner(lead, c, trump) == TrickWinner::Follower
            && c.suit != trump,
    }
}

/// 1 for a trump card, 0 otherwise.
pub open spec fn trump_flag(trump: Suit, c: Card) -> int {
    if c.suit == trump {
        1
    } else {
        0
    }
}

/// A card's key under an order; keys compare lexicographically because
/// every component is below 256.
pub open spec fn order_key(o: CardOrder, trump: Suit, c: Card) -> int {
    match o {
        CardOrder::Power => c.rank.power() as int,
        CardOrder::PointsPower => c.rank.points() * 256 + c.rank.power(),
        CardOrder::TrumpPowerPoints => trump_flag(trump, c) * 65536 + c.rank.power() * 256
            + c.rank.points(),
        CardOrder::PointsTrumpPower => c.rank.points() * 65536 + trump_flag(trump, c) * 256
            + c.rank.power(),
    }
}

/// `s[i]` passes the filter, no passing card has a smaller key, and every
/// passing card before it has a larger key: it is the first minimum.
pub open spec fn is_first_min(s: Seq<Card>, f: CardFilter, o: CardOrder, trump: Suit, i: int) -> bool {
    &&& 0 <= i < s.len()
    &&& passes(f, trump, s[i])
    &&& forall|j: int|
        0 <= j < s.len() && passes(f, trump, #[trigger] s[j]) ==> order_key(o, trump, s[i])
            <= order_key(o, trump, s[j])
    &&& forall|j: int|
        0 <= j < i && passes(f, trump, #[trigger] s[j]) ==> order_key(o, trump, s[i]) < order_key(
            o,
            trump,
            s[j],
        )
}

/// The first card of `s` with the smallest key among those passing the
/// filter, if any card passes.
pub open spec fn first_min(s: Seq<Card>, f: CardFilter, o: CardOrder, trump: Suit) -> Option<Card> {
    if exists|i: int| is_first_min(s, f, o, trump, i) {
        Some(s[choose|i: int| is_first_min(s, f, o, trump, i)])
    } else {
        None
    }
}

/// At most one index is the first minimum.
pub proof fn lemma_first_min_unique(s: Seq<Card>, f: CardFilter, o: CardOrder, trump: Suit, i: int, k: int)
    requires
        is_first_min(s, f, o, trump, i),
        is_first_min(s, f, o, trump, k),
    ensures
        i == k,
{
    if i < k {
        assert(order_key(o, trump, s[k]) < order_key(o, trump, s[i]));
    } else if k < i {
        assert(order_key(o, trump, s[i]) < order_key(o, trump, s[k]));
    }
}

/// The lead card the policy picks from a hand: the weakest zero-point
/// non-trump card; otherwise the cheapest (points, power) non-trump card;
/// otherwise the cheapest (points, power) card.
pub open spec fn lead_choice(hand: Seq<Card>, trump: Suit) -> Card {
    match first_min(hand, CardFilter::ZeroPointNonTrump, CardOrder::Power, trump) {
        Some(c) => c,
        None => match first_min(hand, CardFilter::NonTrump, CardOrder::PointsPower, trump) {
            Some(c) => c,
            None => first_min(hand, CardFilter::Any, CardOrder::PointsPower, trump).unwrap(),
        },
    }
}

/// The reply card the policy picks from a hand: the weakest winning card
/// by (is trump, power, points), restricted to non-trump winners when the
/// trick (counted as twice the lead's points) is worth at most 2 and more
/// than 4 cards remain in the talon; without a winning card, the cheapest
/// card by (points, is trump, power).
pub open spec fn reply_choice(hand: Seq<Card>, lead: Card, trump: Suit, talon_len: nat) -> Card {
    if first_min(hand, CardFilter::Winning(lead), CardOrder::TrumpPowerPoints, trump) is Some {
        if trick_points(lead, lead) <= 2 && talon_len > 4 && first_min(
            hand,
            CardFilter::WinningNonTrump(lead),
            CardOrder::TrumpPowerPoints,
            trump,
        ) is Some {
            first_min(hand, CardFilter::WinningNonTrump(lead), CardOrder::TrumpPowerPoints, trump).unwrap()
        } else {
            first_min(hand, CardFilter::Winning(lead), CardOrder::TrumpPowerPoints, trump).unwrap()
        }
    } else {
        first_min(hand, CardFilter::Any, CardOrder::PointsTrumpPower, trump).unwrap()
    }
}

/// A card chosen by the policy from a non-empty hand is in that hand.
pub proof fn lemma_choices_in_hand(hand: Seq<Card>, lead: Card, trump: Suit, talon_len: nat)
    requires
        hand.len() > 0,
    ensures
        hand.contains(lead_choice(hand, trump)),
        hand.contains(reply_choice(hand, lead, trump, talon_len)),
{
    assert(passes(CardFilter::Any, trump, hand[0]));
    lemma_first_min_exists(hand, CardFilter::Any, CardOrder::PointsPower, trump);
    lemma_first_min_exists(hand, CardFilter::Any, CardOrder::PointsTrumpPower, trump);
    lemma_first_min_member(hand, CardFilter::ZeroPointNonTrump, CardOrder::Power, trump);
    lemma_first_min_member(hand, CardFilter::NonTrump, CardOrder::PointsPower, trump);
    lemma_first_min_member(hand, CardFilter::Any, CardOrder::PointsPower, trump);
    lemma_first_min_member(hand, CardFilter::Winning(lead), CardOrder::TrumpPowerPoints, trump);
    lemma_first_min_member(hand, CardFilter::WinningNonTrump(lead), CardOrder::TrumpPowerPoints, trump);
    lemma_first_min_member(hand, CardFilter::Any, CardOrder::PointsTrumpPower, trump);
}

/// The first minimum, when there is one, is a card of the sequence that
/// passes the filter.
pub proof fn lemma_first_min_member(s: Seq<Card>, f: CardFilter, o: CardOrder, trump: Suit)
    ensures
        first_min(s, f, o, trump) matches Some(c) ==> s.contains(c) && passes(f, trump, c),
{
    if exists|i: int| is_first_min(s, f, o, trump, i) {
        let i = choose|i: int| is_first_min(s, f, o, trump, i);
        assert(s[i] == first_min(s, f, o, trump).unwrap());
    }
}

/// A first minimum exists whenever some card passes the filter.
pub proof fn lemma_first_min_exists(s: Seq<Card>, f: CardFilter, o: CardOrder, trump: Suit)
    ensures
        (first_min(s, f, o, trump) is Some) <==> (exists|j: int| 0 <= j < s.len() && passes(f, trump, #[trigger] s[j])),
    decreases s.len(),
{
    if s.len() > 0 {
        let t = s.drop_last();
        lemma_first_min_exists(t, f, o, trump);
        let last = s.len() - 1;
        if first_min(t, f, o, trump) is Some {
            let i = choose|i: int| is_first_min(t, f, o, trump, i);
            assert(t[i] == s[i]);
            if passes(f, trump, s[last]) && order_key(o, trump, s[last]) < order_key(o, trump, t[i]) {
                assert forall|j: int| 0 <= j < s.len() && passes(f, trump, #[trigger] s[j]) implies order_key(o, trump, s[last]) <= order_key(o, trump, s[j]) by {
                    if j < last {
                        assert(t[j] == s[j]);
                    }
                }
                assert forall|j: int| 0 <= j < last && passes(f, trump, #[trigger] s[j]) implies order_key(o, trump, s[last]) < order_key(o, trump, s[j]) by {
                    assert(t[j] == s[j]);
                }
                assert(is_first_min(s, f, o, trump, last));
            } else {
                assert forall|j: int| 0 <= j < s.len() && passes(f, trump, #[trigger] s[j]) implies order_key(o, trump, s[i]) <= order_key(o, trump, s[j]) by {
                    if j < last {
                        assert(t[j] == s[j]);
                    }
                }
                assert forall|j: int| 0 <= j < i && passes(f, trump, #[trigger] s[j]) implies order_key(o, trump, s[i]) < order_key(o, trump, s[j]) by {
                    assert(t[j] == s[j]);
                }
                assert(is_first_min(s, f, o, trump, i));
            }
        } else if passes(f, trump, s[last]) {
            assert forall|j: int| 0 <= j < last implies !passes(f, trump, #[trigger] s[j]) by {
                assert(t[j] == s[j]);
            }
            assert(is_first_min(s, f, o, trump, last));
        } else {
            assert forall|j: int| 0 <= j < s.len() implies !passes(f, trump, #[trigger] s[j]) by {
                if j < last {
                    assert(t[j] == s[j]);
                }
            }
        }
    }
}

/// The first minimum has the smallest key among the cards that pass.
pub proof fn lemma_first_min_minimal(s: Seq<Card>, f: CardFilter, o: CardOrder, trump: Suit)
    ensures
        first_min(s, f, o, trump) matches Some(c) ==> forall|d: Card|
            s.contains(d) && passes(f, trump, d) ==> order_key(o, trump, c) <= order_key(o, trump, d),
{
    if exists|i: int| is_first_min(s, f, o, trump, i) {
        let i = choose|i: int| is_first_min(s, f, o, trump, i);
        assert forall|d: Card| s.contains(d) && passes(f, trump, d) implies order_key(o, trump, s[i])
            <= order_key(o, trump, d) by {
            let j = choose|j: int| 0 <= j < s.len() && s[j] == d;
            assert(passes(f, trump, s[j]));
        }
    }
}

/// Without a winning card, the reply discards a card that is weakest by
/// points, then by not being trump, then by power: no card of the hand
/// has fewer points, or as many points and is non-trump where the discard
/// is trump, or as many points, the same trump status and lower power.
///
/// With a winning card, the reply wins the trick with the weakest winner
/// by being trump, then power, then points.
pub proof fn lemma_reply_choice_law(hand: Seq<Card>, lead: Card, trump: Suit, talon_len: nat)
    requires
        hand.len() > 0,
    ensures
        ({
            let c = reply_choice(hand, lead, trump, talon_len);
            &&& hand.contains(c)
            &&& (forall|d: Card| hand.contains(d) ==> trick_winner(lead, d, trump) != TrickWinner::Follower)
                ==> forall|d: Card|
                #![trigger hand.contains(d)]
                hand.contains(d) ==> {
                    ||| c.rank.points() < d.rank.points()
                    ||| c.rank.points() == d.rank.points() && c.suit != trump && d.suit == trump
                    ||| c.rank.points() == d.rank.points() && (c.suit == trump) == (d.suit == trump)
                        && c.rank.power() <= d.rank.power()
                }
            &&& (exists|d: Card| hand.contains(d) && trick_winner(lead, d, trump) == TrickWinner::Follower)
                ==> {
                &&& trick_winner(lead, c, trump) == TrickWinner::Follower
                &&& forall|d: Card|
                    #![trigger hand.contains(d)]
                    hand.contains(d) && trick_winner(lead, d, trump) == TrickWinner::Follower ==> {
                        ||| c.suit != trump && d.suit == trump
                        ||| (c.suit == trump) == (d.suit == trump) && c.rank.power() < d.rank.power()
                        ||| (c.suit == trump) == (d.suit == trump) && c.rank.power() == d.rank.power()
                            && c.rank.points() <= d.rank.points()
                    }
            }
        }),
{
    lemma_choices_in_hand(hand, lead, trump, talon_len);
    lemma_first_min_minimal(hand, CardFilter::Any, CardOrder::PointsTrumpPower, trump);
    lemma_first_min_minimal(hand, CardFilter::Winning(lead), CardOrder::TrumpPowerPoints, trump);
    lemma_first_min_minimal(hand, CardFilter::WinningNonTrump(lead), CardOrder::TrumpPowerPoints, trump);
    lemma_first_min_member(hand, CardFilter::Winning(lead), CardOrder::TrumpPowerPoints, trump);
    lemma_first_min_member(hand, CardFilter::WinningNonTrump(lead), CardOrder::TrumpPowerPoints, trump);
    lemma_first_min_exists(hand, CardFilter::Winning(lead), CardOrder::TrumpPowerPoints, trump);
    lemma_first_min_exists(hand, CardFilter::Any, CardOrder::PointsTrumpPower, trump);
    if exists|d: Card| hand.contains(d) && trick_winner(lead, d, trump) == TrickWinner::Follower {
        let d = choose|d: Card| hand.contains(d) && trick_winner(lead, d, trump) == TrickWinner::Follower;
        let j = choose|j: int| 0 <= j < hand.len() && hand[j] == d;
        assert(passes(CardFilter::Winning(lead), trump, hand[j]));
    } else {
        assert(passes(CardFilter::Any, trump, hand[0]));
    }
}

/// The lead is the weakest zero-point non-trump card by power when there
/// is one; otherwise a non-trump card that is cheapest by points, then
/// power, when there is one; otherwise the cheapest card by points, then
/// power.
pub proof fn lemma_lead_choice_law(hand: Seq<Card>, trump: Suit)
    requires
        hand.len() > 0,
    ensures
        ({
            let c = lead_choice(hand, trump);
            &&& hand.contains(c)
            &&& (exists|d: Card| hand.contains(d) && d.suit != trump && d.rank.points() == 0) ==> {
                &&& c.suit != trump && c.rank.points() == 0
                &&& forall|d: Card|
                    #![trigger hand.contains(d)]
                    hand.contains(d) && d.suit != trump && d.rank.points() == 0 ==> c.rank.power()
                        <= d.rank.power()
            }
            &&& (exists|d: Card| hand.contains(d) && d.suit != trump) ==> c.suit != trump
            &&& (forall|d: Card| hand.contains(d) ==> d.suit != trump || d.rank.points() > 0) ==> forall|d: Card|
                #![trigger hand.contains(d)]
                hand.contains(d) && (d.suit != trump || c.suit == trump) ==> {
                    ||| c.rank.points() < d.rank.points()
                    ||| c.rank.points() == d.rank.points() && c.rank.power() <= d.rank.power()
                }
        }),
{
    lemma_choices_in_hand(hand, hand[0], trump, 0);
    lemma_first_min_minimal(hand, CardFilter::ZeroPointNonTrump, CardOrder::Power, trump);
    lemma_first_min_minimal(hand, CardFilter::NonTrump, CardOrder::PointsPower, trump);
    lemma_first_min_minimal(hand, CardFilter::Any, CardOrder::PointsPower, trump);
    lemma_first_min_member(hand, CardFilter::ZeroPointNonTrump, CardOrder::Power, trump);
    lemma_first_min_member(hand, CardFilter::NonTrump, CardOrder::PointsPower, trump);
    lemma_first_min_member(hand, CardFilter::Any, CardOrder::PointsPower, trump);
    lemma_first_min_exists(hand, CardFilter::ZeroPointNonTrump, CardOrder::Power, trump);
    lemma_first_min_exists(hand, CardFilter::NonTrump, CardOrder::PointsPower, trump);
    lemma_first_min_exists(hand, CardFilter::Any, CardOrder::PointsPower, trump);
    if exists|d: Card| hand.contains(d) && d.suit != trump && d.rank.points() == 0 {
        let d = choose|d: Card| hand.contains(d) && d.suit != trump && d.rank.points() == 0;
        let j = choose|j: int| 0 <= j < hand.len() && hand[j] == d;
        assert(passes(CardFilter::ZeroPointNonTrump, trump, hand[j]));
    }
    if exists|d: Card| hand.contains(d) && d.suit != trump {
        let d = choose|d: Card| hand.contains(d) && d.suit != trump;
        let j = choose|j: int| 0 <= j < hand.len() && hand[j] == d;
        assert(passes(CardFilter::NonTrump, trump, hand[j]));
    }
    assert(passes(CardFilter::Any, trump, hand[0]));
}

/// Executable filter test.
fn passes_exec(f: CardFilter, trump: Suit, c: Card) -> (b: bool)
    ensures
        b == passes(f, trump, c),
{
    match f {
        CardFilter::ZeroPointNonTrump => c.suit != trump && c.rank.points() == 0,
        CardFilter::NonTrump => c.suit != trump,
        CardFilter::Any => true,
        CardFilter::Winning(lead) => reply_wins(lead, c, trump),
        CardFilter::WinningNonTrump(lead) => reply_wins(lead, c, trump) && c.suit != trump,
    }
}

/// Executable order key.
fn order_key_exec(o: CardOrder, trump: Suit, c: Card) -> (k: u32)
    ensures
        k as int == order_key(o, trump, c),
{
    let t: u32 = if c.suit == trump {
        1
    } else {
        0
    };
    let points = c.rank.points() as u32;
    let power = c.rank.power() as u32;
    match o {
        CardOrder::Power => power,
        CardOrder::PointsPower => points * 256 + power,
        CardOrder::TrumpPowerPoints => t * 65536 + power * 256 + points,
        CardOrder::PointsTrumpPower => points * 65536 + t * 256 + power,
    }
}

/// Finds the first card of `hand` with the smallest key among those that
/// pass the filter.
fn find_first_min(hand: &[Card], f: CardFilter, o: CardOrder, trump: Suit) -> (r: Option<Card>)
    ensures
        r == first_min(hand@, f, o, trump),
{
    let mut best: Option<usize> = None;
    let mut best_key: u32 = 0;
    let mut i: usize = 0;
    while i < hand.len()
        invariant
            i <= hand@.len(),
            match best {
                None => forall|j: int| 0 <= j < i ==> !passes(f, trump, #[trigger] hand@[j]),
                Some(b) => {
                    &&& is_first_min(hand@.subrange(0, i as int), f, o, trump, b as int)
                    &&& best_key as int == order_key(o, trump, hand@[b as int])
                },
            },
        decreases hand@.len() - i,
    {
        let c = hand[i];
        if passes_exec(f, trump, c) {
            let k = order_key_exec(o, trump, c);
            let ghost prev = hand@.subrange(0, i as int);
            let ghost next = hand@.subrange(0, i + 1);
            assert forall|j: int| 0 <= j < i implies #[trigger] prev[j] == next[j] by {}
            match best {
                None => {
                    best = Some(i);
                    best_key = k;
                    assert(is_first_min(next, f, o, trump, i as int));
                },
                Some(b) => {
                    if k < best_key {
                        best = Some(i);
                        best_key = k;
                        assert(is_first_min(next, f, o, trump, i as int));
                    } else {
                        assert(is_first_min(next, f, o, trump, b as int));
                    }
                },
            }
        } else {
            proof {
                let prev = hand@.subrange(0, i as int);
                let next = hand@.subrange(0, i + 1);
                assert forall|j: int| 0 <= j < i implies #[trigger] prev[j] == next[j] by {}
                if let Some(b) = best {
                    assert(is_first_min(next, f, o, trump, b as int));
                }
            }
        }
        i = i + 1;
    }
    proof {
        assert(hand@.subrange(0, hand@.len() as int) =~= hand@);
    }
    match best {
        None => {
            proof {
                if exists|j: int| is_first_min(hand@, f, o, trump, j) {
                    let j = choose|j: int| is_first_min(hand@, f, o, trump, j);
                    assert(passes(f, trump, hand@[j]));
                }
            }
            None
        },
        Some(b) => {
            proof {
                let j = choose|j: int| is_first_min(hand@, f, o, trump, j);
                lemma_first_min_unique(hand@, f, o, trump, b as int, j);
            }
            Some(hand[b])
        },
    }
}

/// Returns true when the reply card wins the trick against the lead card.
fn reply_wins(lead_card: Card, reply_card: Card, briscola: Suit) -> (b: bool)
    ensures
        b == (trick_winner(lead_card, reply_card, briscola) == TrickWinner::Follower),
{
    trick_winner(lead_card, reply_card, briscola) == TrickWinner::Follower
}

/// Chooses a lead card with a conservative greedy heuristic.
///
/// Priority order:
/// 1. Lowest-power non-trump card worth 0 points.
/// 2. Otherwise, lowest (points, power) non-trump card.
/// 3. Otherwise, lowest (points, power) card in hand.
///
/// Ties go to the card that comes first in the hand.
pub fn choose_lead_card(state: &DeterminizedState, player: Player) -> (card: Card)
    requires
        state@.hand(player).len() > 0,
    ensures
        card == lead_choice(state@.hand(player), state.briscola_suit),
        state@.hand(player).contains(card),
{
    let hand = state.hand(player);
    let trump = state.briscola_suit;
    proof {
        lemma_choices_in_hand(hand@, hand@[0], trump, 0);
        lemma_first_min_exists(hand@, CardFilter::Any, CardOrder::PointsPower, trump);
    }
    match find_first_min(hand, CardFilter::ZeroPointNonTrump, CardOrder::Power, trump) {
        Some(card) => {
            return card;
        },
        None => {},
    }
    match find_first_min(hand, CardFilter::NonTrump, CardOrder::PointsPower, trump) {
        Some(card) => {
            return card;
        },
        None => {},
    }
    match find_first_min(hand, CardFilter::Any, CardOrder::PointsPower, trump) {
        Some(card) => card,
        None => {
            proof {
                assert(passes(CardFilter::Any, trump, hand@[0]));
            }
            hand[0]
        },
    }
}

/// Chooses a reply card with a greedy win-when-cheap policy.
///
/// If a winning reply exists, plays the weakest winning card by
/// (is trump, power, points), preferring non-trump winners in low-value
/// tricks while the talon is still deep. Otherwise, discards the weakest
/// card by (points, is trump, power). Ties go to the card that comes first
/// in the hand.
pub fn choose_reply_card(state: &DeterminizedState, player: Player, lead_card: Card) -> (card: Card)
    requires
        state@.hand(player).len() > 0,
    ensures
        card == reply_choice(
            state@.hand(player),
            lead_card,
            state.briscola_suit,
            state.talon@.len(),
        ),
        state@.hand(player).contains(card),
{
    let hand = state.hand(player);
    let trump = state.briscola_suit;
    let points_in_trick = trick_points(lead_card, lead_card);
    proof {
        lemma_choices_in_hand(hand@, lead_card, trump, state.talon@.len());
        lemma_first_min_exists(hand@, CardFilter::Any, CardOrder::PointsTrumpPower, trump);
        assert(passes(CardFilter::Any, trump, hand@[0]));
    }
    match find_first_min(hand, CardFilter::Winning(lead_card), CardOrder::TrumpPowerPoints, trump) {
        Some(best_winner) => {
            if points_in_trick <= 2 && state.talon.len() > 4 {
                match find_first_min(
                    hand,
                    CardFilter::WinningNonTrump(lead_card),
                    CardOrder::TrumpPowerPoints,
                    trump,
                ) {
                    Some(card) => {
                        return card;
                    },
                    None => {},
                }
            }
            best_winner
        },
        None => match find_first_min(hand, CardFilter::Any, CardOrder::PointsTrumpPower, trump) {
            Some(card) => card,
            None => hand[0],
        },
    }
}

} // verus!
