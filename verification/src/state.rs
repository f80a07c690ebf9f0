//! Public and determinized Briscola game states plus transition logic.
//!
//! Two state views are modeled:
//! - [PublicGameState]: information available to a decision-making player.
//! - [DeterminizedState]: fully specified world used for simulation.
use vstd::prelude::*;

use crate::bitset::CardMask;
use crate::card::{canonical_deck, Card, Suit};
use crate::rules::{trick_points, trick_winner, TrickWinner};

verus! {

/// Player identity from the perspective of the local agent.
#[derive(Debug, Clone, Copy, PartialEq, Eq, Structural)]
pub enum Player {
    /// The local player perspective.
    Me,
    /// The opposing player.
    Opponent,
}

impl Player {
    /// Returns the opposing player.
    #[verifier::allow_in_spec]
    pub fn other(self) -> Player
        returns
            (match self {
                Player::Me => Player::Opponent,
                Player::Opponent => Player::Me,
            }),
    {
        match self {
            Player::Me => Player::Opponent,
            Player::Opponent => Player::Me,
        }
    }
}

/// Copies a slice of cards into a fresh vector.
pub(crate) fn copy_cards(cards: &[Card]) -> (v: Vec<Card>)
    ensures
        v@ == cards@,
{
    let mut v: Vec<Card> = Vec::with_capacity(cards.len());
    let mut i: usize = 0;
    while i < cards.len()
        invariant
            i <= cards@.len(),
            v@ == cards@.subrange(0, i as int),
        decreases cards@.len() - i,
    {
        v.push(cards[i]);
        i = i + 1;
        assert(v@ =~= cards@.subrange(0, i as int));
    }
    assert(v@ =~= cards@);
    v
}

/// Sum of the trick points of a sequence of cards.
pub open spec fn seq_points(s: Seq<Card>) -> nat
    decreases s.len(),
{
    if s.len() == 0 {
        0
    } else {
        seq_points(s.drop_last()) + s.last().rank.points() as nat
    }
}

/// Appending a card adds its points.
pub proof fn lemma_points_push(s: Seq<Card>, c: Card)
    ensures
        seq_points(s.push(c)) == seq_points(s) + c.rank.points(),
{
    assert(s.push(c).drop_last() =~= s);
}

/// Removing the card at `i` takes away its points.
pub proof fn lemma_points_remove(s: Seq<Card>, i: int)
    requires
        0 <= i < s.len(),
    ensures
        seq_points(s) == seq_points(s.remove(i)) + s[i].rank.points(),
    decreases s.len(),
{
    if i == s.len() - 1 {
        assert(s.remove(i) =~= s.drop_last());
    } else {
        lemma_points_remove(s.drop_last(), i);
        assert(s.remove(i).drop_last() =~= s.drop_last().remove(i));
        assert(s.remove(i).last() == s.last());
    }
}

/// Points of a concatenation are the sum of the points of its parts.
pub proof fn lemma_points_concat(a: Seq<Card>, b: Seq<Card>)
    ensures
        seq_points(a + b) == seq_points(a) + seq_points(b),
    decreases b.len(),
{
    if b.len() > 0 {
        lemma_points_concat(a, b.drop_last());
        assert((a + b).drop_last() =~= a + b.drop_last());
        assert((a + b).last() == b.last());
    } else {
        assert(a + b =~= a);
    }
}

/// Sequences holding the same cards, with the same multiplicities, carry
/// the same points.
pub proof fn lemma_points_permutation(s: Seq<Card>, t: Seq<Card>)
    requires
        s.to_multiset() == t.to_multiset(),
    ensures
        seq_points(s) == seq_points(t),
    decreases s.len(),
{
    broadcast use vstd::seq_lib::to_multiset_contains;
    broadcast use vstd::seq_lib::to_multiset_remove;
    broadcast use vstd::seq_lib::to_multiset_len;
    broadcast use vstd::multiset::group_multiset_axioms;

    if s.len() > 0 {
        let x = s.last();
        assert(s.contains(x)) by {
            assert(s[s.len() - 1] == x);
        }
        assert(t.to_multiset().count(x) > 0);
        assert(t.contains(x));
        let i = choose|i: int| 0 <= i < t.len() && t[i] == x;
        let t2 = t.remove(i);
        assert(s.remove(s.len() - 1) =~= s.drop_last());
        assert(s.drop_last().to_multiset() == s.to_multiset().remove(x));
        assert(t2.to_multiset() == t.to_multiset().remove(x));
        lemma_points_permutation(s.drop_last(), t2);
        lemma_points_remove(t, i);
    } else {
        assert(t.to_multiset().len() == 0);
        assert(t.len() == 0);
    }
}

/// Points of the first `k` cards of canonical deck order.
pub open spec fn deck_points_upto(k: nat) -> nat
    decreases k,
{
    if k == 0 {
        0
    } else {
        deck_points_upto((k - 1) as nat) + Card::from_index(k - 1).rank.points() as nat
    }
}

proof fn lemma_deck_prefix_points(k: nat)
    requires
        k <= 40,
    ensures
        seq_points(canonical_deck().subrange(0, k as int)) == deck_points_upto(k),
    decreases k,
{
    if k > 0 {
        lemma_deck_prefix_points((k - 1) as nat);
        assert(canonical_deck().subrange(0, k as int).drop_last() =~= canonical_deck().subrange(
            0,
            k - 1,
        ));
    }
}

/// The whole deck carries 120 points.
pub proof fn lemma_deck_points()
    ensures
        seq_points(canonical_deck()) == 120,
{
    lemma_deck_prefix_points(40);
    assert(canonical_deck().subrange(0, 40) =~= canonical_deck());
    reveal_with_fuel(deck_points_upto, 41);
}

/// Public information available at decision time.
#[derive(Debug, Clone)]
pub struct PublicGameState {
    /// Cards currently in my hand.
    pub my_hand: Vec<Card>,
    /// Opponent lead card when I must reply, otherwise none.
    pub opp_played: Option<Card>,
    /// Trump suit for this match.
    pub briscola_suit: Suit,
    /// Cards still in talon excluding the exposed face-up trump.
    pub talon_len: usize,
    /// Face-up trump card under the talon.
    pub last_face_up_trump: Card,
    /// Set of cards already visible in history or in known hands.
    pub seen_cards: CardMask,
    /// My current score.
    pub score_me: u8,
    /// Opponent current score.
    pub score_opp: u8,
    /// Player who leads when there is no pending lead card.
    pub leader: Player,
}

/// Mathematical model of the public information.
pub struct PublicView {
    pub my_hand: Seq<Card>,
    pub opp_played: Option<Card>,
    pub briscola_suit: Suit,
    pub talon_len: usize,
    pub last_face_up_trump: Card,
    pub seen_cards: CardMask,
    pub score_me: u8,
    pub score_opp: u8,
    pub leader: Player,
}

impl View for PublicGameState {
    type V = PublicView;

    open spec fn view(&self) -> PublicView {
        PublicView {
            my_hand: self.my_hand@,
            opp_played: self.opp_played,
            briscola_suit: self.briscola_suit,
            talon_len: self.talon_len,
            last_face_up_trump: self.last_face_up_trump,
            seen_cards: self.seen_cards,
            score_me: self.score_me,
            score_opp: self.score_opp,
            leader: self.leader,
        }
    }
}

impl PublicGameState {
    /// Returns legal moves for the active player: every card in hand.
    pub fn legal_moves(&self) -> (moves: Vec<Card>)
        ensures
            moves@ == self.my_hand@,
    {
        copy_cards(self.my_hand.as_slice())
    }
}

/// Fully specified game state used by simulation/rollout.
#[derive(Debug, Clone)]
pub struct DeterminizedState {
    /// My current hand.
    pub my_hand: Vec<Card>,
    /// Opponent hand in this sampled world.
    pub opp_hand: Vec<Card>,
    /// Remaining draw pile order.
    pub talon: Vec<Card>,
    /// Trump suit.
    pub briscola_suit: Suit,
    /// Face-up trump card awarded when talon runs out after winner draw.
    pub face_up_trump: Card,
    /// My score.
    pub score_me: u8,
    /// Opponent score.
    pub score_opp: u8,
    /// Current leader when no pending trick exists.
    pub leader: Player,
    /// Current lead card waiting for reply.
    pub pending_lead: Option<Card>,
    /// Player who played pending lead.
    pub pending_lead_by: Option<Player>,
}

/// State transition errors for determinized gameplay operations.
#[derive(Debug, Clone, Copy, PartialEq, Eq, Structural)]
pub enum StateError {
    /// Action does not match turn/trick phase constraints.
    InvalidTurn,
    /// Attempted to play a card not present in actor hand.
    CardNotInHand,
    /// Reply attempted without a pending lead card.
    MissingLead,
}

/// Outcome for a completed trick.
#[derive(Debug, Clone, Copy, PartialEq, Eq, Structural)]
pub struct TrickOutcome {
    /// Player that wins the trick.
    pub winner: Player,
    /// Points captured by winner from the two played cards.
    pub trick_points: u8,
}

/// Mathematical model of a determinized state.
pub struct GameView {
    pub my_hand: Seq<Card>,
    pub opp_hand: Seq<Card>,
    pub talon: Seq<Card>,
    pub briscola_suit: Suit,
    pub face_up_trump: Card,
    pub score_me: u8,
    pub score_opp: u8,
    pub leader: Player,
    pub pending_lead: Option<Card>,
    pub pending_lead_by: Option<Player>,
}

impl View for DeterminizedState {
    type V = GameView;

    open spec fn view(&self) -> GameView {
        GameView {
            my_hand: self.my_hand@,
            opp_hand: self.opp_hand@,
            talon: self.talon@,
            briscola_suit: self.briscola_suit,
            face_up_trump: self.face_up_trump,
            score_me: self.score_me,
            score_opp: self.score_opp,
            leader: self.leader,
            pending_lead: self.pending_lead,
            pending_lead_by: self.pending_lead_by,
        }
    }
}

/// `a + b`, clamped to the range of `u8`.
pub open spec fn sat_add(a: u8, b: u8) -> u8 {
    if a + b > 255 {
        255u8
    } else {
        (a + b) as u8
    }
}

/// Which player wins a trick, given who led and who replied.
pub open spec fn winner_of(lead: Card, lead_by: Player, follower: Player, reply: Card, trump: Suit) -> Player {
    match trick_winner(lead, reply, trump) {
        TrickWinner::Leader => lead_by,
        TrickWinner::Follower => follower,
    }
}

impl GameView {
    /// A player's hand.
    pub open spec fn hand(self, player: Player) -> Seq<Card> {
        match player {
            Player::Me => self.my_hand,
            Player::Opponent => self.opp_hand,
        }
    }

    /// The same state with a player's hand replaced.
    pub open spec fn with_hand(self, player: Player, hand: Seq<Card>) -> GameView {
        match player {
            Player::Me => GameView { my_hand: hand, ..self },
            Player::Opponent => GameView { opp_hand: hand, ..self },
        }
    }

    /// The same state with trick points credited to a player.
    pub open spec fn with_points(self, player: Player, points: u8) -> GameView {
        match player {
            Player::Me => GameView { score_me: sat_add(self.score_me, points), ..self },
            Player::Opponent => GameView { score_opp: sat_add(self.score_opp, points), ..self },
        }
    }

    /// The draw phase after a trick: the winner takes the top of the talon,
    /// then the loser takes the next card, or the face-up trump when the
    /// talon has run out.
    pub open spec fn after_draw(self, winner: Player) -> GameView {
        if self.talon.len() == 0 {
            self
        } else {
            let loser = winner.other();
            let s1 = self.with_hand(winner, self.hand(winner).push(self.talon[0]));
            let rest = self.talon.drop_first();
            if rest.len() == 0 {
                GameView {
                    talon: rest,
                    ..s1.with_hand(loser, s1.hand(loser).push(self.face_up_trump))
                }
            } else {
                GameView { talon: rest.drop_first(), ..s1.with_hand(loser, s1.hand(loser).push(rest[0])) }
            }
        }
    }

    /// Result of leading `card` for `player`.
    pub open spec fn lead_result(self, player: Player, card: Card) -> Result<(), StateError> {
        if self.pending_lead is Some || self.leader != player {
            Err(StateError::InvalidTurn)
        } else if !self.hand(player).contains(card) {
            Err(StateError::CardNotInHand)
        } else {
            Ok(())
        }
    }

    /// State after `player` successfully leads `card`.
    pub open spec fn after_lead(self, player: Player, card: Card) -> GameView {
        GameView {
            pending_lead: Some(card),
            pending_lead_by: Some(player),
            ..self.with_hand(player, self.hand(player).remove_value(card))
        }
    }

    /// Result of replying `card` for `player`.
    pub open spec fn reply_result(self, player: Player, card: Card) -> Result<TrickOutcome, StateError> {
        match self.pending_lead {
            None => Err(StateError::MissingLead),
            Some(lead) => match self.pending_lead_by {
                None => Err(StateError::MissingLead),
                Some(lead_by) => {
                    if lead_by == player {
                        Err(StateError::InvalidTurn)
                    } else if !self.hand(player).contains(card) {
                        Err(StateError::CardNotInHand)
                    } else {
                        Ok(
                            TrickOutcome {
                                winner: winner_of(lead, lead_by, player, card, self.briscola_suit),
                                trick_points: trick_points(lead, card),
                            },
                        )
                    }
                },
            },
        }
    }

    /// State after `player` successfully replies `card`: the trick is
    /// scored for its winner, cards are drawn, and the winner leads next.
    pub open spec fn after_reply(self, player: Player, card: Card) -> GameView {
        let lead = self.pending_lead.unwrap();
        let lead_by = self.pending_lead_by.unwrap();
        let winner = winner_of(lead, lead_by, player, card, self.briscola_suit);
        let s1 = self.with_hand(player, self.hand(player).remove_value(card));
        let s2 = s1.with_points(winner, trick_points(lead, card));
        let s3 = s2.after_draw(winner);
        GameView { leader: winner, pending_lead: None, pending_lead_by: None, ..s3 }
    }

    /// No cards are left in hands or talon.
    pub open spec fn is_terminal(self) -> bool {
        self.my_hand.len() == 0 && self.opp_hand.len() == 0 && self.talon.len() == 0
    }

    /// Hand sizes are consistent with the phase of the trick: equal between
    /// tricks (and empty only once the talon is exhausted), and one card
    /// short for the player who has led a pending trick.
    pub open spec fn well_formed(self) -> bool {
        &&& (self.pending_lead is Some) == (self.pending_lead_by is Some)
        &&& match self.pending_lead_by {
            None => {
                &&& self.my_hand.len() == self.opp_hand.len()
                &&& self.my_hand.len() == 0 ==> self.talon.len() == 0
            },
            Some(p) => self.hand(p.other()).len() == self.hand(p).len() + 1,
        }
    }

    /// Number of cards still to be played: hands, talon, the face-up
    /// trump while the talon lasts, and a pending lead card.
    pub open spec fn cards_left(self) -> nat {
        self.my_hand.len() + self.opp_hand.len() + self.talon.len() + (if self.talon.len()
            > 0 {
            1nat
        } else {
            0nat
        }) + (if self.pending_lead is Some {
            1nat
        } else {
            0nat
        })
    }

    /// The talon holds an odd number of cards until it is exhausted, as it
    /// does from the deal on; only then is the face-up trump its last draw.
    pub open spec fn talon_parity(self) -> bool {
        self.talon.len() % 2 == 1 || self.talon.len() == 0
    }

    /// Points on the cards still to be played.
    pub open spec fn points_left(self) -> nat {
        seq_points(self.my_hand) + seq_points(self.opp_hand) + seq_points(self.talon) + (
        if self.talon.len() > 0 {
            self.face_up_trump.rank.points() as nat
        } else {
            0nat
        }) + (match self.pending_lead {
            Some(c) => c.rank.points() as nat,
            None => 0nat,
        })
    }

    /// Points already scored plus points still to be played.
    pub open spec fn total_points(self) -> nat {
        self.score_me as nat + self.score_opp as nat + self.points_left()
    }
}

/// Leading a card keeps the state well formed and moves the card from the
/// hand to the table: no card and no point is created or lost.
pub proof fn lemma_lead_conserves(v: GameView, player: Player, card: Card)
    requires
        v.well_formed(),
        v.lead_result(player, card) is Ok,
    ensures
        v.after_lead(player, card).well_formed(),
        v.after_lead(player, card).talon_parity() == v.talon_parity(),
        v.after_lead(player, card).cards_left() == v.cards_left(),
        v.after_lead(player, card).total_points() == v.total_points(),
        !v.is_terminal(),
{
    let h = v.hand(player);
    h.index_of_first_ensures(card);
    let i = h.index_of_first(card).unwrap();
    lemma_points_remove(h, i);
}

/// Replying to a pending lead keeps the state well formed, takes exactly
/// the two played cards out of play, and credits their points to the
/// trick winner, so the total of scored and unplayed points is unchanged
/// as long as it fits in a score.
pub proof fn lemma_reply_conserves(v: GameView, player: Player, card: Card)
    requires
        v.well_formed(),
        v.talon_parity(),
        v.reply_result(player, card) is Ok,
        v.total_points() <= 255,
    ensures
        v.after_reply(player, card).well_formed(),
        v.after_reply(player, card).talon_parity(),
        v.after_reply(player, card).cards_left() + 2 == v.cards_left(),
        v.after_reply(player, card).total_points() == v.total_points(),
{
    let h = v.hand(player);
    h.index_of_first_ensures(card);
    let i = h.index_of_first(card).unwrap();
    lemma_points_remove(h, i);
    let lead = v.pending_lead.unwrap();
    let lead_by = v.pending_lead_by.unwrap();
    let winner = winner_of(lead, lead_by, player, card, v.briscola_suit);
    let pts = trick_points(lead, card);
    let s1 = v.with_hand(player, h.remove_value(card));
    lemma_with_hand(v, player, h.remove_value(card));
    let s2 = s1.with_points(winner, pts);
    lemma_with_points(s1, winner, pts);
    lemma_draw(s2, winner);
}

/// Credits points without touching the cards.
proof fn lemma_with_points(v: GameView, p: Player, pts: u8)
    requires
        v.score_me as nat + v.score_opp as nat + pts as nat <= 255,
    ensures
        v.with_points(p, pts).score_me as nat + v.with_points(p, pts).score_opp as nat
            == v.score_me as nat + v.score_opp as nat + pts as nat,
        v.with_points(p, pts).my_hand == v.my_hand,
        v.with_points(p, pts).opp_hand == v.opp_hand,
        v.with_points(p, pts).talon == v.talon,
        v.with_points(p, pts).face_up_trump == v.face_up_trump,
{
}

/// The draw phase moves cards from the talon (and the face-up trump) to
/// the hands: one card to each hand while the talon lasts.
proof fn lemma_draw(v: GameView, w: Player)
    requires
        v.talon_parity(),
    ensures
        v.after_draw(w).talon_parity(),
        hands_len(v.after_draw(w)) + talon_count(v.after_draw(w)) == hands_len(v) + talon_count(v),
        hands_points(v.after_draw(w)) + talon_points(v.after_draw(w)) == hands_points(v)
            + talon_points(v),
        v.after_draw(w).score_me == v.score_me,
        v.after_draw(w).score_opp == v.score_opp,
        v.talon.len() > 0 ==> v.after_draw(w).my_hand.len() == v.my_hand.len() + 1
            && v.after_draw(w).opp_hand.len() == v.opp_hand.len() + 1,
        v.talon.len() == 0 ==> v.after_draw(w) == v,
{
    if v.talon.len() > 0 {
        let loser = w.other();
        let t0 = v.talon[0];
        let rest = v.talon.drop_first();
        lemma_points_remove(v.talon, 0);
        assert(v.talon.remove(0) =~= rest);
        let w1 = v.with_hand(w, v.hand(w).push(t0));
        lemma_with_hand(v, w, v.hand(w).push(t0));
        lemma_points_push(v.hand(w), t0);
        let fin = v.after_draw(w);
        if rest.len() == 0 {
            let w2 = w1.with_hand(loser, w1.hand(loser).push(v.face_up_trump));
            lemma_with_hand(w1, loser, w1.hand(loser).push(v.face_up_trump));
            lemma_points_push(w1.hand(loser), v.face_up_trump);
            assert(fin.my_hand == w2.my_hand && fin.opp_hand == w2.opp_hand);
            assert(fin.talon.len() == 0);
            assert(hands_len(fin) == hands_len(v) + 2);
            assert(hands_points(fin) == hands_points(v) + t0.rank.points()
                + v.face_up_trump.rank.points());
            assert(seq_points(v.talon) == t0.rank.points());
        } else {
            let w2 = w1.with_hand(loser, w1.hand(loser).push(rest[0]));
            lemma_with_hand(w1, loser, w1.hand(loser).push(rest[0]));
            lemma_points_push(w1.hand(loser), rest[0]);
            lemma_points_remove(rest, 0);
            assert(rest.remove(0) =~= rest.drop_first());
            assert(fin.my_hand == w2.my_hand && fin.opp_hand == w2.opp_hand);
            assert(fin.talon == rest.drop_first());
            assert(hands_len(fin) == hands_len(v) + 2);
            assert(hands_points(fin) == hands_points(v) + t0.rank.points() + rest[0].rank.points());
            assert(fin.face_up_trump == v.face_up_trump);
        }
    }
}

/// Cards in the talon, counting the face-up trump while the talon lasts.
pub open spec fn talon_count(v: GameView) -> nat {
    v.talon.len() + (if v.talon.len() > 0 {
        1nat
    } else {
        0nat
    })
}

/// Points in the talon, counting the face-up trump while the talon lasts.
pub open spec fn talon_points(v: GameView) -> nat {
    seq_points(v.talon) + (if v.talon.len() > 0 {
        v.face_up_trump.rank.points() as nat
    } else {
        0nat
    })
}

/// A measure of how much play remains: two per talon card, one per card
/// in hand, one for a pending lead.
pub open spec fn play_measure(v: GameView) -> nat {
    2 * v.talon.len() + v.my_hand.len() + v.opp_hand.len() + (if v.pending_lead is Some {
        1nat
    } else {
        0nat
    })
}

/// The shape of the draw phase: one card to each hand while the talon
/// lasts; the talon loses two cards, or its last one.
proof fn lemma_draw_shape(v: GameView, w: Player)
    ensures
        v.talon.len() > 0 ==> v.after_draw(w).my_hand.len() == v.my_hand.len() + 1
            && v.after_draw(w).opp_hand.len() == v.opp_hand.len() + 1,
        v.talon.len() > 1 ==> v.after_draw(w).talon.len() + 2 == v.talon.len(),
        v.talon.len() <= 1 ==> v.after_draw(w).talon.len() == 0,
        v.talon.len() == 0 ==> v.after_draw(w) == v,
        v.after_draw(w).pending_lead == v.pending_lead,
{
    if v.talon.len() > 0 {
        let loser = w.other();
        let t0 = v.talon[0];
        let rest = v.talon.drop_first();
        let w1 = v.with_hand(w, v.hand(w).push(t0));
        lemma_with_hand(v, w, v.hand(w).push(t0));
        if rest.len() == 0 {
            lemma_with_hand(w1, loser, w1.hand(loser).push(v.face_up_trump));
        } else {
            lemma_with_hand(w1, loser, w1.hand(loser).push(rest[0]));
        }
    }
}

/// A valid reply keeps the state well formed and lowers the play measure
/// by at least two.
pub proof fn lemma_reply_well_formed(v: GameView, player: Player, card: Card)
    requires
        v.well_formed(),
        v.reply_result(player, card) is Ok,
    ensures
        v.after_reply(player, card).well_formed(),
        play_measure(v.after_reply(player, card)) + 2 <= play_measure(v),
{
    let h = v.hand(player);
    h.index_of_first_ensures(card);
    let lead = v.pending_lead.unwrap();
    let lead_by = v.pending_lead_by.unwrap();
    let winner = winner_of(lead, lead_by, player, card, v.briscola_suit);
    let pts = trick_points(lead, card);
    let s1 = v.with_hand(player, h.remove_value(card));
    lemma_with_hand(v, player, h.remove_value(card));
    let s2 = s1.with_points(winner, pts);
    assert(s2.my_hand == s1.my_hand && s2.opp_hand == s1.opp_hand && s2.talon == s1.talon);
    lemma_draw_shape(s2, winner);
    assert(lead_by == player.other());
    assert(s1.my_hand.len() == s1.opp_hand.len());
}

/// A valid lead keeps the state well formed and the play measure unchanged.
pub proof fn lemma_lead_well_formed(v: GameView, player: Player, card: Card)
    requires
        v.well_formed(),
        v.lead_result(player, card) is Ok,
    ensures
        v.after_lead(player, card).well_formed(),
        play_measure(v.after_lead(player, card)) == play_measure(v),
{
    let h = v.hand(player);
    h.index_of_first_ensures(card);
    lemma_with_hand(v, player, h.remove_value(card));
}

/// Number of cards in both hands.
pub open spec fn hands_len(v: GameView) -> nat {
    v.my_hand.len() + v.opp_hand.len()
}

/// Points on the cards in both hands.
pub open spec fn hands_points(v: GameView) -> nat {
    seq_points(v.my_hand) + seq_points(v.opp_hand)
}

proof fn lemma_with_hand(v: GameView, p: Player, h: Seq<Card>)
    ensures
        v.with_hand(p, h).hand(p) == h,
        v.with_hand(p, h).hand(p.other()) == v.hand(p.other()),
        hands_len(v.with_hand(p, h)) + v.hand(p).len() == hands_len(v) + h.len(),
        hands_points(v.with_hand(p, h)) + seq_points(v.hand(p)) == hands_points(v) + seq_points(h),
        v.with_hand(p, h).talon == v.talon,
        v.with_hand(p, h).score_me == v.score_me,
        v.with_hand(p, h).score_opp == v.score_opp,
        v.with_hand(p, h).pending_lead == v.pending_lead,
        v.with_hand(p, h).face_up_trump == v.face_up_trump,
{
}

impl DeterminizedState {
    /// Returns a player's current hand.
    pub fn hand(&self, player: Player) -> (h: &[Card])
        ensures
            h@ == self@.hand(player),
    {
        match player {
            Player::Me => self.my_hand.as_slice(),
            Player::Opponent => self.opp_hand.as_slice(),
        }
    }

    /// Returns legal moves for a player: every card in their hand.
    pub fn legal_moves(&self, player: Player) -> (moves: Vec<Card>)
        ensures
            moves@ == self@.hand(player),
    {
        copy_cards(self.hand(player))
    }

    /// True when there are no cards left in hands or talon.
    pub fn is_terminal(&self) -> (b: bool)
        ensures
            b == self@.is_terminal(),
    {
        self.my_hand.is_empty() && self.opp_hand.is_empty() && self.talon.is_empty()
    }

    /// Plays a lead card for the current trick leader.
    ///
    /// Fails with [StateError::InvalidTurn] if a trick is already pending or
    /// `player` is not the leader, and with [StateError::CardNotInHand] when
    /// `card` is not in the player's hand; a failed call changes nothing.
    pub fn play_lead_card(&mut self, player: Player, card: Card) -> (r: Result<(), StateError>)
        ensures
            r == old(self)@.lead_result(player, card),
            r is Ok ==> final(self)@ == old(self)@.after_lead(player, card),
            r is Err ==> final(self)@ == old(self)@,
    {
        if self.pending_lead.is_some() || self.leader != player {
            return Err(StateError::InvalidTurn);
        }
        match self.remove_card_from_hand(player, card) {
            Ok(()) => {},
            Err(e) => {
                return Err(e);
            },
        }
        self.pending_lead = Some(card);
        self.pending_lead_by = Some(player);
        Ok(())
    }

    /// Plays a reply card and resolves the trick.
    ///
    /// Validates the pending lead and the actor's role, removes the reply
    /// card from the hand, credits the trick points to the winner, performs
    /// the draw phase (winner first, loser second) and makes the winner the
    /// next leader. Fails with [StateError::MissingLead] when no lead is
    /// pending, [StateError::InvalidTurn] when the leader tries to reply, or
    /// [StateError::CardNotInHand] when `card` is absent from hand; a failed
    /// call changes nothing.
    pub fn play_reply_card(&mut self, player: Player, card: Card) -> (r: Result<TrickOutcome, StateError>)
        ensures
            r == old(self)@.reply_result(player, card),
            r is Ok ==> final(self)@ == old(self)@.after_reply(player, card),
            r is Err ==> final(self)@ == old(self)@,
    {
        let lead_card = match self.pending_lead {
            Some(c) => c,
            None => {
                return Err(StateError::MissingLead);
            },
        };
        let lead_by = match self.pending_lead_by {
            Some(p) => p,
            None => {
                return Err(StateError::MissingLead);
            },
        };
        if lead_by == player {
            return Err(StateError::InvalidTurn);
        }
        match self.remove_card_from_hand(player, card) {
            Ok(()) => {},
            Err(e) => {
                return Err(e);
            },
        }
        let winner = match trick_winner(lead_card, card, self.briscola_suit) {
            TrickWinner::Leader => lead_by,
            TrickWinner::Follower => player,
        };
        let points = trick_points(lead_card, card);
        self.add_score(winner, points);
        self.draw_phase(winner);
        self.leader = winner;
        self.pending_lead = None;
        self.pending_lead_by = None;
        Ok(TrickOutcome { winner, trick_points: points })
    }

    /// Removes the first occurrence of `card` from a player's hand.
    fn remove_card_from_hand(&mut self, player: Player, card: Card) -> (r: Result<(), StateError>)
        ensures
            r is Ok <==> old(self)@.hand(player).contains(card),
            r is Err ==> r == Err::<(), StateError>(StateError::CardNotInHand),
            r is Ok ==> final(self)@ == old(self)@.with_hand(
                player,
                old(self)@.hand(player).remove_value(card),
            ),
            r is Err ==> final(self)@ == old(self)@,
    {
        let hand = self.hand(player);
        let mut i: usize = 0;
        while i < hand.len() && hand[i] != card
            invariant
                i <= hand@.len(),
                hand@ == self@.hand(player),
                forall|j: int| 0 <= j < i ==> hand@[j] != card,
            decreases hand@.len() - i,
        {
            i = i + 1;
        }
        proof {
            hand@.index_of_first_ensures(card);
        }
        if i == hand.len() {
            return Err(StateError::CardNotInHand);
        }
        proof {
            let k = hand@.index_of_first(card).unwrap();
            assert(k == i);
        }
        match player {
            Player::Me => {
                self.my_hand.remove(i);
            },
            Player::Opponent => {
                self.opp_hand.remove(i);
            },
        }
        proof {
            assert(self@.hand(player) =~= old(self)@.hand(player).remove_value(card));
            assert(self@ == old(self)@.with_hand(player, old(self)@.hand(player).remove_value(card)));
        }
        Ok(())
    }

    /// Appends `card` to a player's hand.
    fn add_card_to_hand(&mut self, player: Player, card: Card)
        ensures
            final(self)@ == old(self)@.with_hand(player, old(self)@.hand(player).push(card)),
    {
        match player {
            Player::Me => self.my_hand.push(card),
            Player::Opponent => self.opp_hand.push(card),
        }
    }

    /// Adds trick points to player score, saturating at u8 bounds.
    fn add_score(&mut self, player: Player, points: u8)
        ensures
            final(self)@ == old(self)@.with_points(player, points),
    {
        match player {
            Player::Me => self.score_me = self.score_me.saturating_add(points),
            Player::Opponent => self.score_opp = self.score_opp.saturating_add(points),
        }
    }

    /// Resolves post-trick draw order: the winner draws first from the
    /// talon; the loser draws second, or takes the face-up trump when the
    /// talon becomes empty after the winner's draw.
    fn draw_phase(&mut self, winner: Player)
        ensures
            final(self)@ == old(self)@.after_draw(winner),
    {
        if self.talon.is_empty() {
            return;
        }
        let loser = winner.other();
        let winner_draw = self.talon.remove(0);
        self.add_card_to_hand(winner, winner_draw);
        if self.talon.is_empty() {
            let face_up = self.face_up_trump;
            self.add_card_to_hand(loser, face_up);
        } else {
            let loser_draw = self.talon.remove(0);
            self.add_card_to_hand(loser, loser_draw);
        }
        proof {
            assert(old(self)@.talon.drop_first() =~= old(self)@.talon.remove(0));
        }
    }
}

} // verus!
