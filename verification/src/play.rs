//! Interactive human-vs-AI game orchestration.
use vstd::prelude::*;

use crate::bitset::{card_bit, CardMask};
use crate::card::{Card, Suit};
use crate::mc::{best_move_outcome, choose_best_move, BestMoveResult, MonteCarloConfig, MoveStats};
use crate::rng::{below_step, seed_state, FastRng};
use crate::rollout::{choose_lead_card, choose_reply_card, lead_choice, reply_choice};
use crate::rules::{trick_winner, TrickWinner};
use crate::simulation::{add_cards, initial_state, initial_view};
use crate::state::{
    copy_cards, lemma_lead_well_formed, lemma_reply_well_formed, play_measure, DeterminizedState, GameView,
    Player, PublicGameState, PublicView, StateError, TrickOutcome,
};

verus! {

/// Seed perturbation for the generator that picks the first leader.
pub const LEADER_SEED_MIX: u64 = 0xC3C3_C3C3_7A7A_7A7A;

/// Seed perturbation for the opponent's Monte Carlo generator.
pub const OPPONENT_SEED_MIX: u64 = 0xA1A1_A1A1_5E5E_5E5E;

/// Seed perturbation for the hint generator.
pub const HINT_SEED_MIX: u64 = 0xB2B2_B2B2_6D6D_6D6D;

/// Game configuration: deal seed and Monte Carlo sample counts.
#[derive(Debug, Clone, Copy, PartialEq, Eq, Structural)]
pub struct PlayConfig {
    pub seed: u64,
    pub hint_samples: usize,
    pub opponent_samples: usize,
}

impl Default for PlayConfig {
    fn default() -> (r: Self)
        ensures
            r == (PlayConfig { seed: 42, hint_samples: 128, opponent_samples: 96 }),
    {
        PlayConfig { seed: 42, hint_samples: 128, opponent_samples: 96 }
    }
}

/// Cards and result of a trick in which the player took part.
#[derive(Debug, Clone, Copy, PartialEq, Eq, Structural)]
pub struct PlayerTurnOutcome {
    pub lead_card: Card,
    pub reply_card: Card,
    pub winner: Player,
    pub trick_points: u8,
    pub opponent_card: Card,
}

/// Errors of interactive play.
#[derive(Debug, Clone, Copy, PartialEq, Eq, Structural)]
pub enum PlayError {
    InvalidState,
    InvalidMove,
    NotPlayerTurn,
    OpponentMoveFailed,
    HintFailed,
}

/// A game between the player (Me) and an AI opponent.
pub struct PlayableGame {
    state: DeterminizedState,
    seen_by_me: CardMask,
    seen_by_opp: CardMask,
    completed_tricks: usize,
    opponent_rng: FastRng,
    hint_rng: FastRng,
    opponent_samples: usize,
    hint_samples: usize,
}

/// Mathematical model of a game.
pub struct PlayView {
    pub state: GameView,
    pub seen_by_me: u64,
    pub seen_by_opp: u64,
    pub completed_tricks: nat,
    pub opponent_rng: u64,
    pub hint_rng: u64,
    pub opponent_samples: nat,
    pub hint_samples: nat,
}

impl View for PlayableGame {
    type V = PlayView;

    closed spec fn view(&self) -> PlayView {
        PlayView {
            state: self.state@,
            seen_by_me: self.seen_by_me,
            seen_by_opp: self.seen_by_opp,
            completed_tricks: self.completed_tricks as nat,
            opponent_rng: self.opponent_rng@,
            hint_rng: self.hint_rng@,
            opponent_samples: self.opponent_samples as nat,
            hint_samples: self.hint_samples as nat,
        }
    }
}

/// A game is consistent: its state is well formed, a pending lead was
/// made by the current leader, and the cards left to play bound the tricks
/// completed so far.
pub open spec fn play_wf(v: PlayView) -> bool {
    &&& v.state.well_formed()
    &&& v.state.pending_lead_by matches Some(p) ==> p == v.state.leader
    &&& play_measure(v.state) + 2 * v.completed_tricks <= 72
}

/// The opponent's pending lead, if the opponent has led.
pub open spec fn opponent_lead_of(v: PlayView) -> Option<Card> {
    if v.state.pending_lead_by == Some(Player::Opponent) {
        v.state.pending_lead
    } else {
        None
    }
}

/// It is the player's turn: the game is not over and either the opponent
/// has led or the player leads with no pending card.
pub open spec fn player_turn(v: PlayView) -> bool {
    !v.state.is_terminal() && (opponent_lead_of(v) is Some || (v.state.leader == Player::Me
        && v.state.pending_lead is None))
}

/// `v` with the Monte Carlo sample count `n` clamped to at least 1.
pub open spec fn at_least_one(n: nat) -> nat {
    if n == 0 {
        1
    } else {
        n
    }
}

/// The opponent's view of the game, seen from the opponent's seat.
pub open spec fn opponent_public(s: GameView, seen: u64, opp_played: Option<Card>, leader: Player) -> PublicView {
    PublicView {
        my_hand: s.opp_hand,
        opp_played,
        briscola_suit: s.briscola_suit,
        talon_len: s.talon.len() as usize,
        last_face_up_trump: s.face_up_trump,
        seen_cards: seen,
        score_me: s.score_opp,
        score_opp: s.score_me,
        leader,
    }
}

/// The opponent's card (lead when `my_lead` is `None`, reply otherwise)
/// and its generator state afterwards.
pub open spec fn opponent_choice(v: PlayView, my_lead: Option<Card>) -> (u64, Result<Card, PlayError>) {
    let s = v.state;
    if v.opponent_samples == 0 {
        (
            v.opponent_rng,
            Ok(
                match my_lead {
                    None => lead_choice(s.opp_hand, s.briscola_suit),
                    Some(l) => reply_choice(s.opp_hand, l, s.briscola_suit, s.talon.len()),
                },
            ),
        )
    } else {
        let public = match my_lead {
            None => opponent_public(s, v.seen_by_opp, None, Player::Me),
            Some(l) => opponent_public(s, v.seen_by_opp | card_bit(l), Some(l), Player::Opponent),
        };
        let (st, r) = best_move_outcome(
            public,
            v.opponent_rng,
            MonteCarloConfig { samples_per_move: v.opponent_samples as usize },
        );
        (
            st,
            match r {
                Ok((c, _)) => Ok(c),
                Err(_) => Err(PlayError::OpponentMoveFailed),
            },
        )
    }
}

/// Game and result after the opponent leads when it is its turn to lead.
pub open spec fn opponent_lead_step(v: PlayView) -> (PlayView, Result<Option<Card>, PlayError>) {
    if v.state.is_terminal() || v.state.leader != Player::Opponent || v.state.pending_lead is Some {
        (v, Ok(None))
    } else {
        let (st, r) = opponent_choice(v, None);
        let v1 = PlayView { opponent_rng: st, ..v };
        match r {
            Err(e) => (v1, Err(e)),
            Ok(lead) => if v.state.lead_result(Player::Opponent, lead) is Err {
                (v1, Err(PlayError::OpponentMoveFailed))
            } else {
                (
                    PlayView {
                        state: v.state.after_lead(Player::Opponent, lead),
                        seen_by_me: v.seen_by_me | card_bit(lead),
                        seen_by_opp: v.seen_by_opp | card_bit(lead),
                        ..v1
                    },
                    Ok(Some(lead)),
                )
            },
        }
    }
}

/// The player's public view for a hint.
pub open spec fn hint_public(v: PlayView) -> PublicView {
    PublicView {
        my_hand: v.state.my_hand,
        opp_played: opponent_lead_of(v),
        briscola_suit: v.state.briscola_suit,
        talon_len: v.state.talon.len() as usize,
        last_face_up_trump: v.state.face_up_trump,
        seen_cards: v.seen_by_me,
        score_me: v.state.score_me,
        score_opp: v.state.score_opp,
        leader: v.state.leader,
    }
}

/// The first position `i` of `new_hand` holding a card absent from
/// `old_hand`.
pub open spec fn is_first_new(old_hand: Seq<Card>, new_hand: Seq<Card>, i: int) -> bool {
    &&& 0 <= i < new_hand.len()
    &&& !old_hand.contains(new_hand[i])
    &&& forall|j: int| 0 <= j < i ==> old_hand.contains(#[trigger] new_hand[j])
}

/// The first card of `new_hand` absent from `old_hand`.
pub open spec fn drawn_of(old_hand: Seq<Card>, new_hand: Seq<Card>) -> Option<Card> {
    if exists|i: int| is_first_new(old_hand, new_hand, i) {
        Some(new_hand[choose|i: int| is_first_new(old_hand, new_hand, i)])
    } else {
        None
    }
}

/// `m` with `c` added when there is one.
pub open spec fn add_opt(m: u64, c: Option<Card>) -> u64 {
    match c {
        Some(c) => m | card_bit(c),
        None => m,
    }
}

/// After a resolved trick: each player has seen the card they drew, and
/// one more trick is complete.
pub open spec fn finish_trick(v: PlayView, old_state: GameView) -> PlayView {
    PlayView {
        seen_by_me: add_opt(v.seen_by_me, drawn_of(old_state.my_hand, v.state.my_hand)),
        seen_by_opp: add_opt(v.seen_by_opp, drawn_of(old_state.opp_hand, v.state.opp_hand)),
        completed_tricks: v.completed_tricks + 1,
        ..v
    }
}

/// Game and result after the player plays `card`: a reply to the
/// opponent's lead, or a lead answered by the opponent.
pub open spec fn player_card_step(v: PlayView, card: Card) -> (PlayView, Result<PlayerTurnOutcome, PlayError>) {
    let s = v.state;
    if !player_turn(v) {
        (v, Err(PlayError::NotPlayerTurn))
    } else if !s.my_hand.contains(card) {
        (v, Err(PlayError::InvalidMove))
    } else {
        match opponent_lead_of(v) {
            Some(opp_lead) => {
                let v1 = PlayView {
                    seen_by_me: v.seen_by_me | card_bit(card),
                    seen_by_opp: v.seen_by_opp | card_bit(card),
                    ..v
                };
                match s.reply_result(Player::Me, card) {
                    Err(_) => (v1, Err(PlayError::InvalidMove)),
                    Ok(o) => (
                        finish_trick(PlayView { state: s.after_reply(Player::Me, card), ..v1 }, s),
                        Ok(
                            PlayerTurnOutcome {
                                lead_card: opp_lead,
                                reply_card: card,
                                winner: o.winner,
                                trick_points: o.trick_points,
                                opponent_card: opp_lead,
                            },
                        ),
                    ),
                }
            },
            None => if s.lead_result(Player::Me, card) is Err {
                (v, Err(PlayError::InvalidMove))
            } else {
                let v1 = PlayView {
                    state: s.after_lead(Player::Me, card),
                    seen_by_me: v.seen_by_me | card_bit(card),
                    seen_by_opp: v.seen_by_opp | card_bit(card),
                    ..v
                };
                let (st, r) = opponent_choice(v1, Some(card));
                let v2 = PlayView { opponent_rng: st, ..v1 };
                match r {
                    Err(e) => (v2, Err(e)),
                    Ok(reply) => {
                        let v3 = PlayView {
                            seen_by_me: v2.seen_by_me | card_bit(reply),
                            seen_by_opp: v2.seen_by_opp | card_bit(reply),
                            ..v2
                        };
                        match v1.state.reply_result(Player::Opponent, reply) {
                            Err(_) => (v3, Err(PlayError::OpponentMoveFailed)),
                            Ok(o) => (
                                finish_trick(
                                    PlayView { state: v1.state.after_reply(Player::Opponent, reply), ..v3 },
                                    s,
                                ),
                                Ok(
                                    PlayerTurnOutcome {
                                        lead_card: card,
                                        reply_card: reply,
                                        winner: o.winner,
                                        trick_points: o.trick_points,
                                        opponent_card: reply,
                                    },
                                ),
                            ),
                        }
                    },
                }
            },
        }
    }
}

/// Once the opponent's lead step succeeds it is the player's turn, unless
/// the game is over. The step keeps the player free of a pending lead of
/// their own, so the law applies again after the player's next move.
pub proof fn lemma_player_turn_after_opponent_lead(v: PlayView)
    requires
        play_wf(v),
        v.state.pending_lead_by != Some(Player::Me),
    ensures
        opponent_lead_step(v).1 is Ok ==> player_turn(opponent_lead_step(v).0) == !opponent_lead_step(
            v,
        ).0.state.is_terminal(),
        opponent_lead_step(v).0.state.pending_lead_by != Some(Player::Me),
{
}

/// A successful player move reports the trick as it was played: when the
/// opponent had led, its lead is the lead card and the opponent's card, and
/// mine the reply; when I lead, my card is the lead and the opponent's
/// answer, a card of its hand, is both the reply and the opponent's card.
/// The winner is the leader if the lead holds the trick, otherwise the
/// follower; it scores the two cards' points and leads next.
pub proof fn lemma_player_move_reports_trick(v: PlayView, card: Card)
    ensures
        ({
            let (v2, r) = player_card_step(v, card);
            r matches Ok(out) ==> {
                &&& v.state.my_hand.contains(card)
                &&& opponent_lead_of(v) is Some ==> {
                    &&& out.lead_card == opponent_lead_of(v).unwrap()
                    &&& out.reply_card == card
                    &&& out.opponent_card == out.lead_card
                    &&& out.winner == (if trick_winner(out.lead_card, card, v.state.briscola_suit)
                        == TrickWinner::Leader {
                        Player::Opponent
                    } else {
                        Player::Me
                    })
                }
                &&& opponent_lead_of(v) is None ==> {
                    &&& out.lead_card == card
                    &&& out.opponent_card == out.reply_card
                    &&& v.state.opp_hand.contains(out.reply_card)
                    &&& out.winner == (if trick_winner(card, out.reply_card, v.state.briscola_suit)
                        == TrickWinner::Leader {
                        Player::Me
                    } else {
                        Player::Opponent
                    })
                }
                &&& out.trick_points == out.lead_card.rank.points() + out.reply_card.rank.points()
                &&& v2.state.leader == out.winner
                &&& v2.completed_tricks == v.completed_tricks + 1
            }
        }),
{
}

/// The first leader for a seed: Me when a draw below 2 from a generator
/// seeded with `seed ^ LEADER_SEED_MIX` is 0, otherwise the opponent.
pub open spec fn first_leader(seed: u64) -> Player {
    if below_step(seed_state(seed ^ LEADER_SEED_MIX), 2).1 == 0 {
        Player::Me
    } else {
        Player::Opponent
    }
}

/// A new game for a configuration: the seeded deal, a seeded first leader,
/// each player having seen their hand and the face-up trump.
pub open spec fn new_game(config: PlayConfig) -> PlayView {
    let s = GameView { leader: first_leader(config.seed), ..initial_view(config.seed) };
    PlayView {
        state: s,
        seen_by_me: add_cards(0u64 | card_bit(s.face_up_trump), s.my_hand),
        seen_by_opp: add_cards(0u64 | card_bit(s.face_up_trump), s.opp_hand),
        completed_tricks: 0,
        opponent_rng: seed_state(config.seed ^ OPPONENT_SEED_MIX),
        hint_rng: seed_state(config.seed ^ HINT_SEED_MIX),
        opponent_samples: at_least_one(config.opponent_samples as nat),
        hint_samples: at_least_one(config.hint_samples as nat),
    }
}

/// A new game deals three cards to each player, turns up the trump that
/// names the briscola suit and leaves 33 cards in the talon, with no trick
/// played and no points scored, whatever the configuration.
pub proof fn lemma_new_game_shape(config: PlayConfig)
    ensures
        new_game(config).state.my_hand.len() == 3,
        new_game(config).state.opp_hand.len() == 3,
        new_game(config).state.talon.len() == 33,
        new_game(config).state.briscola_suit == new_game(config).state.face_up_trump.suit,
        new_game(config).state.score_me == 0,
        new_game(config).state.score_opp == 0,
        new_game(config).state.pending_lead is None,
        new_game(config).completed_tricks == 0,
{
    crate::rng::lemma_shuffled_permutes(seed_state(config.seed), crate::card::canonical_deck());
}

/// The seed decides who leads first, and both players can: seed 1 lets
/// the opponent lead, seed 2 the player.
pub proof fn lemma_first_leader_varies(c1: PlayConfig, c2: PlayConfig)
    requires
        c1.seed == 1,
        c2.seed == 2,
    ensures
        new_game(c1).state.leader == Player::Opponent,
        new_game(c2).state.leader == Player::Me,
{
    let s1: u64 = 1u64 ^ LEADER_SEED_MIX;
    let s2: u64 = 2u64 ^ LEADER_SEED_MIX;
    assert(s1 == 0xC3C3_C3C3_7A7A_7A7Bu64) by (bit_vector)
        requires
            s1 == 1u64 ^ 0xC3C3_C3C3_7A7A_7A7Au64,
    ;
    assert(s2 == 0xC3C3_C3C3_7A7A_7A78u64) by (bit_vector)
        requires
            s2 == 2u64 ^ 0xC3C3_C3C3_7A7A_7A7Au64,
    ;
    let x1 = crate::rng::xorshift(s1);
    let x2 = crate::rng::xorshift(s2);
    assert(x1 == 0x3D43_6443_5621_5543u64) by (bit_vector)
        requires
            s1 == 0xC3C3_C3C3_7A7A_7A7Bu64,
            x1 == (s1 ^ (s1 >> 12u64)) ^ ((s1 ^ (s1 >> 12u64)) << 25u64) ^ (((s1 ^ (s1 >> 12u64)) ^ ((s1
                ^ (s1 >> 12u64)) << 25u64)) >> 27u64),
    ;
    assert(x2 == 0x3D43_6443_5021_5540u64) by (bit_vector)
        requires
            s2 == 0xC3C3_C3C3_7A7A_7A78u64,
            x2 == (s2 ^ (s2 >> 12u64)) ^ ((s2 ^ (s2 >> 12u64)) << 25u64) ^ (((s2 ^ (s2 >> 12u64)) ^ ((s2
                ^ (s2 >> 12u64)) << 25u64)) >> 27u64),
    ;
    assert(seed_state(s1) == s1);
    assert(seed_state(s2) == s2);
    assert((crate::rng::scramble(x1) as nat) % 2 == 1);
    assert((crate::rng::scramble(x2) as nat) % 2 == 0);
}

/// Adds every card of a hand to a mask.
fn add_hand(mask: CardMask, hand: &[Card]) -> (m: CardMask)
    ensures
        m == add_cards(mask, hand@),
{
    let mut m = mask;
    let mut i: usize = 0;
    while i < hand.len()
        invariant
            i <= hand@.len(),
            m == add_cards(mask, hand@.subrange(0, i as int)),
        decreases hand@.len() - i,
    {
        proof {
            assert(hand@.subrange(0, i + 1).drop_last() =~= hand@.subrange(0, i as int));
        }
        m = crate::bitset::add(m, hand[i]);
        i = i + 1;
    }
    proof {
        assert(hand@.subrange(0, i as int) =~= hand@);
    }
    m
}

impl PlayableGame {
    /// The game is consistent: see [play_wf].
    pub open spec fn wf(&self) -> bool {
        play_wf(self@)
    }

    /// Starts a new game: deals from a deck shuffled with the configured
    /// seed, picks the first leader from a second seeded generator and
    /// clamps both sample counts to at least 1.
    pub fn new(config: PlayConfig) -> (r: Result<Self, PlayError>)
        ensures
            r matches Ok(g) && g@ == new_game(config) && g.wf(),
            r matches Ok(g) && g@.state.pending_lead is None && g@.state.pending_lead_by is None,
    {
        proof {
            lemma_new_game_shape(config);
        }
        let mut state = match initial_state(config.seed) {
            Ok(s) => s,
            Err(_) => {
                return Err(PlayError::InvalidState);
            },
        };
        proof {
            crate::simulation::lemma_initial_totals(config.seed);
        }
        let mut leader_rng = FastRng::new(config.seed ^ LEADER_SEED_MIX);
        let initial_leader = if leader_rng.gen_below(2) == 0 {
            Player::Me
        } else {
            Player::Opponent
        };
        state.leader = initial_leader;
        let seen_by_me = add_hand(crate::bitset::add(0, state.face_up_trump), state.my_hand.as_slice());
        let seen_by_opp = add_hand(crate::bitset::add(0, state.face_up_trump), state.opp_hand.as_slice());
        let opponent_samples = if config.opponent_samples == 0 {
            1
        } else {
            config.opponent_samples
        };
        let hint_samples = if config.hint_samples == 0 {
            1
        } else {
            config.hint_samples
        };
        Ok(
            PlayableGame {
                state,
                seen_by_me,
                seen_by_opp,
                completed_tricks: 0,
                opponent_rng: FastRng::new(config.seed ^ OPPONENT_SEED_MIX),
                hint_rng: FastRng::new(config.seed ^ HINT_SEED_MIX),
                opponent_samples,
                hint_samples,
            },
        )
    }

    /// Sets the hint sample count, clamped to at least 1.
    pub fn set_hint_samples(&mut self, samples: usize)
        ensures
            final(self)@ == (PlayView { hint_samples: at_least_one(samples as nat), ..old(self)@ }),
            old(self).wf() ==> final(self).wf(),
    {
        self.hint_samples = if samples == 0 {
            1
        } else {
            samples
        };
    }

    /// Sets the opponent sample count, clamped to at least 1.
    pub fn set_opponent_samples(&mut self, samples: usize)
        ensures
            final(self)@ == (PlayView { opponent_samples: at_least_one(samples as nat), ..old(self)@ }),
            old(self).wf() ==> final(self).wf(),
    {
        self.opponent_samples = if samples == 0 {
            1
        } else {
            samples
        };
    }

    /// Number of completed tricks.
    pub fn completed_tricks(&self) -> (n: usize)
        ensures
            n == self@.completed_tricks,
    {
        self.completed_tricks
    }

    /// True when no cards are left to play.
    pub fn is_game_over(&self) -> (b: bool)
        ensures
            b == self@.state.is_terminal(),
    {
        self.state.is_terminal()
    }

    /// My score.
    pub fn score_me(&self) -> (s: u8)
        ensures
            s == self@.state.score_me,
    {
        self.state.score_me
    }

    /// The opponent's score.
    pub fn score_opp(&self) -> (s: u8)
        ensures
            s == self@.state.score_opp,
    {
        self.state.score_opp
    }

    /// Cards left in the talon.
    pub fn talon_len(&self) -> (n: usize)
        ensures
            n == self@.state.talon.len(),
    {
        self.state.talon.len()
    }

    /// Cards in the opponent's hand.
    pub fn opponent_cards_remaining(&self) -> (n: usize)
        ensures
            n == self@.state.opp_hand.len(),
    {
        self.state.opp_hand.len()
    }

    /// The current leader.
    pub fn leader(&self) -> (p: Player)
        ensures
            p == self@.state.leader,
    {
        self.state.leader
    }

    /// The face-up trump card.
    pub fn briscola_card(&self) -> (c: Card)
        ensures
            c == self@.state.face_up_trump,
    {
        self.state.face_up_trump
    }

    /// The trump suit.
    pub fn briscola_suit(&self) -> (s: Suit)
        ensures
            s == self@.state.briscola_suit,
    {
        self.state.briscola_suit
    }

    /// My hand.
    pub fn my_hand(&self) -> (h: &[Card])
        ensures
            h@ == self@.state.my_hand,
    {
        self.state.my_hand.as_slice()
    }

    /// The opponent's pending lead, if the opponent has led.
    pub fn current_opponent_lead(&self) -> (c: Option<Card>)
        ensures
            c == opponent_lead_of(self@),
    {
        if self.state.pending_lead_by == Some(Player::Opponent) {
            self.state.pending_lead
        } else {
            None
        }
    }

    /// Whether the player is to act.
    pub fn is_player_turn(&self) -> (b: bool)
        ensures
            b == player_turn(self@),
    {
        if self.is_game_over() {
            return false;
        }
        self.current_opponent_lead().is_some() || (self.state.leader == Player::Me
            && self.state.pending_lead.is_none())
    }

    /// Lets the opponent lead when it is its turn to lead; otherwise does
    /// nothing and returns `None`.
    pub fn maybe_play_opponent_lead(&mut self) -> (r: Result<Option<Card>, PlayError>)
        requires
            old(self).wf(),
        ensures
            (final(self)@, r) == opponent_lead_step(old(self)@),
            final(self).wf(),
            old(self)@.state.pending_lead_by != Some(Player::Me) ==> final(self)@.state.pending_lead_by
                != Some(Player::Me),
            old(self)@.state.pending_lead_by != Some(Player::Me) && r is Ok ==> player_turn(final(self)@)
                == !final(self)@.state.is_terminal(),
    {
        proof {
            if old(self)@.state.pending_lead_by != Some(Player::Me) {
                lemma_player_turn_after_opponent_lead(old(self)@);
            }
        }
        if self.is_game_over() {
            return Ok(None);
        }
        if self.state.leader != Player::Opponent || self.state.pending_lead.is_some() {
            return Ok(None);
        }
        let lead = match self.choose_opponent_lead() {
            Ok(c) => c,
            Err(e) => {
                return Err(e);
            },
        };
        let ghost before = self.state@;
        match self.state.play_lead_card(Player::Opponent, lead) {
            Ok(()) => {},
            Err(_) => {
                return Err(PlayError::OpponentMoveFailed);
            },
        }
        proof {
            lemma_lead_well_formed(before, Player::Opponent, lead);
        }
        self.seen_by_me = crate::bitset::add(self.seen_by_me, lead);
        self.seen_by_opp = crate::bitset::add(self.seen_by_opp, lead);
        Ok(Some(lead))
    }

    /// Ranks my moves with the Monte Carlo evaluator on my public view.
    pub fn hint_best_move(&mut self) -> (r: Result<BestMoveResult, PlayError>)
        requires
            old(self).wf(),
        ensures
            final(self).wf(),
            !player_turn(old(self)@) ==> final(self)@ == old(self)@ && r == Err::<BestMoveResult, PlayError>(
                PlayError::NotPlayerTurn,
            ),
            player_turn(old(self)@) ==> ({
                let (st, out) = best_move_outcome(
                    hint_public(old(self)@),
                    old(self)@.hint_rng,
                    MonteCarloConfig { samples_per_move: old(self)@.hint_samples as usize },
                );
                &&& final(self)@ == (PlayView { hint_rng: st, ..old(self)@ })
                &&& match r {
                    Ok(res) => out == Ok::<(Card, Seq<MoveStats>), crate::mc::MonteCarloError>(
                        (res.best_move, res.moves@),
                    ),
                    Err(e) => e == PlayError::HintFailed && out is Err,
                }
            }),
            r matches Ok(res) ==> old(self)@.state.my_hand.contains(res.best_move),
    {
        if !self.is_player_turn() {
            return Err(PlayError::NotPlayerTurn);
        }
        proof {
            crate::mc::lemma_best_move_is_top(
                hint_public(self@),
                self@.hint_rng,
                MonteCarloConfig { samples_per_move: self@.hint_samples as usize },
            );
        }
        let public_state = PublicGameState {
            my_hand: copy_cards(self.state.my_hand.as_slice()),
            opp_played: self.current_opponent_lead(),
            briscola_suit: self.state.briscola_suit,
            talon_len: self.state.talon.len(),
            last_face_up_trump: self.state.face_up_trump,
            seen_cards: self.seen_by_me,
            score_me: self.state.score_me,
            score_opp: self.state.score_opp,
            leader: self.state.leader,
        };
        let result = choose_best_move(
            &public_state,
            &mut self.hint_rng,
            MonteCarloConfig { samples_per_move: self.hint_samples },
        );
        match result {
            Ok(res) => Ok(res),
            Err(_) => Err(PlayError::HintFailed),
        }
    }

    /// Plays my card: a reply to the opponent's lead, or a lead that the
    /// opponent answers. Each player records the cards they see, including
    /// the card they draw.
    pub fn play_player_card(&mut self, card: Card) -> (r: Result<PlayerTurnOutcome, PlayError>)
        requires
            old(self).wf(),
        ensures
            (final(self)@, r) == player_card_step(old(self)@, card),
            final(self).wf(),
            r is Ok ==> final(self)@.state.pending_lead is None && final(self)@.state.pending_lead_by is None,
    {
        if !self.is_player_turn() {
            return Err(PlayError::NotPlayerTurn);
        }
        if !contains_card(self.state.my_hand.as_slice(), card) {
            return Err(PlayError::InvalidMove);
        }
        let ghost before = self@;
        let old_my_hand = copy_cards(self.state.my_hand.as_slice());
        let old_opp_hand = copy_cards(self.state.opp_hand.as_slice());
        let lead_card;
        let reply_card;
        let opponent_card;
        let outcome: TrickOutcome;
        match self.current_opponent_lead() {
            Some(opp_lead) => {
                self.seen_by_me = crate::bitset::add(self.seen_by_me, card);
                self.seen_by_opp = crate::bitset::add(self.seen_by_opp, card);
                let ghost s0 = self.state@;
                outcome = match self.state.play_reply_card(Player::Me, card) {
                    Ok(o) => o,
                    Err(_) => {
                        return Err(PlayError::InvalidMove);
                    },
                };
                proof {
                    lemma_reply_well_formed(s0, Player::Me, card);
                }
                lead_card = opp_lead;
                reply_card = card;
                opponent_card = opp_lead;
            },
            None => {
                let ghost s0 = self.state@;
                match self.state.play_lead_card(Player::Me, card) {
                    Ok(()) => {},
                    Err(_) => {
                        return Err(PlayError::InvalidMove);
                    },
                }
                proof {
                    lemma_lead_well_formed(s0, Player::Me, card);
                }
                self.seen_by_me = crate::bitset::add(self.seen_by_me, card);
                self.seen_by_opp = crate::bitset::add(self.seen_by_opp, card);
                let opp_reply = match self.choose_opponent_reply(card) {
                    Ok(c) => c,
                    Err(e) => {
                        return Err(e);
                    },
                };
                self.seen_by_me = crate::bitset::add(self.seen_by_me, opp_reply);
                self.seen_by_opp = crate::bitset::add(self.seen_by_opp, opp_reply);
                let ghost s1 = self.state@;
                outcome = match self.state.play_reply_card(Player::Opponent, opp_reply) {
                    Ok(o) => o,
                    Err(_) => {
                        return Err(PlayError::OpponentMoveFailed);
                    },
                };
                proof {
                    lemma_reply_well_formed(s1, Player::Opponent, opp_reply);
                }
                lead_card = card;
                reply_card = opp_reply;
                opponent_card = opp_reply;
            },
        }
        match drawn_card(old_my_hand.as_slice(), self.state.my_hand.as_slice()) {
            Some(my_draw) => {
                self.seen_by_me = crate::bitset::add(self.seen_by_me, my_draw);
            },
            None => {},
        }
        match drawn_card(old_opp_hand.as_slice(), self.state.opp_hand.as_slice()) {
            Some(opp_draw) => {
                self.seen_by_opp = crate::bitset::add(self.seen_by_opp, opp_draw);
            },
            None => {},
        }
        self.completed_tricks += 1;
        Ok(PlayerTurnOutcome { lead_card, reply_card, winner: outcome.winner, trick_points: outcome.trick_points, opponent_card })
    }

    /// The opponent's lead: the greedy choice when no samples are
    /// configured, otherwise the Monte Carlo best move from its seat.
    fn choose_opponent_lead(&mut self) -> (r: Result<Card, PlayError>)
        requires
            old(self).wf(),
            old(self)@.state.pending_lead is None,
            old(self)@.state.leader == Player::Opponent,
            !old(self)@.state.is_terminal(),
        ensures
            final(self)@ == (PlayView { opponent_rng: opponent_choice(old(self)@, None).0, ..old(self)@ }),
            r == opponent_choice(old(self)@, None).1,
    {
        if self.opponent_samples == 0 {
            return Ok(choose_lead_card(&self.state, Player::Opponent));
        }
        let public = PublicGameState {
            my_hand: copy_cards(self.state.opp_hand.as_slice()),
            opp_played: None,
            briscola_suit: self.state.briscola_suit,
            talon_len: self.state.talon.len(),
            last_face_up_trump: self.state.face_up_trump,
            seen_cards: self.seen_by_opp,
            score_me: self.state.score_opp,
            score_opp: self.state.score_me,
            leader: Player::Me,
        };
        let result = choose_best_move(
            &public,
            &mut self.opponent_rng,
            MonteCarloConfig { samples_per_move: self.opponent_samples },
        );
        match result {
            Ok(res) => Ok(res.best_move),
            Err(_) => Err(PlayError::OpponentMoveFailed),
        }
    }

    /// The opponent's answer to my lead: the greedy choice when no samples
    /// are configured, otherwise the Monte Carlo best move from its seat.
    fn choose_opponent_reply(&mut self, my_lead: Card) -> (r: Result<Card, PlayError>)
        requires
            old(self)@.state.opp_hand.len() > 0,
            play_measure(old(self)@.state) <= 72,
        ensures
            final(self)@ == (PlayView { opponent_rng: opponent_choice(old(self)@, Some(my_lead)).0, ..old(self)@ }),
            r == opponent_choice(old(self)@, Some(my_lead)).1,
    {
        if self.opponent_samples == 0 {
            return Ok(choose_reply_card(&self.state, Player::Opponent, my_lead));
        }
        let seen = crate::bitset::add(self.seen_by_opp, my_lead);
        let public = PublicGameState {
            my_hand: copy_cards(self.state.opp_hand.as_slice()),
            opp_played: Some(my_lead),
            briscola_suit: self.state.briscola_suit,
            talon_len: self.state.talon.len(),
            last_face_up_trump: self.state.face_up_trump,
            seen_cards: seen,
            score_me: self.state.score_opp,
            score_opp: self.state.score_me,
            leader: Player::Opponent,
        };
        let result = choose_best_move(
            &public,
            &mut self.opponent_rng,
            MonteCarloConfig { samples_per_move: self.opponent_samples },
        );
        match result {
            Ok(res) => Ok(res.best_move),
            Err(_) => Err(PlayError::OpponentMoveFailed),
        }
    }
}

/// Whether a hand holds a card.
fn contains_card(hand: &[Card], card: Card) -> (b: bool)
    ensures
        b == hand@.contains(card),
{
    let mut i: usize = 0;
    while i < hand.len()
        invariant
            i <= hand@.len(),
            forall|j: int| 0 <= j < i ==> hand@[j] != card,
        decreases hand@.len() - i,
    {
        if hand[i] == card {
            return true;
        }
        i = i + 1;
    }
    false
}

/// The first card of the new hand that the old hand did not hold.
fn drawn_card(old_hand: &[Card], new_hand: &[Card]) -> (r: Option<Card>)
    ensures
        r == drawn_of(old_hand@, new_hand@),
{
    let mut i: usize = 0;
    while i < new_hand.len()
        invariant
            i <= new_hand@.len(),
            forall|j: int| 0 <= j < i ==> old_hand@.contains(#[trigger] new_hand@[j]),
        decreases new_hand@.len() - i,
    {
        if !contains_card(old_hand, new_hand[i]) {
            proof {
                assert(is_first_new(old_hand@, new_hand@, i as int));
                let k = choose|k: int| is_first_new(old_hand@, new_hand@, k);
                if k < i {
                    assert(old_hand@.contains(new_hand@[k]));
                } else if k > i {
                    assert(old_hand@.contains(new_hand@[i as int]));
                }
            }
            return Some(new_hand[i]);
        }
        i = i + 1;
    }
    None
}

/// Winner from final scores, `None` on a tie.
pub fn winner_from_scores(score_me: u8, score_opp: u8) -> (p: Option<Player>)
    ensures
        p == (if score_me > score_opp {
            Some(Player::Me)
        } else if score_me < score_opp {
            Some(Player::Opponent)
        } else {
            None
        }),
{
    if score_me > score_opp {
        Some(Player::Me)
    } else if score_me < score_opp {
        Some(Player::Opponent)
    } else {
        None
    }
}

/// The player who wins a trick, given who led it.
pub fn trick_winner_for_display(leader: Player, lead: Card, reply: Card, briscola: Suit) -> (p: Player)
    ensures
        p == (if trick_winner(lead, reply, briscola) == TrickWinner::Leader {
            leader
        } else {
            leader.other()
        }),
{
    if trick_winner(lead, reply, briscola) == TrickWinner::Leader {
        leader
    } else {
        leader.other()
    }
}

/// Display name of a player.
pub fn player_label(player: Player) -> (s: &'static str)
    ensures
        s@ == (match player {
            Player::Me => "Me"@,
            Player::Opponent => "Opponent"@,
        }),
{
    match player {
        Player::Me => "Me",
        Player::Opponent => "Opponent",
    }
}

} // verus!
