//! Full-game simulation with a configurable strategy for Me.
use vstd::prelude::*;

use crate::bitset::{card_bit, has_card, lemma_add_bit, CardMask};
use crate::card::{canonical_deck, full_deck, Card, Suit, FULL_DECK_SIZE, HAND_SIZE, INITIAL_TALON_SIZE};
use crate::mc::{
    best_move_outcome, choose_best_move, lemma_best_move_is_top, lemma_best_move_succeeds, lemma_rollout_step,
    my_turn, rollout_step, samplable, MonteCarloConfig, MonteCarloError,
};
use crate::determinize::{
    lemma_seen_count_add, lemma_seen_count_add_cards, lemma_seen_count_empty, lemma_unseen_count, seen_count,
};
use crate::rollout::lemma_choices_in_hand;
use crate::rules::{trick_winner, TrickWinner};
use crate::rng::{seed_state, shuffled, FastRng};
use crate::rollout::{choose_lead_card, choose_reply_card, lead_choice, reply_choice};
use crate::state::{copy_cards, lemma_deck_points, lemma_lead_conserves, lemma_lead_well_formed, lemma_points_concat, lemma_points_permutation, lemma_reply_conserves, lemma_reply_well_formed, play_measure, seq_points, DeterminizedState, GameView, Player, PublicGameState, PublicView};

verus! {

/// Seed perturbation for the generator used by the Monte Carlo policy.
pub const BEST_MOVE_SEED_MIX: u64 = 0xA5A5_A5A5_5A5A_5A5A;

/// Policy used for Me when simulating games.
#[derive(Debug, Clone, Copy, PartialEq, Eq, Structural)]
pub enum MePolicy {
    /// Fast deterministic heuristic policy.
    Heuristic,
    /// Monte Carlo best-move policy.
    BestMove,
}

/// Simulation configuration knobs.
#[derive(Debug, Clone, Copy, PartialEq, Eq, Structural)]
pub struct SimulationOptions {
    /// Move-selection policy for Me.
    pub me_policy: MePolicy,
    /// Samples per move when [MePolicy::BestMove] is used.
    pub samples_per_move: usize,
}

impl Default for SimulationOptions {
    fn default() -> (r: Self)
        ensures
            r == (SimulationOptions { me_policy: MePolicy::Heuristic, samples_per_move: 128 }),
    {
        SimulationOptions { me_policy: MePolicy::Heuristic, samples_per_move: 128 }
    }
}

/// Winner of a completed simulated game.
#[derive(Debug, Clone, Copy, PartialEq, Eq, Structural)]
pub enum GameWinner {
    /// Me has strictly higher final score.
    Me,
    /// Opponent has strictly higher final score.
    Opponent,
    /// Final scores are equal.
    Draw,
}

/// Simulation failure causes.
#[derive(Debug, Clone, Copy, PartialEq, Eq, Structural)]
pub enum SimulationError {
    /// Deck shape or derived card counts were invalid.
    InvalidDeck,
    /// A state transition failed unexpectedly.
    InvalidTransition,
    /// Monte Carlo strategy failed while choosing a move.
    StrategyFailed(MonteCarloError),
}

/// Snapshot log for one resolved trick during simulation.
#[derive(Debug, Clone, Copy, PartialEq, Eq, Structural)]
pub struct TrickLog {
    /// 1-based trick number.
    pub number: usize,
    /// Player that led this trick.
    pub leader: Player,
    /// Card led by [TrickLog::leader].
    pub lead_card: Card,
    /// Player that replied to the lead.
    pub follower: Player,
    /// Reply card by [TrickLog::follower].
    pub reply_card: Card,
    /// Winner of this trick.
    pub winner: Player,
    /// Points collected in this trick.
    pub trick_points: u8,
    /// Score for Me immediately after trick resolution.
    pub score_me: u8,
    /// Score for Opponent immediately after trick resolution.
    pub score_opp: u8,
    /// My hand size after trick resolution.
    pub my_hand_len: usize,
    /// Opponent hand size after trick resolution.
    pub opp_hand_len: usize,
    /// Talon size after trick resolution.
    pub talon_len: usize,
}

/// Full simulation output, including trick-by-trick history.
#[derive(Debug, Clone, PartialEq, Eq)]
pub struct GameLog {
    /// RNG seed used to initialize simulation state.
    pub seed: u64,
    /// Trump suit for the game.
    pub briscola_suit: Suit,
    /// Face-up trump card under the talon.
    pub face_up_trump: Card,
    /// My starting hand at trick 1.
    pub initial_my_hand: Vec<Card>,
    /// Opponent starting hand at trick 1.
    pub initial_opp_hand: Vec<Card>,
    /// Ordered trick history from first to last trick.
    pub tricks: Vec<TrickLog>,
    /// Final score for Me.
    pub final_score_me: u8,
    /// Final score for Opponent.
    pub final_score_opp: u8,
    /// Winner derived from final scores.
    pub winner: GameWinner,
}

/// Mathematical model of a game log.
pub struct GameLogView {
    pub seed: u64,
    pub briscola_suit: Suit,
    pub face_up_trump: Card,
    pub initial_my_hand: Seq<Card>,
    pub initial_opp_hand: Seq<Card>,
    pub tricks: Seq<TrickLog>,
    pub final_score_me: u8,
    pub final_score_opp: u8,
    pub winner: GameWinner,
}

impl View for GameLog {
    type V = GameLogView;

    open spec fn view(&self) -> GameLogView {
        GameLogView {
            seed: self.seed,
            briscola_suit: self.briscola_suit,
            face_up_trump: self.face_up_trump,
            initial_my_hand: self.initial_my_hand@,
            initial_opp_hand: self.initial_opp_hand@,
            tricks: self.tricks@,
            final_score_me: self.final_score_me,
            final_score_opp: self.final_score_opp,
            winner: self.winner,
        }
    }
}

/// `m` with the cards of `s` added.
pub open spec fn add_cards(m: u64, s: Seq<Card>) -> u64
    decreases s.len(),
{
    if s.len() == 0 {
        m
    } else {
        add_cards(m, s.drop_last()) | card_bit(s.last())
    }
}

/// What Me has seen: the opponent's revealed cards, the face-up trump, my
/// hand and the opponent's pending lead.
pub open spec fn visible_mask(v: GameView, revealed: u64, opp_played: Option<Card>) -> u64 {
    let m = add_cards(revealed | card_bit(v.face_up_trump), v.my_hand);
    match opp_played {
        Some(c) => m | card_bit(c),
        None => m,
    }
}

/// The public view Me decides from.
pub open spec fn me_public_view(v: GameView, seen: u64, opp_played: Option<Card>) -> PublicView {
    PublicView {
        my_hand: v.my_hand,
        opp_played,
        briscola_suit: v.briscola_suit,
        talon_len: v.talon.len() as usize,
        last_face_up_trump: v.face_up_trump,
        seen_cards: seen,
        score_me: v.score_me,
        score_opp: v.score_opp,
        leader: v.leader,
    }
}

/// Me's card and the Monte Carlo generator state after choosing it.
pub open spec fn me_choice(v: GameView, seen: u64, opp_played: Option<Card>, options: SimulationOptions, st: u64) -> (u64, Result<Card, SimulationError>) {
    match options.me_policy {
        MePolicy::Heuristic => (
            st,
            Ok(
                match opp_played {
                    Some(c) => reply_choice(v.my_hand, c, v.briscola_suit, v.talon.len()),
                    None => lead_choice(v.my_hand, v.briscola_suit),
                },
            ),
        ),
        MePolicy::BestMove => {
            let (st1, r) = best_move_outcome(
                me_public_view(v, seen, opp_played),
                st,
                MonteCarloConfig { samples_per_move: options.samples_per_move },
            );
            (
                st1,
                match r {
                    Ok((c, _)) => Ok(c),
                    Err(e) => Err(SimulationError::StrategyFailed(e)),
                },
            )
        },
    }
}

/// The initial deal from a shuffled deck: three cards to each player
/// alternately starting with Me, then the face-up trump, then the talon;
/// Me leads first.
pub open spec fn deal(order: Seq<Card>) -> GameView {
    GameView {
        my_hand: seq![order[0], order[2], order[4]],
        opp_hand: seq![order[1], order[3], order[5]],
        talon: order.subrange(7, 40),
        briscola_suit: order[6].suit,
        face_up_trump: order[6],
        score_me: 0,
        score_opp: 0,
        leader: Player::Me,
        pending_lead: None,
        pending_lead_by: None,
    }
}

/// The initial state for a seed: the canonical deck shuffled by a
/// generator seeded with `seed`, then dealt.
pub open spec fn initial_view(seed: u64) -> GameView {
    deal(shuffled(seed_state(seed), canonical_deck()).1)
}

/// The log entry of a resolved trick.
pub open spec fn trick_log(number: int, leader: Player, lead: Card, follower: Player, reply: Card, winner: Player, points: u8, v: GameView) -> TrickLog {
    TrickLog {
        number: number as usize,
        leader,
        lead_card: lead,
        follower,
        reply_card: reply,
        winner,
        trick_points: points,
        score_me: v.score_me,
        score_opp: v.score_opp,
        my_hand_len: v.my_hand.len() as usize,
        opp_hand_len: v.opp_hand.len() as usize,
        talon_len: v.talon.len() as usize,
    }
}

/// `m` with `c` revealed when the opponent played it.
pub open spec fn reveal_if_opp(m: u64, p: Player, c: Card) -> u64 {
    if p == Player::Opponent {
        m | card_bit(c)
    } else {
        m
    }
}

/// The leader's card: Me by its policy, the opponent by the greedy policy.
pub open spec fn lead_pick(v: GameView, revealed: u64, st: u64, options: SimulationOptions) -> (u64, Result<Card, SimulationError>) {
    if v.leader == Player::Me {
        me_choice(v, visible_mask(v, revealed, None), None, options, st)
    } else {
        (st, Ok(lead_choice(v.hand(v.leader), v.briscola_suit)))
    }
}

/// The follower's answer to `lead`: Me by its policy, the opponent by
/// the greedy policy.
pub open spec fn reply_pick(v: GameView, revealed: u64, st: u64, options: SimulationOptions, follower: Player, lead: Card) -> (u64, Result<Card, SimulationError>) {
    if follower == Player::Me {
        me_choice(v, visible_mask(v, revealed, Some(lead)), Some(lead), options, st)
    } else {
        (st, Ok(reply_choice(v.hand(follower), lead, v.briscola_suit, v.talon.len())))
    }
}

/// One trick: led, answered and logged as trick `number`; yields the new
/// state, the revealed cards, the generator state and the log entry.
#[verifier::opaque]
pub open spec fn play_trick(v: GameView, revealed: u64, st: u64, options: SimulationOptions, number: int) -> Result<(GameView, u64, u64, TrickLog), SimulationError> {
    let leader = v.leader;
    let (st1, lead_r) = lead_pick(v, revealed, st, options);
    match lead_r {
        Err(e) => Err(e),
        Ok(lead) => {
            let rev1 = reveal_if_opp(revealed, leader, lead);
            if v.lead_result(leader, lead) is Err {
                Err(SimulationError::InvalidTransition)
            } else {
                let v1 = v.after_lead(leader, lead);
                let follower = leader.other();
                let (st2, reply_r) = reply_pick(v1, rev1, st1, options, follower, lead);
                match reply_r {
                    Err(e) => Err(e),
                    Ok(reply) => {
                        let rev2 = reveal_if_opp(rev1, follower, reply);
                        match v1.reply_result(follower, reply) {
                            Err(_) => Err(SimulationError::InvalidTransition),
                            Ok(outcome) => {
                                let v2 = v1.after_reply(follower, reply);
                                Ok(
                                    (
                                        v2,
                                        rev2,
                                        st2,
                                        trick_log(
                                            number,
                                            leader,
                                            lead,
                                            follower,
                                            reply,
                                            outcome.winner,
                                            outcome.trick_points,
                                            v2,
                                        ),
                                    ),
                                )
                            },
                        }
                    },
                }
            }
        },
    }
}

/// The game played out from `v`, trick after trick, until no cards remain;
/// yields the terminal state and the whole log.
#[verifier::opaque]
pub open spec fn game_from(v: GameView, revealed: u64, st: u64, options: SimulationOptions, tricks: Seq<TrickLog>) -> Result<(GameView, Seq<TrickLog>), SimulationError>
    decreases play_measure(v),
{
    if v.is_terminal() {
        Ok((v, tricks))
    } else {
        match play_trick(v, revealed, st, options, tricks.len() + 1int) {
            Err(e) => Err(e),
            Ok((v2, rev2, st2, log)) => if play_measure(v2) < play_measure(v) {
                game_from(v2, rev2, st2, options, tricks.push(log))
            } else {
                Err(SimulationError::InvalidTransition)
            },
        }
    }
}

/// One unfolding of [game_from].
pub proof fn lemma_game_from_unfold(v: GameView, revealed: u64, st: u64, options: SimulationOptions, tricks: Seq<TrickLog>)
    ensures
        game_from(v, revealed, st, options, tricks) == (if v.is_terminal() {
            Ok((v, tricks))
        } else {
            match play_trick(v, revealed, st, options, tricks.len() + 1int) {
                Err(e) => Err(e),
                Ok((v2, rev2, st2, log)) => if play_measure(v2) < play_measure(v) {
                    game_from(v2, rev2, st2, options, tricks.push(log))
                } else {
                    Err(SimulationError::InvalidTransition)
                },
            }
        }),
{
    reveal(game_from);
}

/// Winner from final scores.
pub open spec fn winner_of_scores(me: u8, opp: u8) -> GameWinner {
    if me > opp {
        GameWinner::Me
    } else if me < opp {
        GameWinner::Opponent
    } else {
        GameWinner::Draw
    }
}

/// The log of the game simulated from `seed` with `options`.
pub open spec fn simulated_log(seed: u64, options: SimulationOptions) -> Result<GameLogView, SimulationError> {
    let v = initial_view(seed);
    match game_from(v, 0, seed_state(seed ^ BEST_MOVE_SEED_MIX), options, Seq::empty()) {
        Err(e) => Err(e),
        Ok((t, tricks)) => Ok(
            GameLogView {
                seed,
                briscola_suit: v.briscola_suit,
                face_up_trump: v.face_up_trump,
                initial_my_hand: v.my_hand,
                initial_opp_hand: v.opp_hand,
                tricks,
                final_score_me: t.score_me,
                final_score_opp: t.score_opp,
                winner: winner_of_scores(t.score_me, t.score_opp),
            },
        ),
    }
}

/// Simulates a full game with default [SimulationOptions].
pub fn simulate_game(seed: u64) -> (r: Result<GameLog, SimulationError>)
    ensures
        match r {
            Ok(log) => simulated_log(seed, SimulationOptions { me_policy: MePolicy::Heuristic, samples_per_move: 128 })
                == Ok::<GameLogView, SimulationError>(log@),
            Err(e) => simulated_log(seed, SimulationOptions { me_policy: MePolicy::Heuristic, samples_per_move: 128 })
                == Err::<GameLogView, SimulationError>(e),
        },
        r matches Ok(log) ==> log.tricks@.len() == 20 && log.final_score_me + log.final_score_opp
            == 120,
        r is Ok,
{
    simulate_game_with_options(seed, SimulationOptions::default())
}

/// Simulates a full game from seed and strategy options.
///
/// The deck is shuffled by a generator seeded with `seed` and dealt; Me
/// leads first. Each trick is led and answered, Me by its policy and the
/// opponent by the greedy policy, and logged until no cards remain.
/// Fails when a transition is invalid or the Monte Carlo policy fails.
pub fn simulate_game_with_options(seed: u64, options: SimulationOptions) -> (r: Result<GameLog, SimulationError>)
    ensures
        match r {
            Ok(log) => simulated_log(seed, options) == Ok::<GameLogView, SimulationError>(log@),
            Err(e) => simulated_log(seed, options) == Err::<GameLogView, SimulationError>(e),
        },
        r matches Ok(log) ==> log.tricks@.len() == 20 && log.final_score_me + log.final_score_opp
            == 120,
        options.me_policy == MePolicy::Heuristic ==> r is Ok,
        options.samples_per_move <= u32::MAX ==> r is Ok,
{
    proof {
        lemma_simulation_totals(seed, options);
        if options.me_policy == MePolicy::Heuristic {
            lemma_heuristic_simulation_succeeds(seed, options);
        } else if options.samples_per_move <= u32::MAX {
            lemma_best_move_simulation_succeeds(seed, options);
        }
    }
    let mut state = match initial_state(seed) {
        Ok(s) => s,
        Err(e) => {
            return Err(e);
        },
    };
    let mut best_move_rng = FastRng::new(seed ^ BEST_MOVE_SEED_MIX);
    let initial_my_hand = copy_cards(state.my_hand.as_slice());
    let initial_opp_hand = copy_cards(state.opp_hand.as_slice());
    let briscola_suit = state.briscola_suit;
    let face_up_trump = state.face_up_trump;
    let mut opp_revealed_cards: CardMask = 0;
    let mut tricks: Vec<TrickLog> = Vec::with_capacity(20);
    let ghost v0 = state@;
    proof {
        lemma_initial_totals(seed);
    }
    while !state.is_terminal()
        invariant
            state@.well_formed(),
            state@.pending_lead is None,
            v0 == initial_view(seed),
            tricks@.len() * 2 + play_measure(state@) <= 72,
            options.me_policy == MePolicy::Heuristic ==> simulated_log(seed, options) is Ok,
            options.samples_per_move <= u32::MAX ==> simulated_log(seed, options) is Ok,
            game_from(state@, opp_revealed_cards, best_move_rng@, options, tricks@) == game_from(
                v0,
                0,
                seed_state(seed ^ BEST_MOVE_SEED_MIX),
                options,
                Seq::empty(),
            ),
        decreases play_measure(state@),
    {
        proof {
            lemma_game_from_unfold(state@, opp_revealed_cards, best_move_rng@, options, tricks@);
        }
        let number = tricks.len() + 1;
        let log = play_one_trick(&mut state, &mut opp_revealed_cards, &mut best_move_rng, options, number);
        match log {
            Ok(log) => {
                tricks.push(log);
            },
            Err(e) => {
                return Err(e);
            },
        }
    }
    proof {
        lemma_game_from_unfold(state@, opp_revealed_cards, best_move_rng@, options, tricks@);
    }
    let winner = if state.score_me > state.score_opp {
        GameWinner::Me
    } else if state.score_me < state.score_opp {
        GameWinner::Opponent
    } else {
        GameWinner::Draw
    };
    Ok(
        GameLog {
            seed,
            briscola_suit,
            face_up_trump,
            initial_my_hand,
            initial_opp_hand,
            tricks,
            final_score_me: state.score_me,
            final_score_opp: state.score_opp,
            winner,
        },
    )
}

/// `v2` is `v` after its leader leads `lead` and the other player answers
/// `reply`, both validly.
pub open spec fn trick_shape(v: GameView, lead: Card, reply: Card, v2: GameView) -> bool {
    let leader = v.leader;
    &&& v.lead_result(leader, lead) is Ok
    &&& v.after_lead(leader, lead).reply_result(leader.other(), reply) is Ok
    &&& v2 == v.after_lead(leader, lead).after_reply(leader.other(), reply)
}

/// A played trick is a valid lead followed by a valid reply.
proof fn lemma_play_trick_shape(v: GameView, revealed: u64, st: u64, options: SimulationOptions, number: int)
    ensures
        play_trick(v, revealed, st, options, number) matches Ok((v2, _, _, log)) ==> log.number
            == number as usize && exists|lead: Card, reply: Card| #[trigger] trick_shape(v, lead, reply, v2),
{
    reveal(play_trick);
    if play_trick(v, revealed, st, options, number) is Ok {
        let (st1, lead_r) = lead_pick(v, revealed, st, options);
        let lead = lead_r->Ok_0;
        let v1 = v.after_lead(v.leader, lead);
        let rev1 = reveal_if_opp(revealed, v.leader, lead);
        let (st2, reply_r) = reply_pick(v1, rev1, st1, options, v.leader.other(), lead);
        let reply = reply_r->Ok_0;
        assert(trick_shape(v, lead, reply, play_trick(v, revealed, st, options, number)->Ok_0.0));
    }
}

/// From a well-formed state between tricks whose talon has an odd number
/// of cards (or none), a completed game takes one trick per two cards
/// left and ends with all scored and unplayed points in the scores.
pub proof fn lemma_game_totals(v: GameView, revealed: u64, st: u64, options: SimulationOptions, tricks: Seq<TrickLog>, k: nat)
    requires
        v.well_formed(),
        v.talon_parity(),
        v.pending_lead is None,
        v.total_points() <= 255,
        v.cards_left() == 2 * k,
    ensures
        game_from(v, revealed, st, options, tricks) matches Ok((t, tr)) ==> t.score_me as nat
            + t.score_opp as nat == v.total_points() && tr.len() == tricks.len() + k,
    decreases play_measure(v),
{
    lemma_game_from_unfold(v, revealed, st, options, tricks);
    if v.is_terminal() {
        assert(v.points_left() == 0);
    } else {
        lemma_play_trick_shape(v, revealed, st, options, tricks.len() + 1int);
        if play_trick(v, revealed, st, options, tricks.len() + 1int) is Ok {
            let (v2, rev2, st2, log) = play_trick(v, revealed, st, options, tricks.len() + 1int)->Ok_0;
            let (lead, reply) = choose|lead: Card, reply: Card| #[trigger] trick_shape(v, lead, reply, v2);
            let leader = v.leader;
            lemma_lead_conserves(v, leader, lead);
            let v1 = v.after_lead(leader, lead);
            lemma_reply_conserves(v1, leader.other(), reply);
            if play_measure(v2) < play_measure(v) {
                lemma_game_totals(v2, rev2, st2, options, tricks.push(log), (k - 1) as nat);
            }
        }
    }
}

/// The initial deal is well formed, holds all 40 cards (counting the
/// face-up trump) and all 120 points, with a talon of 33 cards.
pub proof fn lemma_initial_totals(seed: u64)
    ensures
        initial_view(seed).well_formed(),
        initial_view(seed).talon_parity(),
        initial_view(seed).pending_lead is None,
        initial_view(seed).cards_left() == 40,
        initial_view(seed).total_points() == 120,
        play_measure(initial_view(seed)) == 72,
{
    let order = shuffled(seed_state(seed), canonical_deck()).1;
    crate::rng::lemma_shuffled_permutes(seed_state(seed), canonical_deck());
    lemma_points_permutation(order, canonical_deck());
    lemma_deck_points();
    let v = initial_view(seed);
    lemma_points_concat(order.subrange(0, 7), order.subrange(7, 40));
    assert(order.subrange(0, 7) + order.subrange(7, 40) =~= order);
    reveal_with_fuel(seq_points, 8);
    assert(seq_points(order.subrange(0, 7)) == order[0].rank.points() + order[1].rank.points()
        + order[2].rank.points() + order[3].rank.points() + order[4].rank.points() + order[5].rank.points()
        + order[6].rank.points()) by {
        let p = order.subrange(0, 7);
        assert(p.drop_last() =~= order.subrange(0, 6));
        assert(order.subrange(0, 6).drop_last() =~= order.subrange(0, 5));
        assert(order.subrange(0, 5).drop_last() =~= order.subrange(0, 4));
        assert(order.subrange(0, 4).drop_last() =~= order.subrange(0, 3));
        assert(order.subrange(0, 3).drop_last() =~= order.subrange(0, 2));
        assert(order.subrange(0, 2).drop_last() =~= order.subrange(0, 1));
        assert(order.subrange(0, 1).drop_last() =~= Seq::<Card>::empty());
    }
    assert(seq_points(v.my_hand) == order[0].rank.points() + order[2].rank.points()
        + order[4].rank.points()) by {
        assert(v.my_hand.drop_last() =~= seq![order[0], order[2]]);
        assert(seq![order[0], order[2]].drop_last() =~= seq![order[0]]);
        assert(seq![order[0]].drop_last() =~= Seq::<Card>::empty());
    }
    assert(seq_points(v.opp_hand) == order[1].rank.points() + order[3].rank.points()
        + order[5].rank.points()) by {
        assert(v.opp_hand.drop_last() =~= seq![order[1], order[3]]);
        assert(seq![order[1], order[3]].drop_last() =~= seq![order[1]]);
        assert(seq![order[1]].drop_last() =~= Seq::<Card>::empty());
    }
}

/// Every simulated game that completes lasts 20 tricks, hands out all 120
/// points, and names as winner the player with the higher final score.
pub proof fn lemma_simulation_totals(seed: u64, options: SimulationOptions)
    ensures
        simulated_log(seed, options) matches Ok(log) ==> {
            &&& log.tricks.len() == 20
            &&& log.final_score_me + log.final_score_opp == 120
            &&& log.winner == winner_of_scores(log.final_score_me, log.final_score_opp)
        },
{
    lemma_initial_totals(seed);
    lemma_game_totals(initial_view(seed), 0, seed_state(seed ^ BEST_MOVE_SEED_MIX), options, Seq::empty(), 20);
}

/// With the heuristic policy, a trick from a well-formed, unfinished state
/// between tricks is always played: it is one greedy rollout step.
proof fn lemma_heuristic_trick(v: GameView, revealed: u64, st: u64, options: SimulationOptions, number: int)
    requires
        options.me_policy == MePolicy::Heuristic,
        v.well_formed(),
        v.pending_lead is None,
        !v.is_terminal(),
    ensures
        play_trick(v, revealed, st, options, number) matches Ok((v2, _, _, _)) && v2
            == rollout_step(v).unwrap(),
{
    reveal(play_trick);
    lemma_rollout_step(v);
}

/// With the heuristic policy, a game from a well-formed state between
/// tricks always plays out to the end.
proof fn lemma_heuristic_game(v: GameView, revealed: u64, st: u64, options: SimulationOptions, tricks: Seq<TrickLog>)
    requires
        options.me_policy == MePolicy::Heuristic,
        v.well_formed(),
        v.pending_lead is None,
    ensures
        game_from(v, revealed, st, options, tricks) is Ok,
    decreases play_measure(v),
{
    lemma_game_from_unfold(v, revealed, st, options, tricks);
    if !v.is_terminal() {
        lemma_heuristic_trick(v, revealed, st, options, tricks.len() + 1int);
        lemma_rollout_step(v);
        let (v2, rev2, st2, log) = play_trick(v, revealed, st, options, tricks.len() + 1int)->Ok_0;
        lemma_heuristic_game(v2, rev2, st2, options, tricks.push(log));
    }
}

/// A simulation in which Me plays the heuristic policy succeeds for every
/// seed.
pub proof fn lemma_heuristic_simulation_succeeds(seed: u64, options: SimulationOptions)
    requires
        options.me_policy == MePolicy::Heuristic,
    ensures
        simulated_log(seed, options) is Ok,
{
    lemma_initial_totals(seed);
    lemma_heuristic_game(initial_view(seed), 0, seed_state(seed ^ BEST_MOVE_SEED_MIX), options, Seq::empty());
}

/// When I lead between tricks, enough cards are hidden from me to sample
/// the rest: the opponent's `k` revealed cards, the face-up trump and my
/// hand leave as many unknown cards as the opponent's hand and the talon
/// need, since `k` tricks took `2 k` cards out of play.
proof fn lemma_me_lead_samplable(v: GameView, revealed: u64, k: nat)
    requires
        v.well_formed(),
        v.pending_lead is None,
        !v.is_terminal(),
        v.cards_left() + 2 * k == 40,
        seen_count(revealed, 40) <= k,
        v.talon.len() > 0 || k >= 1,
    ensures
        my_turn(me_public_view(v, visible_mask(v, revealed, None), None)) || v.leader != Player::Me,
        samplable(me_public_view(v, visible_mask(v, revealed, None), None)),
{
    let f = v.face_up_trump;
    let seen = visible_mask(v, revealed, None);
    lemma_seen_count_add(revealed, f, 40);
    lemma_seen_count_add_cards(revealed | card_bit(f), v.my_hand);
    lemma_unseen_count(seen, 40);
}

/// When I answer the opponent's lead, enough cards are hidden from me to
/// sample the rest: the lead is among the opponent's revealed cards.
proof fn lemma_me_reply_samplable(v: GameView, revealed: u64, k: nat, lead: Card)
    requires
        v.well_formed(),
        v.pending_lead is None,
        v.leader == Player::Opponent,
        v.lead_result(Player::Opponent, lead) is Ok,
        v.cards_left() + 2 * k == 40,
        seen_count(revealed, 40) <= k,
        v.talon.len() > 0 || k >= 1,
    ensures
        ({
            let v1 = v.after_lead(Player::Opponent, lead);
            let rev1 = revealed | card_bit(lead);
            let p = me_public_view(v1, visible_mask(v1, rev1, Some(lead)), Some(lead));
            my_turn(p) && samplable(p)
        }),
{
    let v1 = v.after_lead(Player::Opponent, lead);
    lemma_lead_conserves(v, Player::Opponent, lead);
    let rev1 = revealed | card_bit(lead);
    let f = v.face_up_trump;
    lemma_seen_count_add(revealed, lead, 40);
    lemma_add_bit(revealed, lead);
    lemma_add_bit(rev1, f);
    lemma_seen_count_add(rev1, f, 40);
    let base = add_cards(rev1 | card_bit(f), v1.my_hand);
    lemma_seen_count_add_cards(rev1 | card_bit(f), v1.my_hand);
    assert(has_card(rev1 | card_bit(f), lead));
    assert(has_card(base, lead));
    lemma_seen_count_add(base, lead, 40);
    let seen = visible_mask(v1, rev1, Some(lead));
    assert(seen == base | card_bit(lead));
    lemma_unseen_count(seen, 40);
}

/// The invariant of a Monte Carlo game between tricks after `k` tricks:
/// well formed, balanced, with `2 k` cards out of play and at most `k`
/// cards of the opponent revealed, and the talon untouched only before the
/// first trick.
pub open spec fn between_tricks(v: GameView, revealed: u64, k: nat) -> bool {
    &&& v.well_formed()
    &&& v.pending_lead is None
    &&& v.talon_parity()
    &&& v.total_points() <= 255
    &&& v.cards_left() + 2 * k == 40
    &&& seen_count(revealed, 40) <= k
    &&& v.talon.len() > 0 || k >= 1
}

/// With the Monte Carlo policy, one trick from an unfinished game between
/// tricks is played and keeps the invariant.
#[verifier::spinoff_prover]
#[verifier::rlimit(40)]
proof fn lemma_best_move_trick(v: GameView, revealed: u64, st: u64, options: SimulationOptions, k: nat, number: int)
    requires
        options.me_policy == MePolicy::BestMove,
        options.samples_per_move <= u32::MAX,
        between_tricks(v, revealed, k),
        !v.is_terminal(),
    ensures
        play_trick(v, revealed, st, options, number) matches Ok((v2, rev2, _, _)) && between_tricks(
            v2,
            rev2,
            k + 1,
        ) && play_measure(v2) < play_measure(v),
{
    let config = MonteCarloConfig { samples_per_move: options.samples_per_move };
    reveal(play_trick);
    let leader = v.leader;
    let f = leader.other();
    if leader == Player::Me {
        let p = me_public_view(v, visible_mask(v, revealed, None), None);
        lemma_me_lead_samplable(v, revealed, k);
        lemma_best_move_succeeds(p, st, config);
        lemma_best_move_is_top(p, st, config);
        let lead = best_move_outcome(p, st, config).1->Ok_0.0;
        lemma_lead_conserves(v, leader, lead);
        lemma_lead_well_formed(v, leader, lead);
        let v1 = v.after_lead(leader, lead);
        lemma_choices_in_hand(v1.hand(f), lead, v.briscola_suit, v1.talon.len());
        let reply = reply_choice(v1.hand(f), lead, v1.briscola_suit, v1.talon.len());
        lemma_reply_conserves(v1, f, reply);
        lemma_reply_well_formed(v1, f, reply);
        lemma_seen_count_add(revealed, reply, 40);
        let r = play_trick(v, revealed, st, options, number);
        assert(r->Ok_0.0 == v1.after_reply(f, reply));
        assert(r->Ok_0.1 == revealed | card_bit(reply));
    } else {
        lemma_choices_in_hand(v.hand(leader), v.face_up_trump, v.briscola_suit, v.talon.len());
        let lead = lead_choice(v.hand(leader), v.briscola_suit);
        lemma_lead_conserves(v, leader, lead);
        lemma_lead_well_formed(v, leader, lead);
        let v1 = v.after_lead(leader, lead);
        let rev1 = revealed | card_bit(lead);
        lemma_seen_count_add(revealed, lead, 40);
        lemma_me_reply_samplable(v, revealed, k, lead);
        let p = me_public_view(v1, visible_mask(v1, rev1, Some(lead)), Some(lead));
        lemma_best_move_succeeds(p, st, config);
        lemma_best_move_is_top(p, st, config);
        let reply = best_move_outcome(p, st, config).1->Ok_0.0;
        lemma_reply_conserves(v1, f, reply);
        lemma_reply_well_formed(v1, f, reply);
        let r = play_trick(v, revealed, st, options, number);
        assert(r->Ok_0.0 == v1.after_reply(f, reply));
        assert(r->Ok_0.1 == rev1);
    }
}

/// With the Monte Carlo policy and at most `u32::MAX` samples per move, a
/// game from a state between tricks always plays out: each of my
/// decisions finds enough unknown cards to sample.
proof fn lemma_best_move_game(v: GameView, revealed: u64, st: u64, options: SimulationOptions, tricks: Seq<TrickLog>)
    requires
        options.me_policy == MePolicy::BestMove,
        options.samples_per_move <= u32::MAX,
        between_tricks(v, revealed, tricks.len()),
    ensures
        game_from(v, revealed, st, options, tricks) is Ok,
    decreases play_measure(v),
{
    lemma_game_from_unfold(v, revealed, st, options, tricks);
    if !v.is_terminal() {
        lemma_best_move_trick(v, revealed, st, options, tricks.len(), tricks.len() + 1int);
        let (v2, rev2, st2, log) = play_trick(v, revealed, st, options, tricks.len() + 1int)->Ok_0;
        lemma_best_move_game(v2, rev2, st2, options, tricks.push(log));
    }
}

/// A simulation in which Me plays the Monte Carlo policy succeeds for every
/// seed when at most `u32::MAX` samples per move are asked for (more would
/// overflow the sample count).
pub proof fn lemma_best_move_simulation_succeeds(seed: u64, options: SimulationOptions)
    requires
        options.me_policy == MePolicy::BestMove,
        options.samples_per_move <= u32::MAX,
    ensures
        simulated_log(seed, options) is Ok,
{
    lemma_initial_totals(seed);
    lemma_seen_count_empty(40);
    lemma_best_move_game(initial_view(seed), 0, seed_state(seed ^ BEST_MOVE_SEED_MIX), options, Seq::empty());
}

/// A logged trick agrees with the rules: the follower is the other player,
/// the leader wins exactly when the lead card holds the trick against the
/// reply card, and the points are those of the two cards.
pub open spec fn logged_trick_follows_rules(log: TrickLog, trump: Suit) -> bool {
    &&& log.follower == log.leader.other()
    &&& log.winner == (if trick_winner(log.lead_card, log.reply_card, trump) == TrickWinner::Leader {
        log.leader
    } else {
        log.follower
    })
    &&& log.trick_points == log.lead_card.rank.points() + log.reply_card.rank.points()
}

/// Every trick a game appends to the log follows the rules, is numbered in
/// sequence and is led by the winner of the trick before; the first new
/// trick is led from the current leader's hand and answered from the other
/// hand.
proof fn lemma_game_log(v: GameView, revealed: u64, st: u64, options: SimulationOptions, tricks: Seq<TrickLog>)
    requires
        tricks.len() + play_measure(v) <= 0xFFFF_FFFF,
    ensures
        game_from(v, revealed, st, options, tricks) matches Ok((t, tr)) ==> {
            &&& tr.len() >= tricks.len()
            &&& tr.subrange(0, tricks.len() as int) == tricks
            &&& forall|i: int|
                tricks.len() <= i < tr.len() ==> logged_trick_follows_rules(#[trigger] tr[i], v.briscola_suit)
                    && tr[i].number == i + 1
            &&& forall|i: int| tricks.len() <= i < tr.len() - 1 ==> #[trigger] tr[i + 1].leader == tr[i].winner
            &&& tr.len() > tricks.len() ==> {
                &&& tr[tricks.len() as int].leader == v.leader
                &&& v.hand(v.leader).contains(tr[tricks.len() as int].lead_card)
                &&& v.hand(v.leader.other()).contains(tr[tricks.len() as int].reply_card)
            }
        },
    decreases play_measure(v),
{
    lemma_game_from_unfold(v, revealed, st, options, tricks);
    if !v.is_terminal() {
        let number = tricks.len() + 1int;
        if play_trick(v, revealed, st, options, number) is Ok {
            let (v2, rev2, st2, log) = play_trick(v, revealed, st, options, number)->Ok_0;
            if play_measure(v2) < play_measure(v) {
                lemma_game_log(v2, rev2, st2, options, tricks.push(log));
                lemma_trick_logged(v, revealed, st, options, number);
                if game_from(v, revealed, st, options, tricks) is Ok {
                    let tr = game_from(v, revealed, st, options, tricks)->Ok_0.1;
                    let n: int = tricks.len() as int;
                    assert(tr.subrange(0, n + 1) == tricks.push(log));
                    assert(tr[n] == log) by {
                        assert(tr.subrange(0, n + 1)[n] == tr[n]);
                    }
                    assert(tr.subrange(0, n) =~= tricks) by {
                        assert forall|i: int| 0 <= i < n implies tr[i] == tricks[i] by {
                            assert(tr.subrange(0, n + 1)[i] == tr[i]);
                        }
                    }
                    assert(v2.briscola_suit == v.briscola_suit);
                    assert(tr.subrange(0, n) == tricks);
                    assert forall|i: int| n <= i < tr.len() implies logged_trick_follows_rules(
                        #[trigger] tr[i],
                        v.briscola_suit,
                    ) && tr[i].number == i + 1 by {
                        if i > n {
                            assert(n + 1 <= i < tr.len());
                        } else {
                            assert(tr[i] == log);
                            assert(log.number == (n + 1) as usize);
                        }
                    }
                    assert forall|i: int| n <= i < tr.len() - 1 implies #[trigger] tr[i + 1].leader
                        == tr[i].winner by {
                        if i > n {
                            assert(n + 1 <= i < tr.len() - 1);
                        } else {
                            assert(tr[n + 1].leader == v2.leader);
                        }
                    }
                }
            }
        }
    }
}

/// A played trick is logged as played: led by the current leader with a
/// card of its hand, answered by the other player with a card of theirs,
/// won and scored by the rules, and the winner leads next.
proof fn lemma_trick_logged(v: GameView, revealed: u64, st: u64, options: SimulationOptions, number: int)
    ensures
        play_trick(v, revealed, st, options, number) matches Ok((v2, _, _, log)) ==> {
            &&& logged_trick_follows_rules(log, v.briscola_suit)
            &&& log.number == number as usize
            &&& log.leader == v.leader
            &&& v.hand(v.leader).contains(log.lead_card)
            &&& v.hand(v.leader.other()).contains(log.reply_card)
            &&& v2.leader == log.winner
            &&& v2.briscola_suit == v.briscola_suit
        },
{
    reveal(play_trick);
}

/// The log of every completed simulation agrees with the rules: each trick
/// is won and scored by its lead and reply cards, is numbered in sequence
/// and is led by the winner of the trick before; Me leads the first trick
/// with a card of its initial hand, answered with a card of the opponent's
/// initial hand.
pub proof fn lemma_simulation_log(seed: u64, options: SimulationOptions)
    ensures
        simulated_log(seed, options) matches Ok(log) ==> {
            &&& forall|i: int|
                0 <= i < log.tricks.len() ==> logged_trick_follows_rules(#[trigger] log.tricks[i], log.briscola_suit)
                    && log.tricks[i].number == i + 1
            &&& forall|i: int| 0 <= i < log.tricks.len() - 1 ==> #[trigger] log.tricks[i + 1].leader
                == log.tricks[i].winner
            &&& log.tricks.len() > 0 ==> {
                &&& log.tricks[0].leader == Player::Me
                &&& log.initial_my_hand.contains(log.tricks[0].lead_card)
                &&& log.initial_opp_hand.contains(log.tricks[0].reply_card)
            }
        },
{
    lemma_initial_totals(seed);
    lemma_game_log(initial_view(seed), 0, seed_state(seed ^ BEST_MOVE_SEED_MIX), options, Seq::empty());
}

/// Plays one trick of the simulation.
fn play_one_trick(state: &mut DeterminizedState, revealed: &mut CardMask, rng: &mut FastRng, options: SimulationOptions, number: usize) -> (r: Result<TrickLog, SimulationError>)
    requires
        old(state)@.well_formed(),
        old(state)@.pending_lead is None,
        !old(state)@.is_terminal(),
        play_measure(old(state)@) <= 72,
    ensures
        match r {
            Ok(log) => {
                &&& play_trick(old(state)@, *old(revealed), old(rng)@, options, number as int) == Ok::<
                    (GameView, u64, u64, TrickLog),
                    SimulationError,
                >((final(state)@, *final(revealed), final(rng)@, log))
                &&& final(state)@.well_formed()
                &&& final(state)@.pending_lead is None
                &&& play_measure(final(state)@) + 2 <= play_measure(old(state)@)
            },
            Err(e) => play_trick(old(state)@, *old(revealed), old(rng)@, options, number as int)
                == Err::<(GameView, u64, u64, TrickLog), SimulationError>(e),
        },
{
    reveal(play_trick);
    let ghost before = state@;
    let leader = state.leader;
    let lead_card = if leader == Player::Me {
        let seen = visible_seen_mask(state, *revealed, None);
        let chosen = select_me_card(state, seen, None, options, rng);
        match chosen {
            Ok(c) => c,
            Err(e) => {
                return Err(e);
            },
        }
    } else {
        choose_lead_card(state, leader)
    };
    if leader == Player::Opponent {
        *revealed = crate::bitset::add(*revealed, lead_card);
    }
    let led = state.play_lead_card(leader, lead_card);
    match led {
        Ok(()) => {},
        Err(_) => {
            return Err(SimulationError::InvalidTransition);
        },
    }
    proof {
        lemma_lead_well_formed(before, leader, lead_card);
    }
    let ghost v1 = state@;
    let follower = leader.other();
    let reply_card = if follower == Player::Me {
        let seen = visible_seen_mask(state, *revealed, Some(lead_card));
        let chosen = select_me_card(state, seen, Some(lead_card), options, rng);
        match chosen {
            Ok(c) => c,
            Err(e) => {
                return Err(e);
            },
        }
    } else {
        choose_reply_card(state, follower, lead_card)
    };
    if follower == Player::Opponent {
        *revealed = crate::bitset::add(*revealed, reply_card);
    }
    let replied = state.play_reply_card(follower, reply_card);
    let outcome = match replied {
        Ok(o) => o,
        Err(_) => {
            return Err(SimulationError::InvalidTransition);
        },
    };
    proof {
        lemma_reply_well_formed(v1, follower, reply_card);
    }
    Ok(
        TrickLog {
            number,
            leader,
            lead_card,
            follower,
            reply_card,
            winner: outcome.winner,
            trick_points: outcome.trick_points,
            score_me: state.score_me,
            score_opp: state.score_opp,
            my_hand_len: state.my_hand.len(),
            opp_hand_len: state.opp_hand.len(),
            talon_len: state.talon.len(),
        },
    )
}

/// The cards Me has seen: the opponent's revealed cards, the face-up
/// trump, my hand and, when replying, the opponent's lead.
pub(crate) fn visible_seen_mask(state: &DeterminizedState, opp_revealed_cards: CardMask, opp_played: Option<Card>) -> (m: CardMask)
    ensures
        m == visible_mask(state@, opp_revealed_cards, opp_played),
{
    let mut seen_cards = crate::bitset::add(opp_revealed_cards, state.face_up_trump);
    let mut i: usize = 0;
    while i < state.my_hand.len()
        invariant
            i <= state.my_hand@.len(),
            seen_cards == add_cards(
                opp_revealed_cards | card_bit(state.face_up_trump),
                state.my_hand@.subrange(0, i as int),
            ),
        decreases state.my_hand@.len() - i,
    {
        proof {
            assert(state.my_hand@.subrange(0, i + 1).drop_last() =~= state.my_hand@.subrange(0, i as int));
        }
        seen_cards = crate::bitset::add(seen_cards, state.my_hand[i]);
        i = i + 1;
    }
    proof {
        assert(state.my_hand@.subrange(0, i as int) =~= state.my_hand@);
    }
    match opp_played {
        Some(card) => crate::bitset::add(seen_cards, card),
        None => seen_cards,
    }
}

/// Chooses Me's card with the configured policy.
fn select_me_card(state: &DeterminizedState, seen_cards: CardMask, opp_played: Option<Card>, options: SimulationOptions, rng: &mut FastRng) -> (r: Result<Card, SimulationError>)
    requires
        state@.my_hand.len() > 0,
        state@.my_hand.len() + state@.talon.len() <= usize::MAX,
    ensures
        (final(rng)@, r) == me_choice(state@, seen_cards, opp_played, options, old(rng)@),
{
    match options.me_policy {
        MePolicy::Heuristic => Ok(
            match opp_played {
                Some(opp_card) => choose_reply_card(state, Player::Me, opp_card),
                None => choose_lead_card(state, Player::Me),
            },
        ),
        MePolicy::BestMove => {
            let public = PublicGameState {
                my_hand: copy_cards(state.my_hand.as_slice()),
                opp_played,
                briscola_suit: state.briscola_suit,
                talon_len: state.talon.len(),
                last_face_up_trump: state.face_up_trump,
                seen_cards,
                score_me: state.score_me,
                score_opp: state.score_opp,
                leader: state.leader,
            };
            let result = choose_best_move(
                &public,
                rng,
                MonteCarloConfig { samples_per_move: options.samples_per_move },
            );
            match result {
                Ok(res) => Ok(res.best_move),
                Err(e) => Err(SimulationError::StrategyFailed(e)),
            }
        },
    }
}

/// Deals the initial state for a seed.
pub(crate) fn initial_state(seed: u64) -> (r: Result<DeterminizedState, SimulationError>)
    ensures
        r matches Ok(s) && s@ == initial_view(seed),
{
    let mut deck = full_deck();
    if deck.len() != FULL_DECK_SIZE {
        return Err(SimulationError::InvalidDeck);
    }
    let mut rng = FastRng::new(seed);
    rng.shuffle(deck.as_mut_slice());
    let mut cursor: usize = 0;
    let mut my_hand: Vec<Card> = Vec::with_capacity(HAND_SIZE);
    let mut opp_hand: Vec<Card> = Vec::with_capacity(HAND_SIZE);
    let mut dealt: usize = 0;
    while dealt < HAND_SIZE
        invariant
            deck@.len() == 40,
            dealt <= 3,
            cursor == 2 * dealt,
            my_hand@.len() == dealt,
            opp_hand@.len() == dealt,
            forall|k: int| 0 <= k < dealt ==> #[trigger] my_hand@[k] == deck@[2 * k],
            forall|k: int| 0 <= k < dealt ==> #[trigger] opp_hand@[k] == deck@[2 * k + 1],
        decreases 3 - dealt,
    {
        my_hand.push(deck[cursor]);
        cursor += 1;
        opp_hand.push(deck[cursor]);
        cursor += 1;
        dealt += 1;
    }
    let face_up_trump = deck[cursor];
    cursor += 1;
    let mut talon: Vec<Card> = Vec::with_capacity(deck.len() - cursor);
    let mut j: usize = cursor;
    while j < deck.len()
        invariant
            deck@.len() == 40,
            cursor == 7,
            7 <= j <= 40,
            talon@ == deck@.subrange(7, j as int),
        decreases 40 - j,
    {
        talon.push(deck[j]);
        j = j + 1;
        proof {
            assert(talon@ =~= deck@.subrange(7, j as int));
        }
    }
    if talon.len() != INITIAL_TALON_SIZE {
        return Err(SimulationError::InvalidDeck);
    }
    proof {
        assert(my_hand@ =~= seq![deck@[0], deck@[2], deck@[4]]);
        assert(opp_hand@ =~= seq![deck@[1], deck@[3], deck@[5]]);
    }
    Ok(
        DeterminizedState {
            my_hand,
            opp_hand,
            talon,
            briscola_suit: face_up_trump.suit,
            face_up_trump,
            score_me: 0,
            score_opp: 0,
            leader: Player::Me,
            pending_lead: None,
            pending_lead_by: None,
        },
    )
}

} // verus!
