//! Monte Carlo move evaluator.
//!
//! For each legal move, this module samples hidden worlds consistent with public
//! information, forces that move, rolls out to terminal state, and aggregates
//! the win score (2 for a win, 1 for a draw, 0 for a loss) and the final
//! score delta (me - opponent) over the successful samples.
use vstd::prelude::*;

use crate::card::Card;
use crate::determinize::{lemma_sample_uses_unknown_cards, opponent_hand_len, sample_world, world_sample, DeterminizeError};
use crate::rng::FastRng;
use crate::rollout::{choose_lead_card, choose_reply_card, lead_choice, lemma_choices_in_hand, reply_choice};
use crate::state::{
    lemma_lead_well_formed, lemma_reply_well_formed, play_measure, DeterminizedState, GameView, Player,
    PublicGameState, PublicView, StateError,
};

verus! {

/// Monte Carlo search configuration.
#[derive(Debug, Clone, Copy, PartialEq, Eq, Structural)]
pub struct MonteCarloConfig {
    /// Number of sampled worlds evaluated for each legal move.
    ///
    /// Values below 1 are clamped to 1 at runtime.
    pub samples_per_move: usize,
}

/// Aggregated statistics for a legal move.
///
/// The estimated win probability is `win_score_sum / (2 * n_samples)`
/// (1 = always win, 0.5 = always draw, 0 = always lose) and the expected
/// final score delta is `score_delta_sum / n_samples`.
#[derive(Debug, Clone, Copy, PartialEq, Eq, Structural)]
pub struct MoveStats {
    /// Candidate card this row refers to.
    pub card: Card,
    /// Sum over successful samples of 2 for a win, 1 for a draw, 0 for a loss.
    pub win_score_sum: u128,
    /// Sum over successful samples of the final score delta (me - opponent).
    pub score_delta_sum: i128,
    /// Number of successful simulations used in this estimate.
    pub n_samples: usize,
}

/// Ranked result for all legal moves.
#[derive(Debug, Clone)]
pub struct BestMoveResult {
    /// Top-ranked move according to sort policy.
    pub best_move: Card,
    /// All evaluated moves sorted by descending win probability,
    /// then descending expected score delta.
    pub moves: Vec<MoveStats>,
}

/// Failures that can occur while selecting a move by simulation.
#[derive(Debug, Clone, Copy, PartialEq, Eq, Structural)]
pub enum MonteCarloError {
    /// No legal move can be played from this state.
    NoLegalMoves,
    /// The caller asked for a move when it is not me to act.
    NotMyTurn,
    /// Hidden-world sampling failed due to inconsistent public information.
    DeterminizeFailed,
    /// State transitions failed while simulating a playout.
    SimulationFailed,
    /// Every attempted sample failed, so no estimate can be produced.
    NoSuccessfulSamples,
}

/// One trick of a playout, both sides playing the greedy policy: the
/// follower answers a pending lead, or else the leader leads and the
/// follower answers. `None` when a transition is invalid.
pub open spec fn rollout_step(v: GameView) -> Option<GameView> {
    let trump = v.briscola_suit;
    match v.pending_lead {
        Some(lead) => match v.pending_lead_by {
            None => None,
            Some(by) => {
                let f = by.other();
                let c = reply_choice(v.hand(f), lead, trump, v.talon.len());
                if v.reply_result(f, c) is Ok {
                    Some(v.after_reply(f, c))
                } else {
                    None
                }
            },
        },
        None => {
            let l = v.leader;
            let c = lead_choice(v.hand(l), trump);
            if v.lead_result(l, c) is Ok {
                let v1 = v.after_lead(l, c);
                let f = l.other();
                let r = reply_choice(v1.hand(f), c, trump, v1.talon.len());
                if v1.reply_result(f, r) is Ok {
                    Some(v1.after_reply(f, r))
                } else {
                    None
                }
            } else {
                None
            }
        },
    }
}

/// The terminal state reached by playing tricks with the greedy policy,
/// or `None` if a transition fails.
pub open spec fn play_out(v: GameView) -> Option<GameView>
    decreases play_measure(v),
{
    if v.is_terminal() {
        Some(v)
    } else {
        match rollout_step(v) {
            None => None,
            Some(n) => if play_measure(n) < play_measure(v) {
                play_out(n)
            } else {
                None
            },
        }
    }
}

/// The state after my forced move at the root: a reply when the opponent
/// has led in the public view, otherwise my lead and the opponent's greedy
/// reply.
pub open spec fn forced_start(public: PublicView, w: GameView, forced: Card) -> Option<GameView> {
    if public.opp_played is Some {
        if w.reply_result(Player::Me, forced) is Ok {
            Some(w.after_reply(Player::Me, forced))
        } else {
            None
        }
    } else if w.lead_result(Player::Me, forced) is Ok {
        let v1 = w.after_lead(Player::Me, forced);
        let r = reply_choice(v1.opp_hand, forced, w.briscola_suit, v1.talon.len());
        if v1.reply_result(Player::Opponent, r) is Ok {
            Some(v1.after_reply(Player::Opponent, r))
        } else {
            None
        }
    } else {
        None
    }
}

/// 2 for a positive delta, 1 for zero, 0 for a negative delta.
pub open spec fn win_score(delta: int) -> int {
    if delta > 0 {
        2
    } else if delta == 0 {
        1
    } else {
        0
    }
}

/// Win score and final score delta of one playout after the forced move,
/// or `None` when the playout fails.
pub open spec fn sample_outcome(public: PublicView, w: GameView, forced: Card) -> Option<(int, int)> {
    match forced_start(public, w, forced) {
        None => None,
        Some(v) => match play_out(v) {
            None => None,
            Some(t) => {
                let delta = t.score_me - t.score_opp;
                Some((win_score(delta), delta))
            },
        },
    }
}

/// Sums of win scores and deltas and the count of successful playouts over
/// `remaining` samples, with the generator state after them; sampling
/// failure aborts with [MonteCarloError::DeterminizeFailed].
pub open spec fn accumulate(public: PublicView, card: Card, st: u64, remaining: nat) -> (u64, Result<(int, int, nat), MonteCarloError>)
    decreases remaining,
{
    if remaining == 0 {
        (st, Ok((0int, 0int, 0nat)))
    } else {
        let (st1, w) = world_sample(public, st);
        match w {
            Err(_) => (st1, Err(MonteCarloError::DeterminizeFailed)),
            Ok(w) => {
                let (st2, rest) = accumulate(public, card, st1, (remaining - 1) as nat);
                match rest {
                    Err(e) => (st2, Err(e)),
                    Ok((a, b, n)) => (
                        st2,
                        Ok(
                            match sample_outcome(public, w, card) {
                                Some((x, y)) => (a + x, b + y, n + 1),
                                None => (a, b, n),
                            },
                        ),
                    ),
                }
            },
        }
    }
}

/// Statistics for one move, with the generator state after its samples.
pub open spec fn move_stats(public: PublicView, card: Card, st: u64, samples: nat) -> (u64, Result<MoveStats, MonteCarloError>) {
    let (st1, acc) = accumulate(public, card, st, samples);
    match acc {
        Err(e) => (st1, Err(e)),
        Ok((w, d, n)) => if n == 0 {
            (st1, Err(MonteCarloError::NoSuccessfulSamples))
        } else if n > u32::MAX {
            (st1, Err(MonteCarloError::SimulationFailed))
        } else {
            (
                st1,
                Ok(
                    MoveStats {
                        card,
                        win_score_sum: w as u128,
                        score_delta_sum: d as i128,
                        n_samples: n as usize,
                    },
                ),
            )
        },
    }
}

/// Statistics for the moves `cards[0..i]`, in that order.
#[verifier::opaque]
pub open spec fn evaluate_moves(public: PublicView, cards: Seq<Card>, st: u64, samples: nat, i: nat) -> (u64, Result<Seq<MoveStats>, MonteCarloError>)
    decreases i,
{
    if i == 0 {
        (st, Ok(Seq::empty()))
    } else {
        let (st1, prev) = evaluate_moves(public, cards, st, samples, (i - 1) as nat);
        match prev {
            Err(e) => (st1, Err(e)),
            Ok(s) => {
                let (st2, m) = move_stats(public, cards[i - 1], st1, samples);
                match m {
                    Err(e) => (st2, Err(e)),
                    Ok(m) => (st2, Ok(s.push(m))),
                }
            },
        }
    }
}

/// `a` ranks strictly before `b`: higher win rate, or equal win rate and
/// higher mean score delta (compared as exact fractions).
pub open spec fn ranks_before(a: MoveStats, b: MoveStats) -> bool {
    let wa = a.win_score_sum * b.n_samples;
    let wb = b.win_score_sum * a.n_samples;
    wa > wb || (wa == wb && a.score_delta_sum * b.n_samples > b.score_delta_sum * a.n_samples)
}

/// Inserts `x` before the first element it ranks strictly before.
pub open spec fn insert_ranked(sorted: Seq<MoveStats>, x: MoveStats) -> Seq<MoveStats>
    decreases sorted.len(),
{
    if sorted.len() == 0 {
        seq![x]
    } else if ranks_before(x, sorted[0]) {
        seq![x] + sorted
    } else {
        seq![sorted[0]] + insert_ranked(sorted.drop_first(), x)
    }
}

/// Stable ranking: insertion of each element in turn, so that equally
/// ranked moves keep their order.
pub open spec fn rank_moves(s: Seq<MoveStats>) -> Seq<MoveStats>
    decreases s.len(),
{
    if s.len() == 0 {
        s
    } else {
        insert_ranked(rank_moves(s.drop_last()), s.last())
    }
}

/// Generator state and outcome of choosing the best move: errors for an
/// empty hand or when it is not my turn (generator untouched), else the
/// per-move statistics ranked by [rank_moves] and the first of them.
pub open spec fn best_move_outcome(public: PublicView, st: u64, config: MonteCarloConfig) -> (u64, Result<(Card, Seq<MoveStats>), MonteCarloError>) {
    if public.my_hand.len() == 0 {
        (st, Err(MonteCarloError::NoLegalMoves))
    } else if public.opp_played is None && public.leader != Player::Me {
        (st, Err(MonteCarloError::NotMyTurn))
    } else {
        let samples = if config.samples_per_move == 0 {
            1nat
        } else {
            config.samples_per_move as nat
        };
        let (st1, r) = evaluate_moves(public, public.my_hand, st, samples, public.my_hand.len());
        match r {
            Err(e) => (st1, Err(e)),
            Ok(s) => {
                let ranked = rank_moves(s);
                (st1, Ok((ranked[0].card, ranked)))
            },
        }
    }
}

/// A state well formed and not terminal makes one more greedy trick,
/// which keeps it well formed and lowers the play measure.
pub proof fn lemma_rollout_step(v: GameView)
    requires
        v.well_formed(),
        !v.is_terminal(),
    ensures
        rollout_step(v) is Some,
        rollout_step(v).unwrap().well_formed(),
        play_measure(rollout_step(v).unwrap()) < play_measure(v),
{
    let trump = v.briscola_suit;
    match v.pending_lead {
        Some(lead) => {
            let by = v.pending_lead_by.unwrap();
            let f = by.other();
            lemma_choices_in_hand(v.hand(f), lead, trump, v.talon.len());
            let c = reply_choice(v.hand(f), lead, trump, v.talon.len());
            lemma_reply_well_formed(v, f, c);
        },
        None => {
            let l = v.leader;
            lemma_choices_in_hand(v.hand(l), l_dummy_card(v), trump, v.talon.len());
            let c = lead_choice(v.hand(l), trump);
            lemma_lead_well_formed(v, l, c);
            let v1 = v.after_lead(l, c);
            let f = l.other();
            lemma_choices_in_hand(v1.hand(f), c, trump, v1.talon.len());
            let r = reply_choice(v1.hand(f), c, trump, v1.talon.len());
            lemma_reply_well_formed(v1, f, r);
        },
    }
}

/// Any card, to instantiate a lemma whose reply part is not needed.
spec fn l_dummy_card(v: GameView) -> Card {
    v.face_up_trump
}

/// From a well-formed state the greedy playout always reaches a terminal,
/// well-formed state.
pub proof fn lemma_play_out_terminates(v: GameView)
    requires
        v.well_formed(),
    ensures
        play_out(v) is Some,
        play_out(v).unwrap().is_terminal(),
    decreases play_measure(v),
{
    if !v.is_terminal() {
        lemma_rollout_step(v);
        lemma_play_out_terminates(rollout_step(v).unwrap());
    }
}

/// A world sampled for a non-empty hand is well formed.
pub proof fn lemma_sample_well_formed(public: PublicView, st: u64)
    requires
        public.my_hand.len() > 0,
        world_sample(public, st).1 is Ok,
    ensures
        world_sample(public, st).1->Ok_0.well_formed(),
{
    lemma_sample_uses_unknown_cards(public, st);
}

/// Sampling from the public view succeeds: enough cards are unknown for
/// the opponent's hand and the talon.
pub open spec fn samplable(public: PublicView) -> bool {
    crate::determinize::unknown_cards(public.seen_cards).len() >= opponent_hand_len(public)
        + public.talon_len
}

/// It is my turn in the public view: I hold a card, and either the
/// opponent has led or I lead.
pub open spec fn my_turn(public: PublicView) -> bool {
    public.my_hand.len() > 0 && (public.opp_played is Some || public.leader == Player::Me)
}

/// Forcing a card of my hand in a world sampled on my turn always plays
/// out.
proof fn lemma_sample_outcome_some(public: PublicView, st: u64, card: Card)
    requires
        my_turn(public),
        public.my_hand.contains(card),
        world_sample(public, st).1 is Ok,
    ensures
        sample_outcome(public, world_sample(public, st).1->Ok_0, card) is Some,
{
    let w = world_sample(public, st).1->Ok_0;
    lemma_sample_well_formed(public, st);
    if public.opp_played is Some {
        lemma_reply_well_formed(w, Player::Me, card);
        lemma_play_out_terminates(w.after_reply(Player::Me, card));
    } else {
        lemma_lead_well_formed(w, Player::Me, card);
        let v1 = w.after_lead(Player::Me, card);
        lemma_choices_in_hand(v1.opp_hand, card, w.briscola_suit, v1.talon.len());
        let r = reply_choice(v1.opp_hand, card, w.briscola_suit, v1.talon.len());
        lemma_reply_well_formed(v1, Player::Opponent, r);
        lemma_play_out_terminates(v1.after_reply(Player::Opponent, r));
    }
}

/// On my turn with enough unknown cards, every sample of a card of my hand
/// succeeds.
proof fn lemma_accumulate_all(public: PublicView, card: Card, st: u64, rem: nat)
    requires
        my_turn(public),
        samplable(public),
        public.my_hand.contains(card),
    ensures
        accumulate(public, card, st, rem).1 matches Ok((_, _, n)) && n == rem,
    decreases rem,
{
    if rem > 0 {
        let (st1, w) = world_sample(public, st);
        lemma_sample_outcome_some(public, st, card);
        lemma_accumulate_all(public, card, st1, (rem - 1) as nat);
    }
}

/// On my turn with enough unknown cards, every move is evaluated when at
/// most `u32::MAX` samples are asked for.
proof fn lemma_evaluate_all(public: PublicView, st: u64, samples: nat, i: nat)
    requires
        my_turn(public),
        samplable(public),
        1 <= samples <= u32::MAX,
        i <= public.my_hand.len(),
    ensures
        evaluate_moves(public, public.my_hand, st, samples, i).1 is Ok,
    decreases i,
{
    reveal(evaluate_moves);
    if i > 0 {
        lemma_evaluate_all(public, st, samples, (i - 1) as nat);
        let (st1, prev) = evaluate_moves(public, public.my_hand, st, samples, (i - 1) as nat);
        assert(public.my_hand.contains(public.my_hand[i - 1]));
        lemma_accumulate_all(public, public.my_hand[i - 1], st1, samples);
    }
}

/// Choosing a best move succeeds on my turn when enough cards are unknown
/// to sample the hidden cards and at most `u32::MAX` samples per move are
/// asked for.
pub proof fn lemma_best_move_succeeds(public: PublicView, st: u64, config: MonteCarloConfig)
    requires
        my_turn(public),
        samplable(public),
        config.samples_per_move <= u32::MAX,
    ensures
        best_move_outcome(public, st, config).1 is Ok,
{
    let samples = if config.samples_per_move == 0 {
        1nat
    } else {
        config.samples_per_move as nat
    };
    lemma_evaluate_all(public, st, samples, public.my_hand.len());
}

/// Simulates one playout after forcing my root move, returning the win
/// score (2 win, 1 draw, 0 loss) and the final score delta (me - opponent).
fn simulate_with_forced_move(public: &PublicGameState, state: &mut DeterminizedState, forced_move: Card) -> (r: Result<(u8, i16), MonteCarloError>)
    requires
        old(state)@.well_formed(),
    ensures
        match sample_outcome(public@, old(state)@, forced_move) {
            Some((w, d)) => r == Ok::<(u8, i16), MonteCarloError>((w as u8, d as i16)),
            None => r == Err::<(u8, i16), MonteCarloError>(MonteCarloError::SimulationFailed),
        },
{
    let ghost w = state@;
    if public.opp_played.is_some() {
        match state.play_reply_card(Player::Me, forced_move) {
            Ok(_) => {},
            Err(_) => {
                return Err(MonteCarloError::SimulationFailed);
            },
        }
    } else {
        match state.play_lead_card(Player::Me, forced_move) {
            Ok(_) => {},
            Err(_) => {
                return Err(MonteCarloError::SimulationFailed);
            },
        }
        proof {
            lemma_lead_well_formed(w, Player::Me, forced_move);
        }
        let opp_reply = choose_reply_card(state, Player::Opponent, forced_move);
        match state.play_reply_card(Player::Opponent, opp_reply) {
            Ok(_) => {},
            Err(_) => {
                return Err(MonteCarloError::SimulationFailed);
            },
        }
    }
    proof {
        assert(forced_start(public@, w, forced_move) == Some(state@));
        if public.opp_played is Some {
            lemma_reply_well_formed(w, Player::Me, forced_move);
        } else {
            let v1 = w.after_lead(Player::Me, forced_move);
            let r = reply_choice(v1.opp_hand, forced_move, w.briscola_suit, v1.talon.len());
            lemma_reply_well_formed(v1, Player::Opponent, r);
        }
    }
    let ghost start = state@;
    while !state.is_terminal()
        invariant
            state@.well_formed(),
            play_out(state@) == play_out(start),
        decreases play_measure(state@),
    {
        proof {
            lemma_rollout_step(state@);
        }
        let ghost before = state@;
        match state.pending_lead {
            Some(lead_card) => {
                let lead_by = match state.pending_lead_by {
                    Some(p) => p,
                    None => {
                        return Err(MonteCarloError::SimulationFailed);
                    },
                };
                let follower = lead_by.other();
                let reply = choose_reply_card(state, follower, lead_card);
                match state.play_reply_card(follower, reply) {
                    Ok(_) => {},
                    Err(_) => {
                        return Err(MonteCarloError::SimulationFailed);
                    },
                }
            },
            None => {
                let leader = state.leader;
                let lead = choose_lead_card(state, leader);
                match state.play_lead_card(leader, lead) {
                    Ok(_) => {},
                    Err(_) => {
                        return Err(MonteCarloError::SimulationFailed);
                    },
                }
                proof {
                    lemma_lead_well_formed(before, leader, lead);
                }
                let follower = leader.other();
                let reply = choose_reply_card(state, follower, lead);
                match state.play_reply_card(follower, reply) {
                    Ok(_) => {},
                    Err(_) => {
                        return Err(MonteCarloError::SimulationFailed);
                    },
                }
            },
        }
        proof {
            assert(rollout_step(before) == Some(state@));
        }
    }
    let delta = (state.score_me as i16) - (state.score_opp as i16);
    let win_score: u8 = if delta > 0 {
        2
    } else if delta == 0 {
        1
    } else {
        0
    };
    Ok((win_score, delta))
}

/// Adds partial sums to the outcome of the remaining samples.
pub open spec fn add_acc(a: int, b: int, n: nat, rest: (u64, Result<(int, int, nat), MonteCarloError>)) -> (u64, Result<(int, int, nat), MonteCarloError>) {
    match rest.1 {
        Err(e) => (rest.0, Err(e)),
        Ok((x, y, m)) => (rest.0, Ok((a + x, b + y, n + m))),
    }
}

/// One more move evaluated after successful ones.
proof fn lemma_evaluate_next(public: PublicView, cards: Seq<Card>, st: u64, samples: nat, i: nat)
    ensures
        evaluate_moves(public, cards, st, samples, i + 1) == ({
            let (st1, prev) = evaluate_moves(public, cards, st, samples, i);
            match prev {
                Err(e) => (st1, Err(e)),
                Ok(s) => {
                    let (st2, m) = move_stats(public, cards[i as int], st1, samples);
                    match m {
                        Err(e) => (st2, Err(e)),
                        Ok(m) => (st2, Ok(s.push(m))),
                    }
                },
            }
        }),
        evaluate_moves(public, cards, st, samples, 0) == (st, Ok::<Seq<MoveStats>, MonteCarloError>(
            Seq::empty(),
        )),
{
    reveal(evaluate_moves);
}

/// Statistics that come out of the sampling loop are within these bounds.
pub open spec fn stats_bounded(m: MoveStats) -> bool {
    &&& 1 <= m.n_samples <= u32::MAX
    &&& 0 <= m.win_score_sum <= 2 * m.n_samples
    &&& -255 * m.n_samples <= m.score_delta_sum <= 255 * m.n_samples
}

/// Each playout contributes a win score in `0..=2` and a delta in
/// `-255..=255`.
proof fn lemma_accumulate_bounds(public: PublicView, card: Card, st: u64, rem: nat)
    ensures
        accumulate(public, card, st, rem).1 matches Ok((a, b, n)) ==> 0 <= a <= 2 * n && -255 * n <= b
            <= 255 * n && n <= rem,
    decreases rem,
{
    if rem > 0 {
        let (st1, w) = world_sample(public, st);
        lemma_accumulate_bounds(public, card, st1, (rem - 1) as nat);
    }
}

/// Once the evaluation of a move fails, the failure and the generator
/// state stay as they are for the remaining moves.
proof fn lemma_evaluate_err_sticks(public: PublicView, cards: Seq<Card>, st: u64, samples: nat, i: nat, j: nat)
    requires
        i <= j,
        evaluate_moves(public, cards, st, samples, i).1 is Err,
    ensures
        evaluate_moves(public, cards, st, samples, j) == evaluate_moves(public, cards, st, samples, i),
    decreases j - i,
{
    reveal(evaluate_moves);
    if i < j {
        lemma_evaluate_err_sticks(public, cards, st, samples, i, (j - 1) as nat);
    }
}

/// Evaluated statistics are bounded and belong, in order, to the cards.
proof fn lemma_evaluate_shape(public: PublicView, cards: Seq<Card>, st: u64, samples: nat, i: nat)
    requires
        i <= cards.len(),
    ensures
        evaluate_moves(public, cards, st, samples, i).1 matches Ok(s) ==> s.len() == i && forall|k: int|
            0 <= k < i ==> (#[trigger] s[k]).card == cards[k] && stats_bounded(s[k]) && s[k].n_samples
                <= samples,
    decreases i,
{
    reveal(evaluate_moves);
    if i > 0 {
        lemma_evaluate_shape(public, cards, st, samples, (i - 1) as nat);
        let (st1, prev) = evaluate_moves(public, cards, st, samples, (i - 1) as nat);
        lemma_accumulate_bounds(public, cards[i - 1], st1, samples);
    }
}

/// Inserting one element lengthens by one and keeps the elements.
pub proof fn lemma_insert_ranked(sorted: Seq<MoveStats>, x: MoveStats)
    ensures
        insert_ranked(sorted, x).len() == sorted.len() + 1,
        insert_ranked(sorted, x).to_multiset() == sorted.to_multiset().insert(x),
    decreases sorted.len(),
{
    broadcast use vstd::seq_lib::group_to_multiset_ensures;
    broadcast use vstd::multiset::group_multiset_axioms;

    if sorted.len() > 0 {
        if ranks_before(x, sorted[0]) {
            assert(seq![x] + sorted =~= sorted.insert(0, x));
        } else {
            lemma_insert_ranked(sorted.drop_first(), x);
            let r = insert_ranked(sorted.drop_first(), x);
            assert(seq![sorted[0]] + r =~= r.insert(0, sorted[0]));
            assert(sorted.drop_first().insert(0, sorted[0]) =~= sorted);
            assert(sorted.to_multiset() =~= sorted.drop_first().to_multiset().insert(sorted[0]));
            assert((seq![sorted[0]] + r).to_multiset() =~= r.to_multiset().insert(sorted[0]));
        }
    } else {
        assert(seq![x] =~= Seq::<MoveStats>::empty().push(x));
    }
}

/// Ranking keeps the elements: it is a permutation.
pub proof fn lemma_rank_moves_permutes(s: Seq<MoveStats>)
    ensures
        rank_moves(s).len() == s.len(),
        rank_moves(s).to_multiset() == s.to_multiset(),
    decreases s.len(),
{
    broadcast use vstd::seq_lib::group_to_multiset_ensures;

    if s.len() > 0 {
        lemma_rank_moves_permutes(s.drop_last());
        lemma_insert_ranked(rank_moves(s.drop_last()), s.last());
        assert(s.drop_last().push(s.last()) =~= s);
    }
}

/// Inserting at the first position that `x` ranks strictly before is the
/// ranked insertion.
proof fn lemma_insert_at(sorted: Seq<MoveStats>, x: MoveStats, p: int)
    requires
        0 <= p <= sorted.len(),
        p < sorted.len() ==> ranks_before(x, sorted[p]),
        forall|j: int| 0 <= j < p ==> !ranks_before(x, #[trigger] sorted[j]),
    ensures
        insert_ranked(sorted, x) == sorted.insert(p, x),
    decreases sorted.len(),
{
    if sorted.len() == 0 {
        assert(seq![x] =~= sorted.insert(p, x));
    } else if p == 0 {
        assert(seq![x] + sorted =~= sorted.insert(p, x));
    } else {
        let t = sorted.drop_first();
        assert forall|j: int| 0 <= j < p - 1 implies !ranks_before(x, #[trigger] t[j]) by {
            assert(t[j] == sorted[j + 1]);
        }
        lemma_insert_at(t, x, p - 1);
        assert(seq![sorted[0]] + t.insert(p - 1, x) =~= sorted.insert(p, x));
    }
}

proof fn lemma_product_bounds(w: int, n: int, d: int, m: int)
    requires
        0 <= w <= 2 * n,
        -255 * n <= d <= 255 * n,
        1 <= n <= 0xffff_ffff,
        1 <= m <= 0xffff_ffff,
    ensures
        0 <= w * m <= 0x2_0000_0000 * 0x1_0000_0000,
        -0x100_0000_0000 * 0x1_0000_0000 <= d * m <= 0x100_0000_0000 * 0x1_0000_0000,
{
    assert(0 <= w * m <= 0x2_0000_0000 * 0x1_0000_0000) by (nonlinear_arith)
        requires
            0 <= w <= 2 * n,
            1 <= n <= 0xffff_ffff,
            1 <= m <= 0xffff_ffff,
    ;
    assert(-0x100_0000_0000 * 0x1_0000_0000 <= d * m <= 0x100_0000_0000 * 0x1_0000_0000) by (nonlinear_arith)
        requires
            -255 * n <= d <= 255 * n,
            1 <= n <= 0xffff_ffff,
            1 <= m <= 0xffff_ffff,
    ;
}

/// Executable [ranks_before] on bounded statistics.
fn ranks_before_exec(a: &MoveStats, b: &MoveStats) -> (r: bool)
    requires
        stats_bounded(*a),
        stats_bounded(*b),
    ensures
        r == ranks_before(*a, *b),
{
    proof {
        lemma_product_bounds(a.win_score_sum as int, a.n_samples as int, a.score_delta_sum as int, b.n_samples as int);
        lemma_product_bounds(b.win_score_sum as int, b.n_samples as int, b.score_delta_sum as int, a.n_samples as int);
    }
    let wa = a.win_score_sum * (b.n_samples as u128);
    let wb = b.win_score_sum * (a.n_samples as u128);
    if wa != wb {
        return wa > wb;
    }
    let da = a.score_delta_sum * (b.n_samples as i128);
    let db = b.score_delta_sum * (a.n_samples as i128);
    da > db
}

/// Inserts `x` before the first element it ranks strictly before.
fn insert_ranked_exec(sorted: &mut Vec<MoveStats>, x: MoveStats)
    requires
        stats_bounded(x),
        forall|k: int| 0 <= k < old(sorted)@.len() ==> stats_bounded(#[trigger] old(sorted)@[k]),
    ensures
        final(sorted)@ == insert_ranked(old(sorted)@, x),
{
    let mut p: usize = 0;
    while p < sorted.len() && !ranks_before_exec(&x, &sorted[p])
        invariant
            p <= sorted@.len(),
            stats_bounded(x),
            sorted@ == old(sorted)@,
            forall|k: int| 0 <= k < sorted@.len() ==> stats_bounded(#[trigger] sorted@[k]),
            forall|j: int| 0 <= j < p ==> !ranks_before(x, #[trigger] sorted@[j]),
        decreases sorted@.len() - p,
    {
        p = p + 1;
    }
    proof {
        lemma_insert_at(sorted@, x, p as int);
    }
    sorted.insert(p, x);
}

/// Evaluates one move on `samples` sampled worlds.
fn evaluate_move(public: &PublicGameState, rng: &mut FastRng, card: Card, samples: usize) -> (r: Result<MoveStats, MonteCarloError>)
    requires
        public@.my_hand.len() > 0,
        public@.my_hand.contains(card),
        public@.my_hand.len() + public.talon_len <= usize::MAX,
        public.opp_played is None ==> public.leader == Player::Me,
    ensures
        (final(rng)@, r) == move_stats(public@, card, old(rng)@, samples as nat),
{
    let ghost st_card = rng@;
    let mut wins: u128 = 0;
    let mut deltas: i128 = 0;
    let mut successful: usize = 0;
    let mut s: usize = 0;
    while s < samples
        invariant
            public@.my_hand.len() > 0,
            public@.my_hand.contains(card),
            public@.my_hand.len() + public.talon_len <= usize::MAX,
            public.opp_played is None ==> public.leader == Player::Me,
            s <= samples,
            old(rng)@ == st_card,
            successful <= s,
            0 <= wins <= 2 * successful,
            -255 * successful <= deltas <= 255 * successful,
            accumulate(public@, card, st_card, samples as nat) == add_acc(
                wins as int,
                deltas as int,
                successful as nat,
                accumulate(public@, card, rng@, (samples - s) as nat),
            ),
        decreases samples - s,
    {
        let ghost st_s = rng@;
        let sampled = sample_world(public, rng);
        let mut state = match sampled {
            Ok(state) => state,
            Err(_) => {
                proof {
                    assert((samples - s) as nat > 0);
                    assert(accumulate(public@, card, st_s, (samples - s) as nat) == (st_s, Err::<
                        (int, int, nat),
                        MonteCarloError,
                    >(MonteCarloError::DeterminizeFailed)));
                    assert(accumulate(public@, card, st_card, samples as nat) == (st_s, Err::<
                        (int, int, nat),
                        MonteCarloError,
                    >(MonteCarloError::DeterminizeFailed)));
                    assert(rng@ == st_s);
                    assert(move_stats(public@, card, st_card, samples as nat) == (rng@, Err::<
                        MoveStats,
                        MonteCarloError,
                    >(MonteCarloError::DeterminizeFailed)));
                }
                return Err(MonteCarloError::DeterminizeFailed);
            },
        };
        proof {
            lemma_sample_well_formed(public@, st_s);
        }
        match simulate_with_forced_move(public, &mut state, card) {
            Ok((win_score, delta)) => {
                wins = wins + win_score as u128;
                deltas = deltas + delta as i128;
                successful = successful + 1;
            },
            Err(_) => {},
        }
        s = s + 1;
    }
    if successful == 0 {
        return Err(MonteCarloError::NoSuccessfulSamples);
    }
    if successful as u64 > u32::MAX as u64 {
        return Err(MonteCarloError::SimulationFailed);
    }
    Ok(MoveStats { card, win_score_sum: wins, score_delta_sum: deltas, n_samples: successful })
}

/// Chooses the best move among legal options using sampled hidden information.
///
/// Each legal move is evaluated on `samples_per_move` sampled worlds
/// (at least one): the move is forced at the root and the game is played
/// out with the greedy policy. Moves are then ranked by descending win
/// rate, then descending mean score delta, equal moves keeping their hand
/// order; the best move is the first of the ranking.
///
/// Fails when no legal move exists, it is not my turn to act, a world
/// cannot be sampled, no sample of a move succeeds, or a move has more
/// successful samples than fit in a `u32`.
pub fn choose_best_move(public: &PublicGameState, rng: &mut FastRng, config: MonteCarloConfig) -> (r: Result<BestMoveResult, MonteCarloError>)
    requires
        public@.my_hand.len() + public.talon_len <= usize::MAX,
    ensures
        final(rng)@ == best_move_outcome(public@, old(rng)@, config).0,
        match r {
            Ok(res) => best_move_outcome(public@, old(rng)@, config).1 == Ok::<
                (Card, Seq<MoveStats>),
                MonteCarloError,
            >((res.best_move, res.moves@)),
            Err(e) => best_move_outcome(public@, old(rng)@, config).1 == Err::<
                (Card, Seq<MoveStats>),
                MonteCarloError,
            >(e),
        },
{
    let legal_moves = public.legal_moves();
    if legal_moves.len() == 0 {
        return Err(MonteCarloError::NoLegalMoves);
    }
    if public.opp_played.is_none() && public.leader != Player::Me {
        return Err(MonteCarloError::NotMyTurn);
    }
    let samples: usize = if config.samples_per_move == 0 {
        1
    } else {
        config.samples_per_move
    };
    let ghost st0 = rng@;
    let ghost cards = public@.my_hand;
    proof {
        lemma_evaluate_next(public@, cards, st0, samples as nat, 0);
    }
    let mut moves: Vec<MoveStats> = Vec::with_capacity(legal_moves.len());
    let mut i: usize = 0;
    while i < legal_moves.len()
        invariant
            legal_moves@ == cards,
            cards == public@.my_hand,
            cards.len() > 0,
            public@.my_hand.len() + public.talon_len <= usize::MAX,
            public.opp_played is None ==> public.leader == Player::Me,
            i <= cards.len(),
            old(rng)@ == st0,
            samples >= 1,
            samples == (if config.samples_per_move == 0 {
                1nat
            } else {
                config.samples_per_move as nat
            }),
            evaluate_moves(public@, cards, st0, samples as nat, i as nat) == (rng@, Ok::<
                Seq<MoveStats>,
                MonteCarloError,
            >(moves@)),
        decreases cards.len() - i,
    {
        let card = legal_moves[i];
        let ghost st_i = rng@;
        proof {
            lemma_evaluate_next(public@, cards, st0, samples as nat, i as nat);
            assert(cards.contains(card));
        }
        let evaluated = evaluate_move(public, rng, card, samples);
        let stats = match evaluated {
            Ok(m) => m,
            Err(e) => {
                proof {
                    assert(evaluate_moves(public@, cards, st0, samples as nat, (i + 1) as nat) == (rng@, Err::<
                        Seq<MoveStats>,
                        MonteCarloError,
                    >(e)));
                    lemma_evaluate_err_sticks(public@, cards, st0, samples as nat, (i + 1) as nat, cards.len());
                    assert(evaluate_moves(public@, cards, st0, samples as nat, cards.len()) == (rng@, Err::<
                        Seq<MoveStats>,
                        MonteCarloError,
                    >(e)));
                }
                return Err(e);
            },
        };
        moves.push(stats);
        i = i + 1;
    }
    proof {
        lemma_evaluate_shape(public@, cards, st0, samples as nat, cards.len());
    }
    let mut ranked: Vec<MoveStats> = Vec::with_capacity(moves.len());
    let mut k: usize = 0;
    while k < moves.len()
        invariant
            k <= moves@.len(),
            moves@.len() == cards.len(),
            forall|j: int| 0 <= j < moves@.len() ==> stats_bounded(#[trigger] moves@[j]),
            ranked@ == rank_moves(moves@.subrange(0, k as int)),
        decreases moves@.len() - k,
    {
        proof {
            let sub = moves@.subrange(0, k as int);
            lemma_rank_moves_permutes(sub);
            assert forall|j: int| 0 <= j < ranked@.len() implies stats_bounded(#[trigger] ranked@[j]) by {
                broadcast use vstd::seq_lib::to_multiset_contains;

                assert(ranked@.contains(ranked@[j]));
                assert(ranked@.to_multiset().count(ranked@[j]) > 0);
                assert(sub.contains(ranked@[j]));
            }
            assert(moves@.subrange(0, k + 1).drop_last() =~= sub);
        }
        insert_ranked_exec(&mut ranked, moves[k]);
        k = k + 1;
    }
    proof {
        assert(moves@.subrange(0, moves@.len() as int) =~= moves@);
        lemma_rank_moves_permutes(moves@);
    }
    let best_move = ranked[0].card;
    Ok(BestMoveResult { best_move, moves: ranked })
}

/// Fraction comparisons by cross products chain like comparisons of the
/// fractions `x / n`, `y / m`, `z / k` themselves.
proof fn lemma_frac_trans(x: int, n: int, y: int, m: int, z: int, k: int)
    requires
        n > 0,
        m > 0,
        k > 0,
    ensures
        (x * m > y * n && y * k > z * m) ==> x * k > z * n,
        (x * m == y * n && y * k == z * m) ==> x * k == z * n,
        (x * m > y * n && y * k == z * m) ==> x * k > z * n,
        (x * m == y * n && y * k > z * m) ==> x * k > z * n,
{
    assert((x * m > y * n && y * k > z * m) ==> x * k > z * n) by (nonlinear_arith)
        requires
            n > 0,
            m > 0,
            k > 0,
    ;
    assert((x * m == y * n && y * k == z * m) ==> x * k == z * n) by (nonlinear_arith)
        requires
            n > 0,
            m > 0,
            k > 0,
    ;
    assert((x * m > y * n && y * k == z * m) ==> x * k > z * n) by (nonlinear_arith)
        requires
            n > 0,
            m > 0,
            k > 0,
    ;
    assert((x * m == y * n && y * k > z * m) ==> x * k > z * n) by (nonlinear_arith)
        requires
            n > 0,
            m > 0,
            k > 0,
    ;
}

/// On statistics with at least one sample, ranking is a strict weak
/// order: transitive, and a move ranked before another is ranked before
/// any third move or after it.
proof fn lemma_ranks_before_order(a: MoveStats, b: MoveStats, c: MoveStats)
    requires
        a.n_samples >= 1,
        b.n_samples >= 1,
        c.n_samples >= 1,
    ensures
        !ranks_before(a, a),
        ranks_before(a, b) && ranks_before(b, c) ==> ranks_before(a, c),
        ranks_before(a, c) ==> ranks_before(a, b) || ranks_before(b, c),
{
    let (na, nb, nc) = (a.n_samples as int, b.n_samples as int, c.n_samples as int);
    let (wa, wb, wc) = (a.win_score_sum as int, b.win_score_sum as int, c.win_score_sum as int);
    let (da, db, dc) = (a.score_delta_sum as int, b.score_delta_sum as int, c.score_delta_sum as int);
    lemma_frac_trans(wa, na, wb, nb, wc, nc);
    lemma_frac_trans(da, na, db, nb, dc, nc);
    lemma_frac_trans(wa, na, wc, nc, wb, nb);
    lemma_frac_trans(da, na, dc, nc, db, nb);
    lemma_frac_trans(wb, nb, wa, na, wc, nc);
    lemma_frac_trans(db, nb, da, na, dc, nc);
    lemma_frac_trans(wc, nc, wa, na, wb, nb);
    lemma_frac_trans(dc, nc, da, na, db, nb);
    lemma_frac_trans(wb, nb, wc, nc, wa, na);
    lemma_frac_trans(db, nb, dc, nc, da, na);
    lemma_frac_trans(wc, nc, wb, nb, wa, na);
    lemma_frac_trans(dc, nc, db, nb, da, na);
}

/// The elements of a sequence are sorted by rank: none ranks strictly
/// before an element that precedes it.
pub open spec fn ranked_sorted(s: Seq<MoveStats>) -> bool {
    forall|i: int, j: int| 0 <= i < j < s.len() ==> !ranks_before(#[trigger] s[j], #[trigger] s[i])
}

/// Ranked insertion keeps a sorted sequence sorted.
proof fn lemma_insert_ranked_sorted(sorted: Seq<MoveStats>, x: MoveStats)
    requires
        ranked_sorted(sorted),
        x.n_samples >= 1,
        forall|k: int| 0 <= k < sorted.len() ==> (#[trigger] sorted[k]).n_samples >= 1,
    ensures
        ranked_sorted(insert_ranked(sorted, x)),
    decreases sorted.len(),
{
    broadcast use vstd::seq_lib::to_multiset_contains;

    let r = insert_ranked(sorted, x);
    if sorted.len() == 0 {
        lemma_ranks_before_order(x, x, x);
    } else if ranks_before(x, sorted[0]) {
        assert forall|i: int, j: int| 0 <= i < j < r.len() implies !ranks_before(#[trigger] r[j], #[trigger] r[i]) by {
            if i == 0 {
                lemma_ranks_before_order(sorted[j - 1], x, sorted[0]);
                if j - 1 > 0 {
                    assert(!ranks_before(sorted[j - 1], sorted[0]));
                }
                lemma_ranks_before_order(sorted[0], sorted[0], sorted[0]);
            } else {
                assert(r[i] == sorted[i - 1] && r[j] == sorted[j - 1]);
            }
        }
    } else {
        let t = sorted.drop_first();
        assert forall|k: int| 0 <= k < t.len() implies (#[trigger] t[k]).n_samples >= 1 by {
            assert(t[k] == sorted[k + 1]);
        }
        assert(ranked_sorted(t)) by {
            assert forall|i: int, j: int| 0 <= i < j < t.len() implies !ranks_before(#[trigger] t[j], #[trigger] t[i]) by {
                assert(t[i] == sorted[i + 1] && t[j] == sorted[j + 1]);
            }
        }
        lemma_insert_ranked_sorted(t, x);
        lemma_insert_ranked(t, x);
        let rt = insert_ranked(t, x);
        assert forall|i: int, j: int| 0 <= i < j < r.len() implies !ranks_before(#[trigger] r[j], #[trigger] r[i]) by {
            if i == 0 {
                let y = r[j];
                assert(y == rt[j - 1]);
                assert(rt.contains(y));
                assert(rt.to_multiset().count(y) > 0);
                assert(t.to_multiset().insert(x).count(y) > 0);
                if y != x {
                    assert(t.to_multiset().count(y) > 0);
                    assert(t.contains(y));
                    let k = choose|k: int| 0 <= k < t.len() && t[k] == y;
                    assert(sorted[k + 1] == y);
                }
            } else {
                assert(r[i] == rt[i - 1] && r[j] == rt[j - 1]);
            }
        }
    }
}

/// The stable ranking sorts moves by rank.
pub proof fn lemma_rank_moves_sorted(s: Seq<MoveStats>)
    requires
        forall|k: int| 0 <= k < s.len() ==> (#[trigger] s[k]).n_samples >= 1,
    ensures
        ranked_sorted(rank_moves(s)),
    decreases s.len(),
{
    broadcast use vstd::seq_lib::to_multiset_contains;

    if s.len() > 0 {
        let t = s.drop_last();
        assert forall|k: int| 0 <= k < t.len() implies (#[trigger] t[k]).n_samples >= 1 by {
            assert(t[k] == s[k]);
        }
        lemma_rank_moves_sorted(t);
        lemma_rank_moves_permutes(t);
        let rt = rank_moves(t);
        assert forall|k: int| 0 <= k < rt.len() implies (#[trigger] rt[k]).n_samples >= 1 by {
            assert(rt.contains(rt[k]));
            assert(rt.to_multiset().count(rt[k]) > 0);
            assert(t.contains(rt[k]));
        }
        assert(s[s.len() - 1].n_samples >= 1);
        lemma_insert_ranked_sorted(rt, s.last());
    }
}

/// A successful best-move choice ranks every legal move once: the result
/// is a permutation of one entry per card of my hand, taken in hand order,
/// each with between one and the requested number of successful samples
/// (at least one requested) and a win-score sum of at most twice its
/// samples; the ranking is sorted, and the best move is the first entry, a
/// card of my hand that no other move ranks before.
pub proof fn lemma_best_move_is_top(public: PublicView, st: u64, config: MonteCarloConfig)
    ensures
        best_move_outcome(public, st, config).1 matches Ok((best, ranked)) ==> {
            &&& ranked.len() == public.my_hand.len()
            &&& ranked.len() > 0
            &&& ranked[0].card == best
            &&& public.my_hand.contains(best)
            &&& ranked_sorted(ranked)
            &&& forall|j: int| 0 <= j < ranked.len() ==> !ranks_before(#[trigger] ranked[j], ranked[0])
            &&& forall|j: int| 0 <= j < ranked.len() ==> (#[trigger] ranked[j]).n_samples >= 1
            &&& forall|j: int| 0 <= j < ranked.len() ==> stats_bounded(#[trigger] ranked[j])
            &&& forall|j: int|
                0 <= j < ranked.len() ==> (#[trigger] ranked[j]).n_samples <= (if config.samples_per_move
                    == 0 {
                    1
                } else {
                    config.samples_per_move
                })
            &&& forall|j: int| 0 <= j < ranked.len() ==> public.my_hand.contains((#[trigger] ranked[j]).card)
            &&& forall|k: int| 0 <= k < public.my_hand.len() ==> exists|j: int| 0 <= j < ranked.len()
                && (#[trigger] ranked[j]).card == #[trigger] public.my_hand[k]
            &&& exists|s: Seq<MoveStats>|
                #![trigger s.to_multiset()]
                s.len() == public.my_hand.len() && (forall|k: int| 0 <= k < s.len() ==> (#[trigger] s[k]).card
                    == public.my_hand[k]) && ranked.to_multiset() == s.to_multiset()
        },
{
    broadcast use vstd::seq_lib::to_multiset_contains;

    if best_move_outcome(public, st, config).1 is Ok {
        let samples = if config.samples_per_move == 0 {
            1nat
        } else {
            config.samples_per_move as nat
        };
        let cards = public.my_hand;
        lemma_evaluate_shape(public, cards, st, samples, cards.len());
        let s = evaluate_moves(public, cards, st, samples, cards.len()).1->Ok_0;
        lemma_rank_moves_permutes(s);
        lemma_rank_moves_sorted(s);
        let ranked = rank_moves(s);
        assert forall|j: int| 0 <= j < ranked.len() implies (#[trigger] ranked[j]).n_samples >= 1
            && stats_bounded(ranked[j]) && ranked[j].n_samples <= samples && cards.contains(ranked[j].card) by {
            assert(ranked.contains(ranked[j]));
            assert(ranked.to_multiset().count(ranked[j]) > 0);
            assert(s.contains(ranked[j]));
            let k = choose|k: int| 0 <= k < s.len() && s[k] == ranked[j];
            assert(cards[k] == ranked[j].card);
        }
        assert forall|k: int| 0 <= k < cards.len() implies exists|j: int| 0 <= j < ranked.len()
            && (#[trigger] ranked[j]).card == #[trigger] cards[k] by {
            assert(s.contains(s[k]));
            assert(s.to_multiset().count(s[k]) > 0);
            assert(ranked.contains(s[k]));
            let j = choose|j: int| 0 <= j < ranked.len() && ranked[j] == s[k];
            assert(ranked[j].card == cards[k]);
        }
        assert(s.len() == cards.len() && (forall|k: int| 0 <= k < s.len() ==> (#[trigger] s[k]).card
            == cards[k]) && ranked.to_multiset() == s.to_multiset());
        assert(ranked.contains(ranked[0]));
        assert(ranked.to_multiset().count(ranked[0]) > 0);
        assert(s.contains(ranked[0]));
        let k = choose|k: int| 0 <= k < s.len() && s[k] == ranked[0];
        assert(cards[k] == ranked[0].card);
        assert forall|j: int| 0 <= j < ranked.len() implies !ranks_before(#[trigger] ranked[j], ranked[0]) by {
            if j > 0 {
                assert(!ranks_before(ranked[j], ranked[0]));
            } else {
                lemma_ranks_before_order(ranked[0], ranked[0], ranked[0]);
            }
        }
    }
}

} // verus!
