//! Move advisor: a turn-by-turn session tracking a real game, card and
//! player notation, and suggestions from a parsed JSON snapshot.
use vstd::prelude::*;
use vstd::string::*;

use crate::bitset::{card_bit, contains, has_card, CardMask};
use crate::card::{canonical_deck, full_deck, Card, Rank, Suit, HAND_SIZE, INITIAL_TALON_SIZE};
use crate::mc::{best_move_outcome, choose_best_move, BestMoveResult, MonteCarloConfig, MonteCarloError, MoveStats};
use crate::rng::{seed_state, FastRng};
use crate::rules::{trick_points, trick_winner, TrickWinner};
use crate::simulation::add_cards;
use crate::state::{copy_cards, sat_add, Player, PublicGameState, PublicView};
use crate::text::{
    is_first_char, is_ws, lemma_trim_padded, lemma_trim_unchanged,
    concat3, find_char, find_char_str, is_nonempty, lower, lower_eq, strip, strip_prefix_str, trim,
    trim_str,
};

verus! {

/// Initial public state required to bootstrap an interactive advisor session.
#[derive(Debug, Clone, Copy, PartialEq, Eq, Structural)]
pub struct InteractiveInit {
    pub briscola_suit: Suit,
    pub face_up_trump: Card,
    pub leader: Player,
    pub talon_len: usize,
    pub score_me: u8,
    pub score_opp: u8,
}

/// Score and winner information for a resolved turn.
#[derive(Debug, Clone, Copy, PartialEq, Eq, Structural)]
pub struct TurnResult {
    pub winner: Player,
    pub points: u8,
    pub score_me: u8,
    pub score_opp: u8,
    pub talon_len: usize,
}

/// Interactive advisor session errors.
#[derive(Debug, Clone, Copy, PartialEq, Eq, Structural)]
pub enum SessionError {
    InvalidSetup,
    InvalidMove,
    InvalidDraw,
    SuggestionFailed,
}

/// Stateful advisor session for turn-by-turn manual play tracking.
#[derive(Debug, Clone)]
pub struct InteractiveSession {
    briscola_suit: Suit,
    face_up_trump: Card,
    my_hand: Vec<Card>,
    seen_cards: CardMask,
    score_me: u8,
    score_opp: u8,
    talon_len: usize,
    leader: Player,
    trick_number: usize,
}

/// Mathematical model of a session.
pub struct SessionView {
    pub briscola_suit: Suit,
    pub face_up_trump: Card,
    pub my_hand: Seq<Card>,
    pub seen_cards: u64,
    pub score_me: u8,
    pub score_opp: u8,
    pub talon_len: nat,
    pub leader: Player,
    pub trick_number: nat,
}

impl View for InteractiveSession {
    type V = SessionView;

    closed spec fn view(&self) -> SessionView {
        SessionView {
            briscola_suit: self.briscola_suit,
            face_up_trump: self.face_up_trump,
            my_hand: self.my_hand@,
            seen_cards: self.seen_cards,
            score_me: self.score_me,
            score_opp: self.score_opp,
            talon_len: self.talon_len as nat,
            leader: self.leader,
            trick_number: self.trick_number as nat,
        }
    }
}

/// A session is consistent: at most a full hand, at most the initial
/// talon, and few enough turns left that the trick counter stays small.
pub open spec fn session_wf(v: SessionView) -> bool {
    &&& v.my_hand.len() <= 3
    &&& v.talon_len <= 33
    &&& v.trick_number + (v.talon_len + 1) / 2 + v.my_hand.len() <= 21
}

/// The session that a setup and a starting hand give, or the setup error:
/// the face-up trump must be of the trump suit, the hand must hold 1 to 3
/// cards and the talon at most the initial 33.
pub open spec fn session_start(init: InteractiveInit, hand: Seq<Card>) -> Result<SessionView, SessionError> {
    if init.face_up_trump.suit != init.briscola_suit {
        Err(SessionError::InvalidSetup)
    } else if hand.len() == 0 || hand.len() > 3 || init.talon_len > 33 {
        Err(SessionError::InvalidSetup)
    } else {
        Ok(
            SessionView {
                briscola_suit: init.briscola_suit,
                face_up_trump: init.face_up_trump,
                my_hand: hand,
                seen_cards: add_cards(0u64 | card_bit(init.face_up_trump), hand),
                score_me: init.score_me,
                score_opp: init.score_opp,
                talon_len: init.talon_len as nat,
                leader: init.leader,
                trick_number: 1,
            },
        )
    }
}

/// The lead and reply cards of a turn: mine and the opponent's reply when
/// I lead, the opponent's lead and mine otherwise.
pub open spec fn turn_cards(v: SessionView, opp_played: Option<Card>, my_played: Card, opp_reply: Option<Card>) -> Option<(Card, Card)> {
    if v.leader == Player::Me {
        match opp_reply {
            Some(r) => Some((my_played, r)),
            None => None,
        }
    } else {
        match opp_played {
            Some(l) => Some((l, my_played)),
            None => None,
        }
    }
}

/// Session and result after a completed turn: the trick is scored for its
/// winner, my card leaves my hand, all played cards become seen, and I
/// draw: a card I name (which must be unseen) while the talon lasts, or,
/// at the last draw, my named card if I won the trick and the face-up
/// trump if I lost it. The winner leads next. A draw error leaves the
/// scoring and the played cards applied.
pub open spec fn turn_step(v: SessionView, opp_played: Option<Card>, my_played: Card, opp_reply: Option<Card>, my_draw: Option<Card>) -> (SessionView, Result<TurnResult, SessionError>) {
    if !v.my_hand.contains(my_played) {
        (v, Err(SessionError::InvalidMove))
    } else {
        match turn_cards(v, opp_played, my_played, opp_reply) {
            None => (v, Err(SessionError::InvalidMove)),
            Some((lead, reply)) => {
                let winner = if trick_winner(lead, reply, v.briscola_suit) == TrickWinner::Leader {
                    v.leader
                } else {
                    v.leader.other()
                };
                let points = trick_points(lead, reply);
                let v1 = SessionView {
                    score_me: if winner == Player::Me {
                        sat_add(v.score_me, points)
                    } else {
                        v.score_me
                    },
                    score_opp: if winner == Player::Me {
                        v.score_opp
                    } else {
                        sat_add(v.score_opp, points)
                    },
                    my_hand: v.my_hand.remove_value(my_played),
                    seen_cards: v.seen_cards | card_bit(my_played) | card_bit(lead) | card_bit(reply),
                    ..v
                };
                let drawn: Result<SessionView, SessionError> = if v.talon_len == 0 {
                    Ok(v1)
                } else if v.talon_len == 1 && winner != Player::Me {
                    Ok(
                        SessionView {
                            my_hand: v1.my_hand.push(v.face_up_trump),
                            talon_len: 0,
                            ..v1
                        },
                    )
                } else {
                    match my_draw {
                        None => Err(SessionError::InvalidDraw),
                        Some(d) => if has_card(v1.seen_cards, d) {
                            Err(SessionError::InvalidDraw)
                        } else {
                            Ok(
                                SessionView {
                                    my_hand: v1.my_hand.push(d),
                                    seen_cards: v1.seen_cards | card_bit(d),
                                    talon_len: if v.talon_len == 1 {
                                        0
                                    } else {
                                        (v.talon_len - 2) as nat
                                    },
                                    ..v1
                                },
                            )
                        },
                    }
                };
                match drawn {
                    Err(e) => (v1, Err(e)),
                    Ok(v2) => {
                        let v3 = SessionView { leader: winner, trick_number: v2.trick_number + 1, ..v2 };
                        (
                            v3,
                            Ok(
                                TurnResult {
                                    winner,
                                    points,
                                    score_me: v3.score_me,
                                    score_opp: v3.score_opp,
                                    talon_len: v3.talon_len as usize,
                                },
                            ),
                        )
                    },
                }
            },
        }
    }
}

/// The public view a suggestion is computed from.
pub open spec fn session_public(v: SessionView, opp_played: Option<Card>) -> PublicView {
    PublicView {
        my_hand: v.my_hand,
        opp_played,
        briscola_suit: v.briscola_suit,
        talon_len: v.talon_len as usize,
        last_face_up_trump: v.face_up_trump,
        seen_cards: match opp_played {
            Some(c) => v.seen_cards | card_bit(c),
            None => v.seen_cards,
        },
        score_me: v.score_me,
        score_opp: v.score_opp,
        leader: v.leader,
    }
}

/// Adds every card of a hand to a mask.
fn add_hand_cards(mask: CardMask, hand: &[Card]) -> (m: CardMask)
    ensures
        m == add_cards(mask, hand@),
{
    let mut m = mask;
    let mut i: usize = 0;
    while i < hand.len()
        invariant
            i <= hand@.len(),
            m == add_cards(mask, hand@.subrange(0, i as int)),
        decreases hand@.len() - i,
    {
        proof {
            assert(hand@.subrange(0, i + 1).drop_last() =~= hand@.subrange(0, i as int));
        }
        m = crate::bitset::add(m, hand[i]);
        i = i + 1;
    }
    proof {
        assert(hand@.subrange(0, i as int) =~= hand@);
    }
    m
}

impl InteractiveSession {
    /// The session is consistent: see [session_wf].
    pub open spec fn wf(&self) -> bool {
        session_wf(self@)
    }

    /// Creates a new session from public game setup and current hand.
    pub fn new(init: InteractiveInit, my_initial_hand: Vec<Card>) -> (r: Result<Self, SessionError>)
        ensures
            match r {
                Ok(s) => session_start(init, my_initial_hand@) == Ok::<SessionView, SessionError>(s@) && s.wf(),
                Err(e) => session_start(init, my_initial_hand@) == Err::<SessionView, SessionError>(e),
            },
    {
        if init.face_up_trump.suit != init.briscola_suit {
            return Err(SessionError::InvalidSetup);
        }
        if my_initial_hand.len() == 0 || my_initial_hand.len() > HAND_SIZE || init.talon_len
            > INITIAL_TALON_SIZE {
            return Err(SessionError::InvalidSetup);
        }
        let seen_cards = add_hand_cards(
            crate::bitset::add(0, init.face_up_trump),
            my_initial_hand.as_slice(),
        );
        Ok(
            InteractiveSession {
                briscola_suit: init.briscola_suit,
                face_up_trump: init.face_up_trump,
                my_hand: my_initial_hand,
                seen_cards,
                score_me: init.score_me,
                score_opp: init.score_opp,
                talon_len: init.talon_len,
                leader: init.leader,
                trick_number: 1,
            },
        )
    }

    /// My hand.
    pub fn my_hand(&self) -> (h: &[Card])
        ensures
            h@ == self@.my_hand,
    {
        self.my_hand.as_slice()
    }

    /// The current leader.
    pub fn leader(&self) -> (p: Player)
        ensures
            p == self@.leader,
    {
        self.leader
    }

    /// The number of the current trick, from 1.
    pub fn trick_number(&self) -> (n: usize)
        ensures
            n == self@.trick_number,
    {
        self.trick_number
    }

    /// My score.
    pub fn score_me(&self) -> (s: u8)
        ensures
            s == self@.score_me,
    {
        self.score_me
    }

    /// The opponent's score.
    pub fn score_opp(&self) -> (s: u8)
        ensures
            s == self@.score_opp,
    {
        self.score_opp
    }

    /// Cards left in the talon.
    pub fn talon_len(&self) -> (n: usize)
        ensures
            n == self@.talon_len,
    {
        self.talon_len
    }

    /// The game is over when my hand and the talon are empty.
    pub fn game_over(&self) -> (b: bool)
        ensures
            b == (self@.my_hand.len() == 0 && self@.talon_len == 0),
    {
        self.my_hand.len() == 0 && self.talon_len == 0
    }

    /// Computes move suggestions for the current turn.
    pub fn suggest_move(&self, opp_played: Option<Card>, rng: &mut FastRng, samples_per_move: usize) -> (r: Result<BestMoveResult, SessionError>)
        requires
            self.wf(),
        ensures
            ({
                let (st, out) = best_move_outcome(
                    session_public(self@, opp_played),
                    old(rng)@,
                    MonteCarloConfig {
                        samples_per_move: if samples_per_move == 0 {
                            1
                        } else {
                            samples_per_move
                        },
                    },
                );
                &&& final(rng)@ == st
                &&& match r {
                    Ok(res) => out == Ok::<(Card, Seq<MoveStats>), MonteCarloError>(
                        (res.best_move, res.moves@),
                    ),
                    Err(e) => e == SessionError::SuggestionFailed && out is Err,
                }
            }),
            r matches Ok(res) ==> self@.my_hand.contains(res.best_move),
    {
        let seen_cards = match opp_played {
            Some(card) => crate::bitset::add(self.seen_cards, card),
            None => self.seen_cards,
        };
        let public_state = PublicGameState {
            my_hand: copy_cards(self.my_hand.as_slice()),
            opp_played,
            briscola_suit: self.briscola_suit,
            talon_len: self.talon_len,
            last_face_up_trump: self.face_up_trump,
            seen_cards,
            score_me: self.score_me,
            score_opp: self.score_opp,
            leader: self.leader,
        };
        let samples = if samples_per_move == 0 {
            1
        } else {
            samples_per_move
        };
        proof {
            crate::mc::lemma_best_move_is_top(
                public_state@,
                rng@,
                MonteCarloConfig { samples_per_move: samples },
            );
        }
        let result = choose_best_move(&public_state, rng, MonteCarloConfig { samples_per_move: samples });
        match result {
            Ok(res) => Ok(res),
            Err(_) => Err(SessionError::SuggestionFailed),
        }
    }

    /// Applies a completed turn and advances session state.
    ///
    /// Fails with [SessionError::InvalidMove] when my card is not in my
    /// hand or the opponent's card of the trick is missing (nothing
    /// changes), and with [SessionError::InvalidDraw] when I must draw a
    /// named card and it is missing or already seen (the trick is then
    /// already scored and my card played).
    #[verifier::spinoff_prover]
    #[verifier::rlimit(40)]
    pub fn apply_turn(&mut self, opp_played: Option<Card>, my_played: Card, opp_reply_if_me_lead: Option<Card>, my_draw_card: Option<Card>) -> (r: Result<TurnResult, SessionError>)
        requires
            old(self).wf(),
        ensures
            (final(self)@, r) == turn_step(old(self)@, opp_played, my_played, opp_reply_if_me_lead, my_draw_card),
            final(self).wf(),
    {
        let mut hand_index: usize = 0;
        while hand_index < self.my_hand.len() && self.my_hand[hand_index] != my_played
            invariant
                hand_index <= self.my_hand@.len(),
                forall|j: int| 0 <= j < hand_index ==> self.my_hand@[j] != my_played,
            decreases self.my_hand@.len() - hand_index,
        {
            hand_index = hand_index + 1;
        }
        proof {
            self.my_hand@.index_of_first_ensures(my_played);
        }
        if hand_index == self.my_hand.len() {
            return Err(SessionError::InvalidMove);
        }
        proof {
            let k = self.my_hand@.index_of_first(my_played).unwrap();
            assert(k == hand_index);
        }
        let (lead_card, reply_card) = if self.leader == Player::Me {
            match opp_reply_if_me_lead {
                Some(opp_reply) => (my_played, opp_reply),
                None => {
                    return Err(SessionError::InvalidMove);
                },
            }
        } else {
            match opp_played {
                Some(opp_lead) => (opp_lead, my_played),
                None => {
                    return Err(SessionError::InvalidMove);
                },
            }
        };
        let winner = if trick_winner(lead_card, reply_card, self.briscola_suit) == TrickWinner::Leader {
            self.leader
        } else {
            self.leader.other()
        };
        let points = trick_points(lead_card, reply_card);
        if winner == Player::Me {
            self.score_me = self.score_me.saturating_add(points);
        } else {
            self.score_opp = self.score_opp.saturating_add(points);
        }
        self.my_hand.remove(hand_index);
        self.seen_cards = crate::bitset::add(self.seen_cards, my_played);
        self.seen_cards = crate::bitset::add(self.seen_cards, lead_card);
        self.seen_cards = crate::bitset::add(self.seen_cards, reply_card);
        proof {
            assert(self.my_hand@ =~= old(self)@.my_hand.remove_value(my_played));
        }
        if self.talon_len > 0 {
            if self.talon_len == 1 {
                if winner == Player::Me {
                    let drawn = match my_draw_card {
                        Some(c) => c,
                        None => {
                            return Err(SessionError::InvalidDraw);
                        },
                    };
                    if contains(self.seen_cards, drawn) {
                        return Err(SessionError::InvalidDraw);
                    }
                    self.my_hand.push(drawn);
                    self.seen_cards = crate::bitset::add(self.seen_cards, drawn);
                } else {
                    let face_up = self.face_up_trump;
                    self.my_hand.push(face_up);
                }
                self.talon_len = 0;
            } else {
                let drawn = match my_draw_card {
                    Some(c) => c,
                    None => {
                        return Err(SessionError::InvalidDraw);
                    },
                };
                if contains(self.seen_cards, drawn) {
                    return Err(SessionError::InvalidDraw);
                }
                self.my_hand.push(drawn);
                self.seen_cards = crate::bitset::add(self.seen_cards, drawn);
                self.talon_len -= 2;
            }
        }
        self.leader = winner;
        self.trick_number += 1;
        Ok(
            TurnResult {
                winner,
                points,
                score_me: self.score_me,
                score_opp: self.score_opp,
                talon_len: self.talon_len,
            },
        )
    }
}

/// A turn resolves the trick with the leader's card first: when the
/// opponent leads, its played card is the lead and mine the reply; when I
/// lead, my card is the lead and the opponent's reply the reply. The
/// winner is the leader if the lead holds the trick and the follower
/// otherwise; the trick's points go to the winner alone, the winner leads
/// next and my card leaves my hand. While the talon lasts I draw the card
/// I name, except at the last draw of a trick I lost, when I take the
/// face-up trump; the talon shrinks by two cards, or by its last one.
pub proof fn lemma_turn_resolves_trick(v: SessionView, opp_played: Option<Card>, my_played: Card, opp_reply: Option<Card>, my_draw: Option<Card>)
    ensures
        ({
            let (v2, r) = turn_step(v, opp_played, my_played, opp_reply, my_draw);
            r matches Ok(t) ==> {
                &&& v.my_hand.contains(my_played)
                &&& v.leader == Player::Opponent ==> (opp_played matches Some(l) && t.winner == (
                if trick_winner(l, my_played, v.briscola_suit) == TrickWinner::Leader {
                    Player::Opponent
                } else {
                    Player::Me
                }) && t.points == l.rank.points() + my_played.rank.points())
                &&& v.leader == Player::Me ==> (opp_reply matches Some(rp) && t.winner == (
                if trick_winner(my_played, rp, v.briscola_suit) == TrickWinner::Leader {
                    Player::Me
                } else {
                    Player::Opponent
                }) && t.points == my_played.rank.points() + rp.rank.points())
                &&& t.winner == Player::Me ==> t.score_me as int == if v.score_me + t.points > 255 {
                    255
                } else {
                    v.score_me + t.points
                } && t.score_opp == v.score_opp
                &&& t.winner == Player::Opponent ==> t.score_opp as int == if v.score_opp + t.points > 255 {
                    255
                } else {
                    v.score_opp + t.points
                } && t.score_me == v.score_me
                &&& v2.leader == t.winner
                &&& v2.trick_number == v.trick_number + 1
                &&& v.talon_len == 0 ==> v2.my_hand == v.my_hand.remove_value(my_played)
                    && v2.talon_len == 0
                &&& v.talon_len == 1 && t.winner == Player::Opponent ==> v2.my_hand
                    == v.my_hand.remove_value(my_played).push(v.face_up_trump) && v2.talon_len == 0
                &&& v.talon_len >= 1 && !(v.talon_len == 1 && t.winner == Player::Opponent) ==> (
                my_draw matches Some(d) && v2.my_hand == v.my_hand.remove_value(my_played).push(d)
                    && v2.talon_len + (if v.talon_len == 1 {
                    1int
                } else {
                    2int
                }) == v.talon_len)
            }
        }),
{
}

/// A string result viewed with its error as a character sequence.
pub open spec fn res_view<T>(r: Result<T, String>) -> Result<T, Seq<char>> {
    match r {
        Ok(x) => Ok(x),
        Err(m) => Err(m@),
    }
}

/// The suit named by a lower-case token: English, Italian, short or emoji forms.
pub open spec fn suit_token(t: Seq<char>) -> Option<Suit> {
    if t == "coins"@ || t == "coin"@ || t == "o"@ || t == "oro"@ || t == "denari"@ || t == "denaro"@ || t == "d"@ || t == "🪙"@ {
        Some(Suit::Coins)
    } else if t == "cups"@ || t == "cup"@ || t == "u"@ || t == "coppe"@ || t == "coppa"@ || t == "🏆"@ {
        Some(Suit::Cups)
    } else if t == "swords"@ || t == "sword"@ || t == "s"@ || t == "spade"@ || t == "⚔️"@ || t == "⚔"@ {
        Some(Suit::Swords)
    } else if t == "clubs"@ || t == "club"@ || t == "c"@ || t == "bastoni"@ || t == "b"@ || t == "🪄"@ {
        Some(Suit::Clubs)
    } else {
        None::<Suit>
    }
}

/// The rank named by a lower-case token.
pub open spec fn rank_token(t: Seq<char>) -> Option<Rank> {
    if t == "a"@ || t == "ace"@ || t == "asso"@ {
        Some(Rank::Ace)
    } else if t == "2"@ {
        Some(Rank::Two)
    } else if t == "3"@ {
        Some(Rank::Three)
    } else if t == "4"@ {
        Some(Rank::Four)
    } else if t == "5"@ {
        Some(Rank::Five)
    } else if t == "6"@ {
        Some(Rank::Six)
    } else if t == "7"@ {
        Some(Rank::Seven)
    } else if t == "j"@ || t == "jack"@ || t == "fante"@ {
        Some(Rank::Jack)
    } else if t == "q"@ || t == "queen"@ || t == "cavallo"@ {
        Some(Rank::Queen)
    } else if t == "k"@ || t == "king"@ || t == "re"@ {
        Some(Rank::King)
    } else {
        None::<Rank>
    }
}

/// The player named by a lower-case token.
pub open spec fn player_token(t: Seq<char>) -> Option<Player> {
    if t == "me"@ || t == "m"@ || t == "player"@ {
        Some(Player::Me)
    } else if t == "opponent"@ || t == "opp"@ || t == "o"@ {
        Some(Player::Opponent)
    } else {
        None::<Player>
    }
}

/// Looks a token up in the suit names, ignoring ASCII case.
fn suit_of_token(t: &str) -> (r: Option<Suit>)
    ensures
        r == suit_token(lower(t@)),
{
    if lower_eq(t, "coins") || lower_eq(t, "coin") || lower_eq(t, "o") || lower_eq(t, "oro") || lower_eq(t, "denari") || lower_eq(t, "denaro") || lower_eq(t, "d") || lower_eq(t, "🪙") {
        Some(Suit::Coins)
    } else if lower_eq(t, "cups") || lower_eq(t, "cup") || lower_eq(t, "u") || lower_eq(t, "coppe") || lower_eq(t, "coppa") || lower_eq(t, "🏆") {
        Some(Suit::Cups)
    } else if lower_eq(t, "swords") || lower_eq(t, "sword") || lower_eq(t, "s") || lower_eq(t, "spade") || lower_eq(t, "⚔️") || lower_eq(t, "⚔") {
        Some(Suit::Swords)
    } else if lower_eq(t, "clubs") || lower_eq(t, "club") || lower_eq(t, "c") || lower_eq(t, "bastoni") || lower_eq(t, "b") || lower_eq(t, "🪄") {
        Some(Suit::Clubs)
    } else {
        None
    }
}

/// Looks a token up in the rank names, ignoring ASCII case.
fn rank_of_token(t: &str) -> (r: Option<Rank>)
    ensures
        r == rank_token(lower(t@)),
{
    if lower_eq(t, "a") || lower_eq(t, "ace") || lower_eq(t, "asso") {
        Some(Rank::Ace)
    } else if lower_eq(t, "2") {
        Some(Rank::Two)
    } else if lower_eq(t, "3") {
        Some(Rank::Three)
    } else if lower_eq(t, "4") {
        Some(Rank::Four)
    } else if lower_eq(t, "5") {
        Some(Rank::Five)
    } else if lower_eq(t, "6") {
        Some(Rank::Six)
    } else if lower_eq(t, "7") {
        Some(Rank::Seven)
    } else if lower_eq(t, "j") || lower_eq(t, "jack") || lower_eq(t, "fante") {
        Some(Rank::Jack)
    } else if lower_eq(t, "q") || lower_eq(t, "queen") || lower_eq(t, "cavallo") {
        Some(Rank::Queen)
    } else if lower_eq(t, "k") || lower_eq(t, "king") || lower_eq(t, "re") {
        Some(Rank::King)
    } else {
        None
    }
}

/// Looks a token up in the player names, ignoring ASCII case.
fn player_of_token(t: &str) -> (r: Option<Player>)
    ensures
        r == player_token(lower(t@)),
{
    if lower_eq(t, "me") || lower_eq(t, "m") || lower_eq(t, "player") {
        Some(Player::Me)
    } else if lower_eq(t, "opponent") || lower_eq(t, "opp") || lower_eq(t, "o") {
        Some(Player::Opponent)
    } else {
        None
    }
}


/// Parsed suit of a token, or the error message.
pub open spec fn suit_parse(input: Seq<char>) -> Result<Suit, Seq<char>> {
    match suit_token(lower(trim(input))) {
        Some(s) => Ok(s),
        None => Err("invalid suit '"@ + input + "'"@),
    }
}

/// Parsed rank of a token, or the error message.
pub open spec fn rank_parse(input: Seq<char>) -> Result<Rank, Seq<char>> {
    match rank_token(lower(trim(input))) {
        Some(r) => Ok(r),
        None => Err("invalid rank '"@ + input + "'"@),
    }
}

/// Parsed player of a token, or the error message.
pub open spec fn player_parse(input: Seq<char>) -> Result<Player, Seq<char>> {
    match player_token(lower(trim(input))) {
        Some(p) => Ok(p),
        None => Err("invalid player '"@ + input + "' (use me/opponent)"@),
    }
}

/// The rest of `s` after the prefix `p`, trimmed, when it is not empty.
pub open spec fn try_prefix(s: Seq<char>, p: Seq<char>) -> Option<Seq<char>> {
    match strip(s, p) {
        Some(rest) => if trim(rest).len() > 0 {
            Some(trim(rest))
        } else {
            None
        },
        None => None,
    }
}

/// Compact notation `<suit><rank>`: the first suit prefix, among emoji
/// and one-letter forms, that is followed by a non-empty rank part.
pub open spec fn compact_split(s: Seq<char>) -> Option<(Seq<char>, Seq<char>)> {
    if try_prefix(s, "⚔️"@) is Some {
        Some(("⚔️"@, try_prefix(s, "⚔️"@).unwrap()))
    } else if try_prefix(s, "🪙"@) is Some {
        Some(("🪙"@, try_prefix(s, "🪙"@).unwrap()))
    } else if try_prefix(s, "🏆"@) is Some {
        Some(("🏆"@, try_prefix(s, "🏆"@).unwrap()))
    } else if try_prefix(s, "🪄"@) is Some {
        Some(("🪄"@, try_prefix(s, "🪄"@).unwrap()))
    } else if try_prefix(s, "o"@) is Some {
        Some(("o"@, try_prefix(s, "o"@).unwrap()))
    } else if try_prefix(s, "u"@) is Some {
        Some(("u"@, try_prefix(s, "u"@).unwrap()))
    } else if try_prefix(s, "s"@) is Some {
        Some(("s"@, try_prefix(s, "s"@).unwrap()))
    } else if try_prefix(s, "c"@) is Some {
        Some(("c"@, try_prefix(s, "c"@).unwrap()))
    } else if try_prefix(s, "d"@) is Some {
        Some(("d"@, try_prefix(s, "d"@).unwrap()))
    } else if try_prefix(s, "b"@) is Some {
        Some(("b"@, try_prefix(s, "b"@).unwrap()))
    } else {
        None
    }
}


/// Parsed card of a token in compact (`oA`, emoji suit) or explicit
/// (`coins:A`) notation, or the error message.
pub open spec fn card_parse(input: Seq<char>) -> Result<Card, Seq<char>> {
    let t = trim(input);
    if t.len() == 0 {
        Err("empty card string"@)
    } else {
        let parts = match find_char(t, ':') {
            Some(i) => Some((trim(t.subrange(0, i)), trim(t.subrange(i + 1, t.len() as int)))),
            None => compact_split(t),
        };
        match parts {
            None => Err("invalid card notation '"@ + t + "'"@),
            Some((suit_part, rank_part)) => match suit_parse(suit_part) {
                Err(e) => Err(e),
                Ok(suit) => match rank_parse(rank_part) {
                    Err(e) => Err(e),
                    Ok(rank) => Ok(Card { suit, rank }),
                },
            },
        }
    }
}

/// Parsed cards of the first `n` tokens, or the first error.
pub open spec fn list_parse(items: Seq<Seq<char>>, n: nat) -> Result<Seq<Card>, Seq<char>>
    decreases n,
{
    if n == 0 {
        Ok(Seq::empty())
    } else {
        match list_parse(items, (n - 1) as nat) {
            Err(e) => Err(e),
            Ok(cards) => match card_parse(items[n - 1]) {
                Err(e) => Err(e),
                Ok(c) => Ok(cards.push(c)),
            },
        }
    }
}

/// The character views of a list of strings.
pub open spec fn string_views(items: Seq<String>) -> Seq<Seq<char>> {
    items.map_values(|s: String| s@)
}

/// Emoji symbol of a suit.
pub open spec fn suit_symbol(x: Suit) -> Seq<char> {
    match x {
        Suit::Coins => "🪙"@,
        Suit::Cups => "🏆"@,
        Suit::Swords => "⚔️"@,
        Suit::Clubs => "🪄"@,
    }
}

/// Emoji symbol of a suit.
fn suit_symbol_text(x: Suit) -> (t: &'static str)
    ensures
        t@ == suit_symbol(x),
{
    match x {
        Suit::Coins => "🪙",
        Suit::Cups => "🏆",
        Suit::Swords => "⚔️",
        Suit::Clubs => "🪄",
    }
}


/// Letter or digit of a rank.
pub open spec fn rank_symbol(x: Rank) -> Seq<char> {
    match x {
        Rank::Ace => "A"@,
        Rank::Two => "2"@,
        Rank::Three => "3"@,
        Rank::Four => "4"@,
        Rank::Five => "5"@,
        Rank::Six => "6"@,
        Rank::Seven => "7"@,
        Rank::Jack => "J"@,
        Rank::Queen => "Q"@,
        Rank::King => "K"@,
    }
}

/// Letter or digit of a rank.
fn rank_symbol_text(x: Rank) -> (t: &'static str)
    ensures
        t@ == rank_symbol(x),
{
    match x {
        Rank::Ace => "A",
        Rank::Two => "2",
        Rank::Three => "3",
        Rank::Four => "4",
        Rank::Five => "5",
        Rank::Six => "6",
        Rank::Seven => "7",
        Rank::Jack => "J",
        Rank::Queen => "Q",
        Rank::King => "K",
    }
}


/// Compact emoji notation of a card.
pub open spec fn card_text(card: Card) -> Seq<char> {
    suit_symbol(card.suit) + rank_symbol(card.rank)
}

/// Every rank symbol, in lower case, is a rank token of that rank.
proof fn lemma_rank_symbol_token(r: Rank)
    ensures
        rank_token(lower(rank_symbol(r))) == Some(r),
{
    reveal_strlit("a");
    reveal_strlit("ace");
    reveal_strlit("asso");
    reveal_strlit("2");
    reveal_strlit("3");
    reveal_strlit("4");
    reveal_strlit("5");
    reveal_strlit("6");
    reveal_strlit("7");
    let t = rank_symbol(r);
    assert("a"@[0] == 'a');
    match r {
        Rank::Ace => {
            reveal_strlit("A");
            assert(lower(t) =~= "a"@);
            assert(rank_token(lower(t)) == Some(Rank::Ace));
        },
        Rank::Two => {
            assert(lower(t) =~= "2"@);
            assert(lower(t)[0] == '2');
            assert(rank_token(lower(t)) == Some(Rank::Two));
        },
        Rank::Three => {
            assert(lower(t) =~= "3"@);
            assert(lower(t)[0] == '3');
            assert(rank_token(lower(t)) == Some(Rank::Three));
        },
        Rank::Four => {
            assert(lower(t) =~= "4"@);
            assert(lower(t)[0] == '4');
            assert(rank_token(lower(t)) == Some(Rank::Four));
        },
        Rank::Five => {
            assert(lower(t) =~= "5"@);
            assert(lower(t)[0] == '5');
            assert(rank_token(lower(t)) == Some(Rank::Five));
        },
        Rank::Six => {
            assert(lower(t) =~= "6"@);
            assert(lower(t)[0] == '6');
            assert(rank_token(lower(t)) == Some(Rank::Six));
        },
        Rank::Seven => {
            assert(lower(t) =~= "7"@);
            assert(lower(t)[0] == '7');
            assert(rank_token(lower(t)) == Some(Rank::Seven));
        },
        Rank::Jack => {
            reveal_strlit("J");
            reveal_strlit("j");
            assert(lower(t) =~= "j"@);
            assert(lower(t)[0] == 'j');
            assert(rank_token(lower(t)) == Some(Rank::Jack));
        },
        Rank::Queen => {
            reveal_strlit("Q");
            reveal_strlit("j");
            reveal_strlit("jack");
            reveal_strlit("fante");
            reveal_strlit("q");
            assert(lower(t) =~= "q"@);
            assert(lower(t)[0] == 'q');
            assert(rank_token(lower(t)) == Some(Rank::Queen));
        },
        Rank::King => {
            reveal_strlit("K");
            reveal_strlit("j");
            reveal_strlit("jack");
            reveal_strlit("fante");
            reveal_strlit("q");
            reveal_strlit("queen");
            reveal_strlit("cavallo");
            reveal_strlit("k");
            assert(lower(t) =~= "k"@);
            assert(lower(t)[0] == 'k');
            assert(rank_token(lower(t)) == Some(Rank::King));
        },
    }
}

/// The rank symbol of every rank parses back to that rank.
proof fn lemma_rank_symbol_parses(r: Rank)
    ensures
        rank_parse(rank_symbol(r)) == Ok::<Rank, Seq<char>>(r),
{
    reveal_strlit("A");
    reveal_strlit("2");
    reveal_strlit("3");
    reveal_strlit("4");
    reveal_strlit("5");
    reveal_strlit("6");
    reveal_strlit("7");
    reveal_strlit("J");
    reveal_strlit("Q");
    reveal_strlit("K");
    lemma_trim_unchanged(rank_symbol(r));
    lemma_rank_symbol_token(r);
}

/// Every suit symbol is a suit token of that suit.
proof fn lemma_suit_symbol_token(x: Suit)
    ensures
        suit_token(lower(suit_symbol(x))) == Some(x),
{
    reveal_strlit("coins");
    reveal_strlit("coin");
    reveal_strlit("o");
    reveal_strlit("oro");
    reveal_strlit("denari");
    reveal_strlit("denaro");
    reveal_strlit("d");
    reveal_strlit("🪙");
    assert("o"@[0] == 'o');
    assert("d"@[0] == 'd');
    let t = suit_symbol(x);
    match x {
        Suit::Coins => {
            assert(lower(t) =~= "🪙"@);
        },
        Suit::Cups => {
            reveal_strlit("🏆");
            reveal_strlit("cups");
            reveal_strlit("cup");
            reveal_strlit("u");
            reveal_strlit("coppe");
            reveal_strlit("coppa");
            assert("🪙"@[0] == '\u{1FA99}');
            assert(lower(t) =~= "🏆"@);
            assert(lower(t)[0] == '\u{1F3C6}');
        },
        Suit::Swords => {
            reveal_strlit("⚔️");
            reveal_strlit("cups");
            reveal_strlit("cup");
            reveal_strlit("u");
            reveal_strlit("coppe");
            reveal_strlit("coppa");
            reveal_strlit("🏆");
            reveal_strlit("swords");
            reveal_strlit("sword");
            reveal_strlit("s");
            reveal_strlit("spade");
            assert(lower(t) =~= "⚔️"@);
            assert(lower(t).len() == 2);
        },
        Suit::Clubs => {
            reveal_strlit("🪄");
            reveal_strlit("cups");
            reveal_strlit("cup");
            reveal_strlit("u");
            reveal_strlit("coppe");
            reveal_strlit("coppa");
            reveal_strlit("🏆");
            reveal_strlit("swords");
            reveal_strlit("sword");
            reveal_strlit("s");
            reveal_strlit("spade");
            reveal_strlit("⚔️");
            reveal_strlit("⚔");
            reveal_strlit("clubs");
            reveal_strlit("club");
            reveal_strlit("c");
            reveal_strlit("bastoni");
            reveal_strlit("b");
            assert("🪙"@[0] == '\u{1FA99}');
            assert("🏆"@[0] == '\u{1F3C6}');
            assert("u"@[0] == 'u');
            assert("s"@[0] == 's');
            assert("c"@[0] == 'c');
            assert("b"@[0] == 'b');
            assert("⚔"@[0] == '\u{2694}');
            assert(lower(t) =~= "🪄"@);
            assert(lower(t)[0] == '\u{1FA84}');
        },
    }
}

/// The suit symbol of every suit parses back to that suit.
proof fn lemma_suit_symbol_parses(x: Suit)
    ensures
        suit_parse(suit_symbol(x)) == Ok::<Suit, Seq<char>>(x),
{
    reveal_strlit("🪙");
    reveal_strlit("🏆");
    reveal_strlit("⚔️");
    reveal_strlit("🪄");
    lemma_trim_unchanged(suit_symbol(x));
    lemma_suit_symbol_token(x);
}

/// Reveals the characters of every suit and rank symbol.
proof fn lemma_symbols_revealed()
    ensures
        "🪙"@ == seq!['\u{1FA99}'],
        "🏆"@ == seq!['\u{1F3C6}'],
        "⚔️"@ == seq!['\u{2694}', '\u{FE0F}'],
        "🪄"@ == seq!['\u{1FA84}'],
        "A"@ == seq!['A'],
        "2"@ == seq!['2'],
        "3"@ == seq!['3'],
        "4"@ == seq!['4'],
        "5"@ == seq!['5'],
        "6"@ == seq!['6'],
        "7"@ == seq!['7'],
        "J"@ == seq!['J'],
        "Q"@ == seq!['Q'],
        "K"@ == seq!['K'],
{
    reveal_strlit("🪙");
    reveal_strlit("🏆");
    reveal_strlit("⚔️");
    reveal_strlit("🪄");
    reveal_strlit("A");
    reveal_strlit("2");
    reveal_strlit("3");
    reveal_strlit("4");
    reveal_strlit("5");
    reveal_strlit("6");
    reveal_strlit("7");
    reveal_strlit("J");
    reveal_strlit("Q");
    reveal_strlit("K");
}

/// The compact text of a card splits into its suit and rank symbols.
proof fn lemma_card_text_splits(card: Card)
    ensures
        compact_split(card_text(card)) == Some((suit_symbol(card.suit), rank_symbol(card.rank))),
{
    lemma_symbols_revealed();
    reveal_strlit("o");
    reveal_strlit("u");
    reveal_strlit("s");
    reveal_strlit("c");
    reveal_strlit("d");
    reveal_strlit("b");
    let sym = suit_symbol(card.suit);
    let rk = rank_symbol(card.rank);
    let t = card_text(card);
    lemma_trim_unchanged(rk);
    assert(t.subrange(0, sym.len() as int) =~= sym);
    assert(t.subrange(sym.len() as int, t.len() as int) =~= rk);
    assert(strip(t, sym) == Some(rk));
    assert(try_prefix(t, sym) == Some(rk));
    let first = t[0];
    assert(t.subrange(0, 1)[0] == first);
    assert(t.len() >= 2 ==> t.subrange(0, 2)[0] == first);
    match card.suit {
        Suit::Swords => {},
        Suit::Coins => {
            assert(strip(t, "⚔️"@) is None);
        },
        Suit::Cups => {
            assert(strip(t, "⚔️"@) is None);
            assert(strip(t, "🪙"@) is None);
        },
        Suit::Clubs => {
            assert(strip(t, "⚔️"@) is None);
            assert(strip(t, "🪙"@) is None);
            assert(strip(t, "🏆"@) is None);
        },
    }
}

/// Parsing the compact text that formatting gives back yields the same
/// card: every card survives a format-then-parse round trip.
#[verifier::spinoff_prover]
#[verifier::rlimit(50)]
pub proof fn lemma_format_parse_round_trip(card: Card)
    ensures
        card_parse(card_text(card)) == Ok::<Card, Seq<char>>(card),
{
    lemma_symbols_revealed();
    let t = card_text(card);
    lemma_trim_unchanged(t);
    assert forall|i: int| 0 <= i < t.len() implies t[i] != ':' by {}
    assert(find_char(t, ':') is None);
    lemma_card_text_splits(card);
    lemma_suit_symbol_parses(card.suit);
    lemma_rank_symbol_parses(card.rank);
}

/// A card's compact text surrounded by whitespace still parses back to
/// the card.
pub proof fn lemma_padded_text_parses(card: Card, pre: Seq<char>, post: Seq<char>)
    requires
        forall|i: int| 0 <= i < pre.len() ==> is_ws(#[trigger] pre[i]),
        forall|i: int| 0 <= i < post.len() ==> is_ws(#[trigger] post[i]),
    ensures
        card_parse(pre + card_text(card) + post) == Ok::<Card, Seq<char>>(card),
{
    lemma_symbols_revealed();
    let t = card_text(card);
    lemma_trim_unchanged(t);
    lemma_trim_padded(pre, t, post);
    lemma_format_parse_round_trip(card);
}

/// The one-letter or digit name of a rank, in lower case.
pub open spec fn rank_letter(r: Rank) -> Seq<char> {
    match r {
        Rank::Ace => "a"@,
        Rank::Two => "2"@,
        Rank::Three => "3"@,
        Rank::Four => "4"@,
        Rank::Five => "5"@,
        Rank::Six => "6"@,
        Rank::Seven => "7"@,
        Rank::Jack => "j"@,
        Rank::Queen => "q"@,
        Rank::King => "k"@,
    }
}

/// The English name of a rank (its digit for a number card).
pub open spec fn rank_english(r: Rank) -> Seq<char> {
    match r {
        Rank::Ace => "ace"@,
        Rank::Jack => "jack"@,
        Rank::Queen => "queen"@,
        Rank::King => "king"@,
        _ => rank_letter(r),
    }
}

/// The Italian name of a rank (its digit for a number card).
pub open spec fn rank_italian(r: Rank) -> Seq<char> {
    match r {
        Rank::Ace => "asso"@,
        Rank::Jack => "fante"@,
        Rank::Queen => "cavallo"@,
        Rank::King => "re"@,
        _ => rank_letter(r),
    }
}

/// Reveals the characters of every rank name.
proof fn lemma_rank_names_revealed()
    ensures
        "a"@ == seq!['a'],
        "2"@ == seq!['2'],
        "3"@ == seq!['3'],
        "4"@ == seq!['4'],
        "5"@ == seq!['5'],
        "6"@ == seq!['6'],
        "7"@ == seq!['7'],
        "j"@ == seq!['j'],
        "q"@ == seq!['q'],
        "k"@ == seq!['k'],
        "ace"@ == seq!['a', 'c', 'e'],
        "asso"@ == seq!['a', 's', 's', 'o'],
        "jack"@ == seq!['j', 'a', 'c', 'k'],
        "fante"@ == seq!['f', 'a', 'n', 't', 'e'],
        "queen"@ == seq!['q', 'u', 'e', 'e', 'n'],
        "cavallo"@ == seq!['c', 'a', 'v', 'a', 'l', 'l', 'o'],
        "king"@ == seq!['k', 'i', 'n', 'g'],
        "re"@ == seq!['r', 'e'],
{
    reveal_strlit("a");
    reveal_strlit("2");
    reveal_strlit("3");
    reveal_strlit("4");
    reveal_strlit("5");
    reveal_strlit("6");
    reveal_strlit("7");
    reveal_strlit("j");
    reveal_strlit("q");
    reveal_strlit("k");
    reveal_strlit("ace");
    reveal_strlit("asso");
    reveal_strlit("jack");
    reveal_strlit("fante");
    reveal_strlit("queen");
    reveal_strlit("cavallo");
    reveal_strlit("king");
    reveal_strlit("re");
}

/// Every name of a rank is a rank token of that rank.
proof fn lemma_rank_name_token(r: Rank, w: Seq<char>)
    requires
        w == rank_letter(r) || w == rank_english(r) || w == rank_italian(r),
    ensures
        rank_token(w) == Some(r),
        lower(w) == w,
        w.len() > 0,
        !is_ws(w[0]),
        !is_ws(w[w.len() - 1]),
        forall|i: int| 0 <= i < w.len() ==> w[i] != ':',
{
    lemma_rank_names_revealed();
    assert(lower(w) =~= w);
    let c = w[0];
    assert("a"@[0] == 'a');
    assert("ace"@[0] == 'a');
    assert("asso"@[0] == 'a');
    assert("jack"@[0] == 'j');
    assert("fante"@[0] == 'f');
    assert("queen"@[0] == 'q');
    assert("cavallo"@[0] == 'c');
    assert("king"@[0] == 'k');
    assert("re"@[0] == 'r');
    assert("2"@[0] == '2');
    assert("3"@[0] == '3');
    assert("4"@[0] == '4');
    assert("5"@[0] == '5');
    assert("6"@[0] == '6');
    assert("7"@[0] == '7');
    assert("j"@[0] == 'j');
    assert("q"@[0] == 'q');
    assert("k"@[0] == 'k');
    assert("jack"@[1] == 'a');
    assert("king"@[1] == 'i');
}

/// Every rank name parses to its rank, whatever whitespace surrounds it:
/// the letter or digit (`a`, `2`..`7`, `j`, `q`, `k`), the English name
/// (`ace`, `jack`, `queen`, `king`) and the Italian name (`asso`, `fante`,
/// `cavallo`, `re`).
pub proof fn lemma_rank_names_parse(r: Rank, pre: Seq<char>, post: Seq<char>)
    requires
        forall|i: int| 0 <= i < pre.len() ==> is_ws(#[trigger] pre[i]),
        forall|i: int| 0 <= i < post.len() ==> is_ws(#[trigger] post[i]),
    ensures
        rank_parse(pre + rank_letter(r) + post) == Ok::<Rank, Seq<char>>(r),
        rank_parse(pre + rank_english(r) + post) == Ok::<Rank, Seq<char>>(r),
        rank_parse(pre + rank_italian(r) + post) == Ok::<Rank, Seq<char>>(r),
{
    lemma_rank_name_token(r, rank_letter(r));
    lemma_rank_name_token(r, rank_english(r));
    lemma_rank_name_token(r, rank_italian(r));
    lemma_trim_padded(pre, rank_letter(r), post);
    lemma_trim_padded(pre, rank_english(r), post);
    lemma_trim_padded(pre, rank_italian(r), post);
}

/// The one-letter name of a suit.
pub open spec fn suit_letter(x: Suit) -> Seq<char> {
    match x {
        Suit::Coins => "o"@,
        Suit::Cups => "u"@,
        Suit::Swords => "s"@,
        Suit::Clubs => "c"@,
    }
}

/// The English name of a suit.
pub open spec fn suit_english(x: Suit) -> Seq<char> {
    match x {
        Suit::Coins => "coins"@,
        Suit::Cups => "cups"@,
        Suit::Swords => "swords"@,
        Suit::Clubs => "clubs"@,
    }
}

/// The Italian name of a suit.
pub open spec fn suit_italian(x: Suit) -> Seq<char> {
    match x {
        Suit::Coins => "denari"@,
        Suit::Cups => "coppe"@,
        Suit::Swords => "spade"@,
        Suit::Clubs => "bastoni"@,
    }
}

/// Reveals the characters of every suit name.
proof fn lemma_suit_names_revealed()
    ensures
        "coins"@ == seq!['c', 'o', 'i', 'n', 's'],
        "coin"@ == seq!['c', 'o', 'i', 'n'],
        "o"@ == seq!['o'],
        "oro"@ == seq!['o', 'r', 'o'],
        "denari"@ == seq!['d', 'e', 'n', 'a', 'r', 'i'],
        "denaro"@ == seq!['d', 'e', 'n', 'a', 'r', 'o'],
        "d"@ == seq!['d'],
        "🪙"@ == seq!['\u{1FA99}'],
        "cups"@ == seq!['c', 'u', 'p', 's'],
        "cup"@ == seq!['c', 'u', 'p'],
        "u"@ == seq!['u'],
        "coppe"@ == seq!['c', 'o', 'p', 'p', 'e'],
        "coppa"@ == seq!['c', 'o', 'p', 'p', 'a'],
        "🏆"@ == seq!['\u{1F3C6}'],
        "swords"@ == seq!['s', 'w', 'o', 'r', 'd', 's'],
        "sword"@ == seq!['s', 'w', 'o', 'r', 'd'],
        "s"@ == seq!['s'],
        "spade"@ == seq!['s', 'p', 'a', 'd', 'e'],
        "⚔️"@ == seq!['\u{2694}', '\u{FE0F}'],
        "⚔"@ == seq!['\u{2694}'],
        "clubs"@ == seq!['c', 'l', 'u', 'b', 's'],
        "club"@ == seq!['c', 'l', 'u', 'b'],
        "c"@ == seq!['c'],
        "bastoni"@ == seq!['b', 'a', 's', 't', 'o', 'n', 'i'],
        "b"@ == seq!['b'],
{
    reveal_strlit("coins");
    reveal_strlit("coin");
    reveal_strlit("o");
    reveal_strlit("oro");
    reveal_strlit("denari");
    reveal_strlit("denaro");
    reveal_strlit("d");
    reveal_strlit("🪙");
    reveal_strlit("cups");
    reveal_strlit("cup");
    reveal_strlit("u");
    reveal_strlit("coppe");
    reveal_strlit("coppa");
    reveal_strlit("🏆");
    reveal_strlit("swords");
    reveal_strlit("sword");
    reveal_strlit("s");
    reveal_strlit("spade");
    reveal_strlit("⚔️");
    reveal_strlit("⚔");
    reveal_strlit("clubs");
    reveal_strlit("club");
    reveal_strlit("c");
    reveal_strlit("bastoni");
    reveal_strlit("b");
}

/// Every name of a suit is a suit token of that suit.
proof fn lemma_suit_name_token(x: Suit, w: Seq<char>)
    requires
        w == suit_letter(x) || w == suit_english(x) || w == suit_italian(x),
    ensures
        suit_token(w) == Some(x),
        lower(w) == w,
        w.len() > 0,
        !is_ws(w[0]),
        !is_ws(w[w.len() - 1]),
        forall|i: int| 0 <= i < w.len() ==> w[i] != ':',
{
    lemma_suit_names_revealed();
    assert(lower(w) =~= w);
    assert("coins"@[1] == 'o');
    assert("coin"@[1] == 'o');
    assert("cups"@[1] == 'u');
    assert("cup"@[1] == 'u');
    assert("coppe"@[1] == 'o');
    assert("coppe"@[2] == 'p');
    assert("coppa"@[1] == 'o');
    assert("coppa"@[2] == 'p');
    assert("clubs"@[1] == 'l');
    assert("club"@[1] == 'l');
    assert("spade"@[1] == 'p');
    assert("sword"@[1] == 'w');
    assert("swords"@[1] == 'w');
    assert("denari"@[5] == 'i');
    assert("denaro"@[5] == 'o');
    assert("o"@[0] == 'o');
    assert("d"@[0] == 'd');
    assert("u"@[0] == 'u');
    assert("s"@[0] == 's');
    assert("c"@[0] == 'c');
    assert("b"@[0] == 'b');
    assert("🪙"@[0] == '\u{1FA99}');
    assert("🏆"@[0] == '\u{1F3C6}');
    assert("⚔"@[0] == '\u{2694}');
}

/// Every suit name parses to its suit, whatever whitespace surrounds it:
/// the letter (`o`, `u`, `s`, `c`), the English name and the Italian name.
pub proof fn lemma_suit_names_parse(x: Suit, pre: Seq<char>, post: Seq<char>)
    requires
        forall|i: int| 0 <= i < pre.len() ==> is_ws(#[trigger] pre[i]),
        forall|i: int| 0 <= i < post.len() ==> is_ws(#[trigger] post[i]),
    ensures
        suit_parse(pre + suit_letter(x) + post) == Ok::<Suit, Seq<char>>(x),
        suit_parse(pre + suit_english(x) + post) == Ok::<Suit, Seq<char>>(x),
        suit_parse(pre + suit_italian(x) + post) == Ok::<Suit, Seq<char>>(x),
{
    lemma_suit_name_token(x, suit_letter(x));
    lemma_suit_name_token(x, suit_english(x));
    lemma_suit_name_token(x, suit_italian(x));
    lemma_trim_padded(pre, suit_letter(x), post);
    lemma_trim_padded(pre, suit_english(x), post);
    lemma_trim_padded(pre, suit_italian(x), post);
}

/// Splitting `ws:wr` at its first colon gives back both parts when the
/// first holds no colon and neither starts nor ends with whitespace.
#[verifier::spinoff_prover]
#[verifier::rlimit(50)]
proof fn lemma_colon_split(ws: Seq<char>, wr: Seq<char>)
    requires
        ws.len() > 0,
        wr.len() > 0,
        !is_ws(ws[0]),
        !is_ws(ws[ws.len() - 1]),
        !is_ws(wr[0]),
        !is_ws(wr[wr.len() - 1]),
        forall|i: int| 0 <= i < ws.len() ==> ws[i] != ':',
    ensures
        trim(ws + ":"@ + wr) == ws + ":"@ + wr,
        find_char(ws + ":"@ + wr, ':') == Some(ws.len() as int),
        trim((ws + ":"@ + wr).subrange(0, ws.len() as int)) == ws,
        trim((ws + ":"@ + wr).subrange(ws.len() + 1int, (ws + ":"@ + wr).len() as int)) == wr,
{
    reveal_strlit(":");
    let t = ws + ":"@ + wr;
    let n = ws.len() as int;
    assert(t[0] == ws[0]);
    assert(t[t.len() - 1] == wr[wr.len() - 1]);
    lemma_trim_unchanged(t);
    assert(t[n] == ':');
    assert forall|j: int| 0 <= j < n implies t[j] != ':' by {
        assert(t[j] == ws[j]);
    }
    assert(is_first_char(t, ':', n));
    assert forall|i: int| is_first_char(t, ':', i) implies i == n by {
        if i > n {
            assert(t[n] == ':');
        }
    }
    assert(t.subrange(0, n) =~= ws);
    assert(t.subrange(n + 1, t.len() as int) =~= wr);
    lemma_trim_unchanged(ws);
    lemma_trim_unchanged(wr);
}

/// A token `ws:wr` whose parts parse as a suit and a rank is that card.
proof fn lemma_colon_card(ws: Seq<char>, wr: Seq<char>, x: Suit, r: Rank)
    requires
        trim(ws + ":"@ + wr) == ws + ":"@ + wr,
        (ws + ":"@ + wr).len() > 0,
        find_char(ws + ":"@ + wr, ':') == Some(ws.len() as int),
        trim((ws + ":"@ + wr).subrange(0, ws.len() as int)) == ws,
        trim((ws + ":"@ + wr).subrange(ws.len() + 1int, (ws + ":"@ + wr).len() as int)) == wr,
        suit_parse(ws) == Ok::<Suit, Seq<char>>(x),
        rank_parse(wr) == Ok::<Rank, Seq<char>>(r),
    ensures
        card_parse(ws + ":"@ + wr) == Ok::<Card, Seq<char>>(Card { suit: x, rank: r }),
{
}

/// Explicit notation `<suit>:<rank>` with any name of the suit and any
/// name of the rank parses to that card; `clubs:queen`, `bastoni:cavallo`
/// and `c:q` all name the queen of clubs.
pub proof fn lemma_explicit_card_parses(x: Suit, r: Rank, ws: Seq<char>, wr: Seq<char>)
    requires
        ws == suit_letter(x) || ws == suit_english(x) || ws == suit_italian(x),
        wr == rank_letter(r) || wr == rank_english(r) || wr == rank_italian(r),
    ensures
        card_parse(ws + ":"@ + wr) == Ok::<Card, Seq<char>>(Card { suit: x, rank: r }),
{
    lemma_suit_name_token(x, ws);
    lemma_rank_name_token(r, wr);
    lemma_colon_split(ws, wr);
    lemma_suit_names_parse(x, Seq::empty(), Seq::empty());
    lemma_rank_names_parse(r, Seq::empty(), Seq::empty());
    assert(Seq::<char>::empty() + ws + Seq::<char>::empty() =~= ws);
    assert(Seq::<char>::empty() + wr + Seq::<char>::empty() =~= wr);
    lemma_colon_card(ws, wr, x, r);
}

/// The full and short names of a player.
pub open spec fn player_word(p: Player) -> Seq<char> {
    match p {
        Player::Me => "me"@,
        Player::Opponent => "opponent"@,
    }
}

/// The one-letter name of a player.
pub open spec fn player_letter(p: Player) -> Seq<char> {
    match p {
        Player::Me => "m"@,
        Player::Opponent => "o"@,
    }
}

/// Both names of a player parse to that player, whatever whitespace
/// surrounds them.
pub proof fn lemma_player_names_parse(p: Player, pre: Seq<char>, post: Seq<char>)
    requires
        forall|i: int| 0 <= i < pre.len() ==> is_ws(#[trigger] pre[i]),
        forall|i: int| 0 <= i < post.len() ==> is_ws(#[trigger] post[i]),
    ensures
        player_parse(pre + player_word(p) + post) == Ok::<Player, Seq<char>>(p),
        player_parse(pre + player_letter(p) + post) == Ok::<Player, Seq<char>>(p),
{
    reveal_strlit("me");
    reveal_strlit("m");
    reveal_strlit("player");
    reveal_strlit("opponent");
    reveal_strlit("opp");
    reveal_strlit("o");
    let w = player_word(p);
    let l = player_letter(p);
    assert(lower(w) =~= w);
    assert(lower(l) =~= l);
    assert("m"@[0] == 'm');
    assert("o"@[0] == 'o');
    lemma_trim_padded(pre, w, post);
    lemma_trim_padded(pre, l, post);
}

/// The rest of `input` after the prefix `p`, trimmed, when not empty.
fn try_prefix_str<'a>(input: &'a str, p: &str) -> (r: Option<&'a str>)
    ensures
        match r {
            Some(rest) => try_prefix(input@, p@) == Some(rest@),
            None => try_prefix(input@, p@) is None,
        },
{
    match strip_prefix_str(input, p) {
        Some(rest) => {
            let t = trim_str(rest);
            if is_nonempty(t) {
                Some(t)
            } else {
                None
            }
        },
        None => None,
    }
}

/// Splits compact notation into its suit prefix and trimmed rank part.
fn split_compact_card<'a>(input: &'a str) -> (r: Option<(&'a str, &'a str)>)
    ensures
        match r {
            Some((a, b)) => compact_split(input@) == Some((a@, b@)),
            None => compact_split(input@) is None,
        },
{
    match try_prefix_str(input, "⚔️") {
        Some(rest) => {
            return Some(("⚔️", rest));
        },
        None => {},
    }
    match try_prefix_str(input, "🪙") {
        Some(rest) => {
            return Some(("🪙", rest));
        },
        None => {},
    }
    match try_prefix_str(input, "🏆") {
        Some(rest) => {
            return Some(("🏆", rest));
        },
        None => {},
    }
    match try_prefix_str(input, "🪄") {
        Some(rest) => {
            return Some(("🪄", rest));
        },
        None => {},
    }
    match try_prefix_str(input, "o") {
        Some(rest) => {
            return Some(("o", rest));
        },
        None => {},
    }
    match try_prefix_str(input, "u") {
        Some(rest) => {
            return Some(("u", rest));
        },
        None => {},
    }
    match try_prefix_str(input, "s") {
        Some(rest) => {
            return Some(("s", rest));
        },
        None => {},
    }
    match try_prefix_str(input, "c") {
        Some(rest) => {
            return Some(("c", rest));
        },
        None => {},
    }
    match try_prefix_str(input, "d") {
        Some(rest) => {
            return Some(("d", rest));
        },
        None => {},
    }
    match try_prefix_str(input, "b") {
        Some(rest) => {
            return Some(("b", rest));
        },
        None => {},
    }
    None
}


/// Parses a suit token in English, Italian, short or emoji form, ignoring
/// surrounding whitespace and ASCII case.
pub fn parse_suit(input: &str) -> (r: Result<Suit, String>)
    ensures
        res_view(r) == suit_parse(input@),
{
    match suit_of_token(trim_str(input)) {
        Some(s) => Ok(s),
        None => Err(concat3("invalid suit '", input, "'")),
    }
}

/// Parses a rank token (`A,2..7,J,Q,K` or a name), ignoring surrounding
/// whitespace and ASCII case.
fn parse_rank(input: &str) -> (r: Result<Rank, String>)
    ensures
        res_view(r) == rank_parse(input@),
{
    match rank_of_token(trim_str(input)) {
        Some(rank) => Ok(rank),
        None => Err(concat3("invalid rank '", input, "'")),
    }
}

/// Parses a player token (`me`/`opponent` aliases accepted).
pub fn parse_player(input: &str) -> (r: Result<Player, String>)
    ensures
        res_view(r) == player_parse(input@),
{
    match player_of_token(trim_str(input)) {
        Some(p) => Ok(p),
        None => Err(concat3("invalid player '", input, "' (use me/opponent)")),
    }
}

/// Parses a card token in compact (`oA`, emoji suit) or explicit
/// (`coins:A`) format.
pub fn parse_card(input: &str) -> (r: Result<Card, String>)
    ensures
        res_view(r) == card_parse(input@),
{
    let trimmed = trim_str(input);
    if !is_nonempty(trimmed) {
        return Err(String::from_str("empty card string"));
    }
    let (suit_part, rank_part) = match find_char_str(trimmed, ':') {
        Some(i) => {
            let n = trimmed.unicode_len();
            (trim_str(trimmed.substring_char(0, i)), trim_str(trimmed.substring_char(i + 1, n)))
        },
        None => match split_compact_card(trimmed) {
            Some(parts) => parts,
            None => {
                return Err(concat3("invalid card notation '", trimmed, "'"));
            },
        },
    };
    let suit = match parse_suit(suit_part) {
        Ok(s) => s,
        Err(e) => {
            return Err(e);
        },
    };
    let rank = match parse_rank(rank_part) {
        Ok(r) => r,
        Err(e) => {
            return Err(e);
        },
    };
    Ok(Card::new(suit, rank))
}

/// Parses a list of card tokens, stopping at the first error.
pub fn parse_card_list(items: &[String]) -> (r: Result<Vec<Card>, String>)
    ensures
        match r {
            Ok(cards) => list_parse(string_views(items@), items@.len()) == Ok::<Seq<Card>, Seq<char>>(
                cards@,
            ),
            Err(e) => list_parse(string_views(items@), items@.len()) == Err::<Seq<Card>, Seq<char>>(e@),
        },
{
    let mut cards: Vec<Card> = Vec::with_capacity(items.len());
    let mut i: usize = 0;
    while i < items.len()
        invariant
            i <= items@.len(),
            list_parse(string_views(items@), i as nat) == Ok::<Seq<Card>, Seq<char>>(cards@),
        decreases items@.len() - i,
    {
        let card = match parse_card(items[i].as_str()) {
            Ok(c) => c,
            Err(e) => {
                proof {
                    lemma_list_parse_err_sticks(string_views(items@), (i + 1) as nat, items@.len());
                }
                return Err(e);
            },
        };
        cards.push(card);
        i = i + 1;
    }
    Ok(cards)
}

/// Once a token fails to parse, the list fails with that error.
proof fn lemma_list_parse_err_sticks(items: Seq<Seq<char>>, i: nat, j: nat)
    requires
        i <= j,
        list_parse(items, i) is Err,
    ensures
        list_parse(items, j) == list_parse(items, i),
    decreases j - i,
{
    if i < j {
        lemma_list_parse_err_sticks(items, i, (j - 1) as nat);
    }
}

/// Formats a card using compact emoji suit notation.
pub fn format_card(card: Card) -> (s: String)
    ensures
        s@ == card_text(card),
{
    String::from_str(suit_symbol_text(card.suit)).concat(rank_symbol_text(card.rank))
}

/// The canonical deck order restricted to the first `n` cards not in
/// `excluded`.
pub open spec fn deck_except(excluded: Seq<Card>, n: nat) -> Seq<Card>
    decreases n,
{
    if n == 0 {
        Seq::empty()
    } else {
        let c = Card::from_index(n - 1);
        let rest = deck_except(excluded, (n - 1) as nat);
        if excluded.contains(c) {
            rest
        } else {
            rest.push(c)
        }
    }
}

/// Returns a full deck, in canonical order, excluding the given cards.
pub fn all_cards_except(excluded: &[Card]) -> (cards: Vec<Card>)
    ensures
        cards@ == deck_except(excluded@, 40),
{
    let deck = full_deck();
    let mut cards: Vec<Card> = Vec::new();
    let mut i: usize = 0;
    while i < deck.len()
        invariant
            deck@ == canonical_deck(),
            i <= 40,
            cards@ == deck_except(excluded@, i as nat),
        decreases 40 - i,
    {
        let card = deck[i];
        if !contains_card_in(excluded, card) {
            cards.push(card);
        }
        i = i + 1;
    }
    cards
}

/// Whether a slice holds a card.
fn contains_card_in(cards: &[Card], card: Card) -> (b: bool)
    ensures
        b == cards@.contains(card),
{
    let mut i: usize = 0;
    while i < cards.len()
        invariant
            i <= cards@.len(),
            forall|j: int| 0 <= j < i ==> cards@[j] != card,
        decreases cards@.len() - i,
    {
        if cards[i] == card {
            return true;
        }
        i = i + 1;
    }
    false
}

/// The name of a Monte Carlo error.
pub open spec fn mc_error_name(e: MonteCarloError) -> Seq<char> {
    match e {
        MonteCarloError::NoLegalMoves => "NoLegalMoves"@,
        MonteCarloError::NotMyTurn => "NotMyTurn"@,
        MonteCarloError::DeterminizeFailed => "DeterminizeFailed"@,
        MonteCarloError::SimulationFailed => "SimulationFailed"@,
        MonteCarloError::NoSuccessfulSamples => "NoSuccessfulSamples"@,
    }
}

/// The name of a Monte Carlo error.
fn mc_error_text(e: MonteCarloError) -> (t: &'static str)
    ensures
        t@ == mc_error_name(e),
{
    match e {
        MonteCarloError::NoLegalMoves => "NoLegalMoves",
        MonteCarloError::NotMyTurn => "NotMyTurn",
        MonteCarloError::DeterminizeFailed => "DeterminizeFailed",
        MonteCarloError::SimulationFailed => "SimulationFailed",
        MonteCarloError::NoSuccessfulSamples => "NoSuccessfulSamples",
    }
}


/// JSON payload used by the `advisor suggest` command.
#[derive(Debug)]
pub struct JsonSuggestionInput {
    pub briscola_suit: String,
    pub face_up_trump: String,
    pub my_hand: Vec<String>,
    pub opp_played: Option<String>,
    pub talon_len: usize,
    pub score_me: u8,
    pub score_opp: u8,
    pub leader: String,
    pub history: Vec<JsonTrick>,
    pub seen_cards: Vec<String>,
    pub samples_per_move: Option<usize>,
    pub seed: Option<u64>,
}

/// One completed trick from historical play.
#[derive(Debug)]
pub struct JsonTrick {
    pub lead: String,
    pub reply: String,
}

/// The lead and reply tokens of each trick.
pub open spec fn trick_views(history: Seq<JsonTrick>) -> Seq<(Seq<char>, Seq<char>)> {
    history.map_values(|t: JsonTrick| (t.lead@, t.reply@))
}

/// `m` with the cards of the first `n` tricks added, lead then reply,
/// or the first parse error.
pub open spec fn history_mask(m: u64, tricks: Seq<(Seq<char>, Seq<char>)>, n: nat) -> Result<u64, Seq<char>>
    decreases n,
{
    if n == 0 {
        Ok(m)
    } else {
        match history_mask(m, tricks, (n - 1) as nat) {
            Err(e) => Err(e),
            Ok(m1) => match card_parse(tricks[n - 1].0) {
                Err(e) => Err(e),
                Ok(a) => match card_parse(tricks[n - 1].1) {
                    Err(e) => Err(e),
                    Ok(b) => Ok(m1 | card_bit(a) | card_bit(b)),
                },
            },
        }
    }
}

/// `m` with the cards of the first `n` tokens added, or the first parse
/// error.
pub open spec fn tokens_mask(m: u64, tokens: Seq<Seq<char>>, n: nat) -> Result<u64, Seq<char>>
    decreases n,
{
    if n == 0 {
        Ok(m)
    } else {
        match tokens_mask(m, tokens, (n - 1) as nat) {
            Err(e) => Err(e),
            Ok(m1) => match card_parse(tokens[n - 1]) {
                Err(e) => Err(e),
                Ok(a) => Ok(m1 | card_bit(a)),
            },
        }
    }
}

/// The public state described by a JSON snapshot, or the first error.
///
/// Fields are read in order: trump suit, face-up trump (which must be of
/// the trump suit), my hand (1 to 3 cards), the opponent's lead, the
/// leader; the seen cards are the face-up trump, the cards of the history,
/// the listed seen cards, my hand and the opponent's lead.
pub open spec fn json_public(input: JsonSuggestionInput) -> Result<PublicView, Seq<char>> {
    match suit_parse(input.briscola_suit@) {
        Err(e) => Err(e),
        Ok(suit) => match card_parse(input.face_up_trump@) {
            Err(e) => Err(e),
            Ok(face) => if face.suit != suit {
                Err("face_up_trump suit must match briscola_suit"@)
            } else {
                match list_parse(string_views(input.my_hand@), input.my_hand@.len()) {
                    Err(e) => Err(e),
                    Ok(hand) => if hand.len() == 0 || hand.len() > 3 {
                        Err("my_hand must contain 1 to 3 cards"@)
                    } else {
                        let opp: Result<Option<Card>, Seq<char>> = match input.opp_played {
                            Some(s) => match card_parse(s@) {
                                Err(e) => Err(e),
                                Ok(c) => Ok(Some(c)),
                            },
                            None => Ok(None),
                        };
                        match opp {
                            Err(e) => Err(e),
                            Ok(opp_played) => match player_parse(input.leader@) {
                                Err(e) => Err(e),
                                Ok(leader) => match history_mask(
                                    0u64 | card_bit(face),
                                    trick_views(input.history@),
                                    input.history@.len(),
                                ) {
                                    Err(e) => Err(e),
                                    Ok(m1) => match tokens_mask(
                                        m1,
                                        string_views(input.seen_cards@),
                                        input.seen_cards@.len(),
                                    ) {
                                        Err(e) => Err(e),
                                        Ok(m2) => {
                                            let m3 = add_cards(m2, hand);
                                            Ok(
                                                PublicView {
                                                    my_hand: hand,
                                                    opp_played,
                                                    briscola_suit: suit,
                                                    talon_len: input.talon_len,
                                                    last_face_up_trump: face,
                                                    seen_cards: match opp_played {
                                                        Some(c) => m3 | card_bit(c),
                                                        None => m3,
                                                    },
                                                    score_me: input.score_me,
                                                    score_opp: input.score_opp,
                                                    leader,
                                                },
                                            )
                                        },
                                    },
                                },
                            },
                        }
                    }
                }
            },
        },
    }
}

/// `a`, or else `b`.
pub open spec fn or_opt<T>(a: Option<T>, b: Option<T>) -> Option<T> {
    match a {
        Some(x) => Some(x),
        None => b,
    }
}

/// The samples per move and the seed a suggestion uses: the overrides,
/// else the snapshot's values, else 128 samples and seed 42.
pub open spec fn json_samples(input: JsonSuggestionInput, samples_override: Option<usize>) -> usize {
    match or_opt(samples_override, input.samples_per_move) {
        Some(n) => n,
        None => 128,
    }
}

/// See [json_samples].
pub open spec fn json_seed(input: JsonSuggestionInput, seed_override: Option<u64>) -> u64 {
    match or_opt(seed_override, input.seed) {
        Some(s) => s,
        None => 42,
    }
}

/// The outcome of a suggestion from a JSON snapshot: the parse error, or
/// the Monte Carlo ranking with a generator seeded from the snapshot (its
/// failure reported as `suggestion failed: <error>`).
pub open spec fn json_suggestion(input: JsonSuggestionInput, samples_override: Option<usize>, seed_override: Option<u64>) -> Result<(Card, Seq<MoveStats>), Seq<char>> {
    match json_public(input) {
        Err(e) => Err(e),
        Ok(public) => {
            let n = json_samples(input, samples_override);
            let config = MonteCarloConfig {
                samples_per_move: if n == 0 {
                    1
                } else {
                    n
                },
            };
            match best_move_outcome(public, seed_state(json_seed(input, seed_override)), config).1 {
                Ok(x) => Ok(x),
                Err(e) => Err("suggestion failed: "@ + mc_error_name(e)),
            }
        },
    }
}

/// Adds the cards of a history to a mask, lead then reply, stopping at
/// the first parse error.
fn add_history(mask: CardMask, history: &[JsonTrick]) -> (r: Result<CardMask, String>)
    ensures
        res_view(r) == history_mask(mask, trick_views(history@), history@.len()),
{
    let mut m = mask;
    let mut i: usize = 0;
    while i < history.len()
        invariant
            i <= history@.len(),
            history_mask(mask, trick_views(history@), i as nat) == Ok::<u64, Seq<char>>(m),
        decreases history@.len() - i,
    {
        let lead = match parse_card(history[i].lead.as_str()) {
            Ok(c) => c,
            Err(e) => {
                proof {
                    lemma_history_err_sticks(mask, trick_views(history@), (i + 1) as nat, history@.len());
                }
                return Err(e);
            },
        };
        let reply = match parse_card(history[i].reply.as_str()) {
            Ok(c) => c,
            Err(e) => {
                proof {
                    lemma_history_err_sticks(mask, trick_views(history@), (i + 1) as nat, history@.len());
                }
                return Err(e);
            },
        };
        m = crate::bitset::add(m, lead);
        m = crate::bitset::add(m, reply);
        i = i + 1;
    }
    Ok(m)
}

proof fn lemma_history_err_sticks(m: u64, tricks: Seq<(Seq<char>, Seq<char>)>, i: nat, j: nat)
    requires
        i <= j,
        history_mask(m, tricks, i) is Err,
    ensures
        history_mask(m, tricks, j) == history_mask(m, tricks, i),
    decreases j - i,
{
    if i < j {
        lemma_history_err_sticks(m, tricks, i, (j - 1) as nat);
    }
}

/// Adds the cards of a list of tokens to a mask, stopping at the first
/// parse error.
fn add_tokens(mask: CardMask, tokens: &[String]) -> (r: Result<CardMask, String>)
    ensures
        res_view(r) == tokens_mask(mask, string_views(tokens@), tokens@.len()),
{
    let mut m = mask;
    let mut i: usize = 0;
    while i < tokens.len()
        invariant
            i <= tokens@.len(),
            tokens_mask(mask, string_views(tokens@), i as nat) == Ok::<u64, Seq<char>>(m),
        decreases tokens@.len() - i,
    {
        let card = match parse_card(tokens[i].as_str()) {
            Ok(c) => c,
            Err(e) => {
                proof {
                    lemma_tokens_err_sticks(mask, string_views(tokens@), (i + 1) as nat, tokens@.len());
                }
                return Err(e);
            },
        };
        m = crate::bitset::add(m, card);
        i = i + 1;
    }
    Ok(m)
}

proof fn lemma_tokens_err_sticks(m: u64, tokens: Seq<Seq<char>>, i: nat, j: nat)
    requires
        i <= j,
        tokens_mask(m, tokens, i) is Err,
    ensures
        tokens_mask(m, tokens, j) == tokens_mask(m, tokens, i),
    decreases j - i,
{
    if i < j {
        lemma_tokens_err_sticks(m, tokens, i, (j - 1) as nat);
    }
}

/// Builds the public state a JSON snapshot describes.
fn public_state_from_json(input: &JsonSuggestionInput) -> (r: Result<PublicGameState, String>)
    ensures
        match r {
            Ok(p) => json_public(*input) == Ok::<PublicView, Seq<char>>(p@),
            Err(e) => json_public(*input) == Err::<PublicView, Seq<char>>(e@),
        },
{
    let briscola_suit = match parse_suit(input.briscola_suit.as_str()) {
        Ok(s) => s,
        Err(e) => {
            return Err(e);
        },
    };
    let face_up_trump = match parse_card(input.face_up_trump.as_str()) {
        Ok(c) => c,
        Err(e) => {
            return Err(e);
        },
    };
    if face_up_trump.suit != briscola_suit {
        return Err(String::from_str("face_up_trump suit must match briscola_suit"));
    }
    let my_hand = match parse_card_list(input.my_hand.as_slice()) {
        Ok(h) => h,
        Err(e) => {
            return Err(e);
        },
    };
    if my_hand.len() == 0 || my_hand.len() > HAND_SIZE {
        return Err(String::from_str("my_hand must contain 1 to 3 cards"));
    }
    let opp_played = match &input.opp_played {
        Some(card) => match parse_card(card.as_str()) {
            Ok(c) => Some(c),
            Err(e) => {
                return Err(e);
            },
        },
        None => None,
    };
    let leader = match parse_player(input.leader.as_str()) {
        Ok(p) => p,
        Err(e) => {
            return Err(e);
        },
    };
    let seen_cards = crate::bitset::add(0, face_up_trump);
    let seen_cards = match add_history(seen_cards, input.history.as_slice()) {
        Ok(m) => m,
        Err(e) => {
            return Err(e);
        },
    };
    let seen_cards = match add_tokens(seen_cards, input.seen_cards.as_slice()) {
        Ok(m) => m,
        Err(e) => {
            return Err(e);
        },
    };
    let seen_cards = add_hand_cards(seen_cards, my_hand.as_slice());
    let seen_cards = match opp_played {
        Some(card) => crate::bitset::add(seen_cards, card),
        None => seen_cards,
    };
    Ok(
        PublicGameState {
            my_hand,
            opp_played,
            briscola_suit,
            talon_len: input.talon_len,
            last_face_up_trump: face_up_trump,
            seen_cards,
            score_me: input.score_me,
            score_opp: input.score_opp,
            leader,
        },
    )
}

/// Computes the best-move suggestion for a parsed JSON snapshot.
///
/// The samples per move and the seed come from the overrides, else from
/// the snapshot, else 128 and 42.
pub fn suggest_from_json_input(input: &JsonSuggestionInput, samples_override: Option<usize>, seed_override: Option<u64>) -> (r: Result<BestMoveResult, String>)
    requires
        json_public(*input) matches Ok(p) ==> p.my_hand.len() + input.talon_len <= usize::MAX,
    ensures
        match r {
            Ok(res) => json_suggestion(*input, samples_override, seed_override) == Ok::<
                (Card, Seq<MoveStats>),
                Seq<char>,
            >((res.best_move, res.moves@)),
            Err(e) => json_suggestion(*input, samples_override, seed_override) == Err::<
                (Card, Seq<MoveStats>),
                Seq<char>,
            >(e@),
        },
        r matches Ok(res) ==> json_public(*input) matches Ok(p) && p.my_hand.contains(res.best_move),
{
    let public_state = match public_state_from_json(input) {
        Ok(p) => p,
        Err(e) => {
            return Err(e);
        },
    };
    let samples_per_move = match samples_override {
        Some(n) => n,
        None => match input.samples_per_move {
            Some(n) => n,
            None => 128,
        },
    };
    let seed = match seed_override {
        Some(s) => s,
        None => match input.seed {
            Some(s) => s,
            None => 42,
        },
    };
    let mut rng = FastRng::new(seed);
    let samples = if samples_per_move == 0 {
        1
    } else {
        samples_per_move
    };
    proof {
        crate::mc::lemma_best_move_is_top(
            public_state@,
            rng@,
            MonteCarloConfig { samples_per_move: samples },
        );
    }
    let result = choose_best_move(&public_state, &mut rng, MonteCarloConfig { samples_per_move: samples });
    match result {
        Ok(res) => Ok(res),
        Err(e) => Err(String::from_str("suggestion failed: ").concat(mc_error_text(e))),
    }
}

/// The lead and reply cards of a turn as an error-reporting function:
/// mine and the opponent's reply when I lead, the opponent's lead and mine
/// otherwise; the missing opponent card is named in the error.
pub fn resolve_trick_cards(leader: Player, my_played: Card, opp_played: Option<Card>, opp_reply_if_me_lead: Option<Card>) -> (r: Result<(Card, Card), String>)
    ensures
        res_view(r) == (if leader == Player::Me {
            match opp_reply_if_me_lead {
                Some(reply) => Ok((my_played, reply)),
                None => Err("missing opponent reply"@),
            }
        } else {
            match opp_played {
                Some(lead) => Ok((lead, my_played)),
                None => Err("missing opponent lead"@),
            }
        }),
{
    if leader == Player::Me {
        return match opp_reply_if_me_lead {
            Some(opp_reply) => Ok((my_played, opp_reply)),
            None => Err(String::from_str("missing opponent reply")),
        };
    }
    match opp_played {
        Some(opp_lead) => Ok((opp_lead, my_played)),
        None => Err(String::from_str("missing opponent lead")),
    }
}

/// Whether I must name the card I draw after a trick: while more than one
/// card is in the talon, or at the last draw when I won the trick (the
/// loser then takes the face-up trump).
pub fn my_draw_needed(talon_len: usize, winner: Player) -> (b: bool)
    ensures
        b == (talon_len > 1 || (talon_len == 1 && winner == Player::Me)),
{
    talon_len > 1 || (talon_len == 1 && winner == Player::Me)
}

} // verus!
