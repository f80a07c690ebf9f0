//! Sampling of a fully specified world that is consistent with the public
//! information of one player.
use vstd::prelude::*;

use crate::bitset::{card_bit, contains, has_card, lemma_add_bit};
use crate::simulation::add_cards;
use crate::card::{canonical_deck, full_deck, lemma_index_injective, lemma_index_round_trip, Card};
use crate::rng::{lemma_shuffled_permutes, shuffled, FastRng};
use crate::state::{copy_cards, DeterminizedState, GameView, Player, PublicGameState, PublicView};

verus! {

/// Errors while building a determinized world from public information.
#[derive(Debug, Clone, Copy, PartialEq, Eq, Structural)]
pub enum DeterminizeError {
    InvalidPublicState,
}

/// Cards among the first `n` of canonical deck order that the mask does
/// not hold, in deck order.
pub open spec fn unseen_prefix(seen: u64, n: nat) -> Seq<Card>
    decreases n,
{
    if n == 0 {
        Seq::empty()
    } else {
        let c = Card::from_index(n - 1);
        let rest = unseen_prefix(seen, (n - 1) as nat);
        if has_card(seen, c) {
            rest
        } else {
            rest.push(c)
        }
    }
}

/// Every card not held by the mask, in canonical deck order.
pub open spec fn unknown_cards(seen: u64) -> Seq<Card> {
    unseen_prefix(seen, 40)
}

/// Number of cards the opponent holds: as many as mine, one fewer when
/// the opponent has already led (never below zero).
pub open spec fn opponent_hand_len(public: PublicView) -> nat {
    if public.opp_played is Some {
        if public.my_hand.len() == 0 {
            0
        } else {
            (public.my_hand.len() - 1) as nat
        }
    } else {
        public.my_hand.len()
    }
}

/// The generator state and world that sampling yields: the unknown cards
/// are shuffled; the opponent's hand is the first cards of the shuffle and
/// the talon the next `talon_len` ones. Sampling fails, leaving the
/// generator untouched, when too few cards are unknown.
pub open spec fn world_sample(public: PublicView, state: u64) -> (u64, Result<GameView, DeterminizeError>) {
    let unknown = unknown_cards(public.seen_cards);
    let k = opponent_hand_len(public);
    let required = k + public.talon_len;
    if unknown.len() < required {
        (state, Err(DeterminizeError::InvalidPublicState))
    } else {
        let (st, order) = shuffled(state, unknown);
        (
            st,
            Ok(
                GameView {
                    my_hand: public.my_hand,
                    opp_hand: order.subrange(0, k as int),
                    talon: order.subrange(k as int, required as int),
                    briscola_suit: public.briscola_suit,
                    face_up_trump: public.last_face_up_trump,
                    score_me: public.score_me,
                    score_opp: public.score_opp,
                    leader: public.leader,
                    pending_lead: public.opp_played,
                    pending_lead_by: if public.opp_played is Some {
                        Some(Player::Opponent)
                    } else {
                        None
                    },
                },
            ),
        )
    }
}

/// The unknown cards are exactly the cards outside the mask, each once,
/// in strictly increasing deck order.
pub proof fn lemma_unseen_prefix(seen: u64, n: nat)
    requires
        n <= 40,
    ensures
        forall|i: int, j: int|
            0 <= i < j < unseen_prefix(seen, n).len() ==> (#[trigger] unseen_prefix(seen, n)[i]).index()
                < (#[trigger] unseen_prefix(seen, n)[j]).index(),
        forall|c: Card|
            #[trigger] unseen_prefix(seen, n).contains(c) <==> (!has_card(seen, c) && c.index() < n),
        unseen_prefix(seen, n).no_duplicates(),
        unseen_prefix(seen, n).len() <= n,
    decreases n,
{
    if n > 0 {
        let m = (n - 1) as nat;
        lemma_unseen_prefix(seen, m);
        let rest = unseen_prefix(seen, m);
        let c = Card::from_index(m as int);
        crate::card::lemma_from_index_round_trip(m as int);
        let u = unseen_prefix(seen, n);
        assert forall|d: Card| u.contains(d) <==> (!has_card(seen, d) && d.index() < n) by {
            lemma_index_round_trip(d);
            lemma_index_injective(c, d);
            assert(rest.contains(d) <==> (!has_card(seen, d) && d.index() < m));
            if has_card(seen, c) {
                assert(u == rest);
            } else {
                assert(u == rest.push(c));
                if u.contains(d) {
                    let i = choose|i: int| 0 <= i < u.len() && u[i] == d;
                    if i < rest.len() {
                        assert(rest[i] == d);
                        assert(rest.contains(d));
                    } else {
                        assert(d == c);
                    }
                }
                if !has_card(seen, d) && d.index() < n {
                    if d.index() < m {
                        assert(rest.contains(d));
                        let i = choose|i: int| 0 <= i < rest.len() && rest[i] == d;
                        assert(u[i] == d);
                    } else {
                        assert(d == c);
                        assert(u[u.len() - 1] == d);
                    }
                }
            }
        }
        assert forall|i: int, j: int| 0 <= i < j < u.len() implies (#[trigger] u[i]).index() < (
        #[trigger] u[j]).index() by {
            if has_card(seen, c) {
                assert(u == rest);
            } else {
                assert(u == rest.push(c));
                if j < rest.len() {
                    assert(u[i] == rest[i] && u[j] == rest[j]);
                } else {
                    assert(u[j] == c);
                    assert(u[i] == rest[i]);
                    assert(rest.contains(rest[i]));
                    assert(rest.contains(rest[i]) <==> (!has_card(seen, rest[i]) && rest[i].index() < m));
                }
            }
        }
        assert forall|i: int, j: int| 0 <= i < u.len() && 0 <= j < u.len() && i != j implies u[i]
            != u[j] by {
            if i < j {
                assert(u[i].index() < u[j].index());
            } else {
                assert(u[j].index() < u[i].index());
            }
        }
    }
}

/// How many of the first `n` cards of deck order the mask holds.
pub open spec fn seen_count(seen: u64, n: nat) -> nat
    decreases n,
{
    if n == 0 {
        0
    } else {
        seen_count(seen, (n - 1) as nat) + if has_card(seen, Card::from_index(n - 1)) {
            1nat
        } else {
            0nat
        }
    }
}

/// Each of the first `n` cards is either unknown or held by the mask.
pub proof fn lemma_unseen_count(seen: u64, n: nat)
    ensures
        unseen_prefix(seen, n).len() + seen_count(seen, n) == n,
    decreases n,
{
    if n > 0 {
        lemma_unseen_count(seen, (n - 1) as nat);
    }
}

/// The empty mask holds no card.
pub proof fn lemma_seen_count_empty(n: nat)
    ensures
        seen_count(0u64, n) == 0,
    decreases n,
{
    if n > 0 {
        lemma_seen_count_empty((n - 1) as nat);
        crate::bitset::lemma_empty_mask(Card::from_index(n - 1));
    }
}

/// Setting one card's bit adds at most one held card, and none when the
/// card is held already.
pub proof fn lemma_seen_count_add(m: u64, c: Card, n: nat)
    requires
        n <= 40,
    ensures
        seen_count(m | card_bit(c), n) <= seen_count(m, n) + 1,
        has_card(m, c) ==> seen_count(m | card_bit(c), n) == seen_count(m, n),
    decreases n,
{
    lemma_add_bit(m, c);
    lemma_index_round_trip(c);
    if n > 0 {
        lemma_seen_count_add(m, c, (n - 1) as nat);
        lemma_seen_count_add_step(m, c, (n - 1) as nat);
    }
}

/// [lemma_seen_count_add] with the count of the first `n` cards bounded by
/// whether `c` is among them.
proof fn lemma_seen_count_add_step(m: u64, c: Card, n: nat)
    requires
        n < 40,
    ensures
        seen_count(m | card_bit(c), n) <= seen_count(m, n) + (if c.index() < n {
            1nat
        } else {
            0nat
        }),
    decreases n,
{
    lemma_add_bit(m, c);
    if n > 0 {
        lemma_seen_count_add_step(m, c, (n - 1) as nat);
        let d = Card::from_index(n - 1);
        crate::card::lemma_from_index_round_trip(n - 1);
        lemma_index_injective(c, d);
    }
}

/// Adding the cards of a hand adds at most that many held cards.
pub proof fn lemma_seen_count_add_cards(m: u64, h: Seq<Card>)
    ensures
        seen_count(add_cards(m, h), 40) <= seen_count(m, 40) + h.len(),
        forall|c: Card| has_card(m, c) ==> #[trigger] has_card(add_cards(m, h), c),
    decreases h.len(),
{
    if h.len() > 0 {
        lemma_seen_count_add_cards(m, h.drop_last());
        lemma_seen_count_add(add_cards(m, h.drop_last()), h.last(), 40);
        lemma_add_bit(add_cards(m, h.drop_last()), h.last());
    }
}

/// A sampled world deals only unknown cards, each at most once: the
/// opponent's hand and the talon are disjoint, hold no repeated card, and
/// contain no card of the seen mask.
pub proof fn lemma_sample_uses_unknown_cards(public: PublicView, state: u64)
    requires
        world_sample(public, state).1 is Ok,
    ensures
        ({
            let w = world_sample(public, state).1->Ok_0;
            &&& (w.opp_hand + w.talon).no_duplicates()
            &&& forall|c: Card| #[trigger] (w.opp_hand + w.talon).contains(c) ==> !has_card(public.seen_cards, c)
            &&& w.opp_hand.len() == opponent_hand_len(public)
            &&& w.talon.len() == public.talon_len
        }),
{
    broadcast use vstd::seq_lib::to_multiset_contains;
    broadcast use vstd::multiset::group_multiset_axioms;

    let unknown = unknown_cards(public.seen_cards);
    lemma_unseen_prefix(public.seen_cards, 40);
    lemma_shuffled_permutes(state, unknown);
    let order = shuffled(state, unknown).1;
    let k = opponent_hand_len(public);
    let required = k + public.talon_len;
    unknown.lemma_multiset_has_no_duplicates();
    order.lemma_multiset_has_no_duplicates_conv();
    let w = world_sample(public, state).1->Ok_0;
    let dealt = w.opp_hand + w.talon;
    assert(dealt =~= order.subrange(0, required as int));
    assert forall|c: Card| #[trigger] dealt.contains(c) implies !has_card(public.seen_cards, c) by {
        let i = choose|i: int| 0 <= i < dealt.len() && dealt[i] == c;
        assert(order[i] == c);
        assert(order.contains(c));
        assert(order.to_multiset().count(c) > 0);
        assert(unknown.contains(c));
    }
    assert forall|i: int, j: int| 0 <= i < dealt.len() && 0 <= j < dealt.len() && i != j implies dealt[i]
        != dealt[j] by {
        assert(dealt[i] == order[i] && dealt[j] == order[j]);
    }
}

/// Samples a full hidden game state that is consistent with the public view.
///
/// The unknown cards (the full deck minus the seen mask) are shuffled; the
/// opponent's hand takes the first of them (one fewer than my hand when
/// the opponent has led) and the talon the next `talon_len`. Fails with
/// [DeterminizeError::InvalidPublicState] when too few cards are unknown.
pub fn sample_world(public: &PublicGameState, rng: &mut FastRng) -> (r: Result<DeterminizedState, DeterminizeError>)
    requires
        public@.my_hand.len() + public.talon_len <= usize::MAX,
    ensures
        (final(rng)@, match r {
            Ok(s) => Ok(s@),
            Err(e) => Err(e),
        }) == world_sample(public@, old(rng)@),
{
    let deck = full_deck();
    let mut unknown: Vec<Card> = Vec::new();
    let mut i: usize = 0;
    while i < deck.len()
        invariant
            deck@ == canonical_deck(),
            i <= 40,
            unknown@ == unseen_prefix(public.seen_cards, i as nat),
        decreases 40 - i,
    {
        let card = deck[i];
        if !contains(public.seen_cards, card) {
            unknown.push(card);
        }
        i = i + 1;
    }
    let k = expected_opponent_hand_len(public);
    let required = k + public.talon_len;
    if unknown.len() < required {
        return Err(DeterminizeError::InvalidPublicState);
    }
    rng.shuffle(unknown.as_mut_slice());
    let mut opp_hand: Vec<Card> = Vec::with_capacity(k);
    let mut j: usize = 0;
    while j < k
        invariant
            j <= k,
            k <= required <= unknown@.len(),
            opp_hand@ == unknown@.subrange(0, j as int),
        decreases k - j,
    {
        opp_hand.push(unknown[j]);
        j = j + 1;
        assert(opp_hand@ =~= unknown@.subrange(0, j as int));
    }
    let mut talon: Vec<Card> = Vec::with_capacity(public.talon_len);
    while j < required
        invariant
            k <= j <= required,
            required <= unknown@.len(),
            talon@ == unknown@.subrange(k as int, j as int),
        decreases required - j,
    {
        talon.push(unknown[j]);
        j = j + 1;
        assert(talon@ =~= unknown@.subrange(k as int, j as int));
    }
    let pending_lead_by = match public.opp_played {
        Some(_) => Some(Player::Opponent),
        None => None,
    };
    Ok(
        DeterminizedState {
            my_hand: copy_cards(public.my_hand.as_slice()),
            opp_hand,
            talon,
            briscola_suit: public.briscola_suit,
            face_up_trump: public.last_face_up_trump,
            score_me: public.score_me,
            score_opp: public.score_opp,
            leader: public.leader,
            pending_lead: public.opp_played,
            pending_lead_by,
        },
    )
}

/// Number of cards the opponent holds: one fewer than mine when the
/// opponent has already led, never below zero.
fn expected_opponent_hand_len(public: &PublicGameState) -> (n: usize)
    ensures
        n == opponent_hand_len(public@),
{
    if public.opp_played.is_some() {
        public.my_hand.len().saturating_sub(1)
    } else {
        public.my_hand.len()
    }
}

} // verus!
