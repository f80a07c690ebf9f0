//! Bitset utilities for representing sets of cards.
//!
//! Each card maps to one bit in a 64-bit mask using canonical deck index.
//! Only the lowest 40 bits are used for Briscola cards.
use vstd::prelude::*;

use crate::card::{lemma_index_injective, lemma_index_round_trip, Card};

verus! {

/// Bitmask type used to represent card sets.
pub type CardMask = u64;

/// Mask with all valid card bits set.
pub const FULL_MASK: CardMask = 0xFF_FFFF_FFFFu64;

/// The single-card mask of a card.
pub open spec fn card_bit(c: Card) -> u64 {
    1u64 << (c.index() as u64)
}

/// Whether bit `i` of `m` is set.
pub open spec fn bit_set(m: u64, i: u64) -> bool {
    m & (1u64 << i) != 0
}

/// Whether the mask holds `card`.
pub open spec fn has_card(m: CardMask, card: Card) -> bool {
    bit_set(m, card.index() as u64)
}

/// The set of cards that a mask holds.
pub open spec fn mask_cards(m: CardMask) -> Set<Card> {
    Set::new(|c: Card| has_card(m, c))
}

/// Returns a single-card mask with the bit of `card` set.
pub fn card_mask(card: Card) -> (m: CardMask)
    ensures
        m == 1u64 << (card.index() as u64),
        forall|c: Card| #[trigger] has_card(m, c) <==> c == card,
{
    proof {
        lemma_single_bit(card);
    }
    1u64 << (card.index() as u64)
}

/// Returns `mask` with `card` inserted.
pub fn add(mask: CardMask, card: Card) -> (m: CardMask)
    ensures
        m == mask | (1u64 << (card.index() as u64)),
        forall|c: Card| #[trigger] has_card(m, c) <==> (has_card(mask, c) || c == card),
        mask_cards(m) == mask_cards(mask).insert(card),
{
    proof {
        lemma_add_bit(mask, card);
        assert(mask_cards(mask | (1u64 << (card.index() as u64))) =~= mask_cards(mask).insert(
            card,
        ));
    }
    mask | card_mask(card)
}

/// Returns true when `card` is present in `mask`.
pub fn contains(mask: CardMask, card: Card) -> (b: bool)
    ensures
        b == has_card(mask, card),
        b == mask_cards(mask).contains(card),
{
    (mask & card_mask(card)) != 0
}

proof fn lemma_single_bit(card: Card)
    ensures
        forall|c: Card| #[trigger] has_card(1u64 << (card.index() as u64), c) <==> c == card,
{
    assert forall|c: Card| #[trigger] has_card(1u64 << (card.index() as u64), c) <==> c == card by {
        lemma_index_round_trip(c);
        lemma_index_round_trip(card);
        lemma_index_injective(c, card);
        let i = card.index() as u64;
        let j = c.index() as u64;
        assert(((1u64 << i) & (1u64 << j) != 0) <==> i == j) by (bit_vector)
            requires
                i < 64,
                j < 64,
        ;
    }
}

/// Setting a card's bit adds exactly that card.
pub proof fn lemma_add_bit(mask: CardMask, card: Card)
    ensures
        forall|c: Card| #[trigger]
            has_card(mask | (1u64 << (card.index() as u64)), c) <==> (has_card(mask, c) || c
                == card),
{
    assert forall|c: Card| #[trigger]
        has_card(mask | (1u64 << (card.index() as u64)), c) <==> (has_card(mask, c) || c
            == card) by {
        lemma_index_round_trip(c);
        lemma_index_round_trip(card);
        lemma_index_injective(c, card);
        let i = card.index() as u64;
        let j = c.index() as u64;
        assert(((mask | (1u64 << i)) & (1u64 << j) != 0) <==> ((mask & (1u64 << j) != 0) || i
            == j)) by (bit_vector)
            requires
                i < 64,
                j < 64,
        ;
    }
}

/// The full mask holds every card.
pub proof fn lemma_full_mask_has_all(card: Card)
    ensures
        has_card(FULL_MASK, card),
{
    lemma_index_round_trip(card);
    let i = card.index() as u64;
    assert(0xFF_FFFF_FFFFu64 & (1u64 << i) != 0) by (bit_vector)
        requires
            i < 40,
    ;
}

/// Clearing a card's bit removes exactly that card.
pub proof fn lemma_clear_bit(mask: CardMask, card: Card, c: Card)
    ensures
        has_card(mask & !(1u64 << (card.index() as u64)), c) <==> (has_card(mask, c) && c
            != card),
{
    lemma_index_round_trip(c);
    lemma_index_round_trip(card);
    lemma_index_injective(c, card);
    let i = card.index() as u64;
    let j = c.index() as u64;
    assert(((mask & !(1u64 << i)) & (1u64 << j) != 0) <==> ((mask & (1u64 << j) != 0) && i
        != j)) by (bit_vector)
        requires
            i < 64,
            j < 64,
    ;
}

/// The empty mask holds no card.
pub proof fn lemma_empty_mask(card: Card)
    ensures
        !has_card(0u64, card),
{
    let i = card.index() as u64;
    assert(0u64 & (1u64 << i) == 0) by (bit_vector);
}

} // verus!
