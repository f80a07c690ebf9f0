//! Card model: suits, ranks, cards and the canonical 40-card deck order.
use vstd::prelude::*;

verus! {

/// Briscola suit.
#[derive(Debug, Clone, Copy, PartialEq, Eq, Structural, Hash)]
pub enum Suit {
    Coins,
    Cups,
    Swords,
    Clubs,
}

/// Number of cards in a full Briscola deck.
pub const FULL_DECK_SIZE: usize = 40;

/// Number of cards dealt to each player.
pub const HAND_SIZE: usize = 3;

/// Cards remaining in the talon after dealing and revealing the trump.
pub const INITIAL_TALON_SIZE: usize = FULL_DECK_SIZE - (HAND_SIZE * 2 + 1);

impl Suit {
    /// Zero-based suit index in canonical deck order.
    #[verifier::allow_in_spec]
    pub fn index(self) -> usize
        returns
            (match self {
                Suit::Coins => 0usize,
                Suit::Cups => 1usize,
                Suit::Swords => 2usize,
                Suit::Clubs => 3usize,
            }),
    {
        match self {
            Suit::Coins => 0,
            Suit::Cups => 1,
            Suit::Swords => 2,
            Suit::Clubs => 3,
        }
    }

    /// The suit at position `i` of canonical deck order.
    pub open spec fn from_index(i: int) -> Suit {
        if i == 0 {
            Suit::Coins
        } else if i == 1 {
            Suit::Cups
        } else if i == 2 {
            Suit::Swords
        } else {
            Suit::Clubs
        }
    }

    /// All suits in canonical deck order.
    pub fn all() -> (suits: [Suit; 4])
        ensures
            forall|i: int| 0 <= i < 4 ==> #[trigger] suits[i] == Suit::from_index(i),
    {
        [Suit::Coins, Suit::Cups, Suit::Swords, Suit::Clubs]
    }
}

/// Briscola rank.
#[derive(Debug, Clone, Copy, PartialEq, Eq, Structural, Hash)]
pub enum Rank {
    Ace,
    Two,
    Three,
    Four,
    Five,
    Six,
    Seven,
    Jack,
    Queen,
    King,
}

impl Rank {
    /// Zero-based rank index in canonical deck order.
    #[verifier::allow_in_spec]
    pub fn deck_index(self) -> usize
        returns
            (match self {
                Rank::Ace => 0usize,
                Rank::Two => 1usize,
                Rank::Three => 2usize,
                Rank::Four => 3usize,
                Rank::Five => 4usize,
                Rank::Six => 5usize,
                Rank::Seven => 6usize,
                Rank::Jack => 7usize,
                Rank::Queen => 8usize,
                Rank::King => 9usize,
            }),
    {
        match self {
            Rank::Ace => 0,
            Rank::Two => 1,
            Rank::Three => 2,
            Rank::Four => 3,
            Rank::Five => 4,
            Rank::Six => 5,
            Rank::Seven => 6,
            Rank::Jack => 7,
            Rank::Queen => 8,
            Rank::King => 9,
        }
    }

    /// The rank at position `i` of canonical deck order.
    pub open spec fn from_index(i: int) -> Rank {
        if i == 0 {
            Rank::Ace
        } else if i == 1 {
            Rank::Two
        } else if i == 2 {
            Rank::Three
        } else if i == 3 {
            Rank::Four
        } else if i == 4 {
            Rank::Five
        } else if i == 5 {
            Rank::Six
        } else if i == 6 {
            Rank::Seven
        } else if i == 7 {
            Rank::Jack
        } else if i == 8 {
            Rank::Queen
        } else {
            Rank::King
        }
    }

    /// All ranks in canonical deck order.
    pub fn all() -> (ranks: [Rank; 10])
        ensures
            forall|i: int| 0 <= i < 10 ==> #[trigger] ranks[i] == Rank::from_index(i),
    {
        [
            Rank::Ace,
            Rank::Two,
            Rank::Three,
            Rank::Four,
            Rank::Five,
            Rank::Six,
            Rank::Seven,
            Rank::Jack,
            Rank::Queen,
            Rank::King,
        ]
    }

    /// Trick points for this rank in classic Briscola scoring.
    #[verifier::allow_in_spec]
    pub fn points(self) -> u8
        returns
            (match self {
                Rank::Ace => 11u8,
                Rank::Three => 10u8,
                Rank::King => 4u8,
                Rank::Queen => 3u8,
                Rank::Jack => 2u8,
                _ => 0u8,
            }),
    {
        match self {
            Rank::Ace => 11,
            Rank::Three => 10,
            Rank::King => 4,
            Rank::Queen => 3,
            Rank::Jack => 2,
            Rank::Two | Rank::Four | Rank::Five | Rank::Six | Rank::Seven => 0,
        }
    }

    /// Relative rank strength used to compare cards of the same suit.
    #[verifier::allow_in_spec]
    pub fn power(self) -> u8
        returns
            (match self {
                Rank::Two => 0u8,
                Rank::Four => 1u8,
                Rank::Five => 2u8,
                Rank::Six => 3u8,
                Rank::Seven => 4u8,
                Rank::Jack => 5u8,
                Rank::Queen => 6u8,
                Rank::King => 7u8,
                Rank::Three => 8u8,
                Rank::Ace => 9u8,
            }),
    {
        match self {
            Rank::Two => 0,
            Rank::Four => 1,
            Rank::Five => 2,
            Rank::Six => 3,
            Rank::Seven => 4,
            Rank::Jack => 5,
            Rank::Queen => 6,
            Rank::King => 7,
            Rank::Three => 8,
            Rank::Ace => 9,
        }
    }
}

/// A single card in a Briscola deck.
#[derive(Debug, Clone, Copy, PartialEq, Eq, Structural, Hash)]
pub struct Card {
    pub suit: Suit,
    pub rank: Rank,
}

impl Card {
    /// Creates a card with the given suit and rank.
    #[verifier::allow_in_spec]
    pub fn new(suit: Suit, rank: Rank) -> Self
        returns
            (Card { suit, rank }),
    {
        Card { suit, rank }
    }

    /// Zero-based index in canonical deck order.
    #[verifier::allow_in_spec]
    pub fn index(self) -> usize
        returns
            (self.suit.index() * 10 + self.rank.deck_index()) as usize,
    {
        self.suit.index() * 10 + self.rank.deck_index()
    }

    /// The card at position `i` of canonical deck order.
    pub open spec fn from_index(i: int) -> Card {
        Card { suit: Suit::from_index(i / 10), rank: Rank::from_index(i % 10) }
    }
}

/// Canonical deck order: the card at each index.
pub open spec fn canonical_deck() -> Seq<Card> {
    Seq::new(40, |i: int| Card::from_index(i))
}

/// A card's index lies in `0..40`, and the card at that index is the card itself.
pub proof fn lemma_index_round_trip(card: Card)
    ensures
        card.index() < 40,
        Card::from_index(card.index() as int) == card,
{
}

/// Every index in `0..40` belongs to exactly the card found there.
pub proof fn lemma_from_index_round_trip(i: int)
    requires
        0 <= i < 40,
    ensures
        Card::from_index(i).index() == i,
{
}

/// Distinct cards have distinct deck indices.
pub proof fn lemma_index_injective(a: Card, b: Card)
    ensures
        a.index() == b.index() <==> a == b,
{
    lemma_index_round_trip(a);
    lemma_index_round_trip(b);
}

/// Converts a canonical deck index into a card.
pub fn card_from_index(index: usize) -> (card: Option<Card>)
    ensures
        card == (if index < 40 { Some(Card::from_index(index as int)) } else { None::<Card> }),
{
    if index >= FULL_DECK_SIZE {
        return None;
    }
    let suits = Suit::all();
    let ranks = Rank::all();
    let suit = suits[index / 10];
    let rank = ranks[index % 10];
    Some(Card::new(suit, rank))
}

/// Returns a full 40-card Briscola deck in canonical order.
pub fn full_deck() -> (deck: Vec<Card>)
    ensures
        deck@ == canonical_deck(),
{
    let mut deck: Vec<Card> = Vec::with_capacity(FULL_DECK_SIZE);
    let suits = Suit::all();
    let ranks = Rank::all();
    let mut s: usize = 0;
    while s < 4
        invariant
            s <= 4,
            deck@.len() == s * 10,
            forall|i: int| 0 <= i < s * 10 ==> #[trigger] deck@[i] == Card::from_index(i),
            forall|i: int| 0 <= i < 4 ==> #[trigger] suits[i] == Suit::from_index(i),
            forall|i: int| 0 <= i < 10 ==> #[trigger] ranks[i] == Rank::from_index(i),
        decreases 4 - s,
    {
        let mut r: usize = 0;
        while r < 10
            invariant
                s < 4,
                r <= 10,
                deck@.len() == s * 10 + r,
                forall|i: int| 0 <= i < s * 10 + r ==> #[trigger] deck@[i] == Card::from_index(i),
                forall|i: int| 0 <= i < 4 ==> #[trigger] suits[i] == Suit::from_index(i),
                forall|i: int| 0 <= i < 10 ==> #[trigger] ranks[i] == Rank::from_index(i),
            decreases 10 - r,
        {
            let card = Card::new(suits[s], ranks[r]);
            proof {
                let k = s * 10 + r;
                assert(k / 10 == s as int && k % 10 == r as int);
            }
            deck.push(card);
            r = r + 1;
        }
        s = s + 1;
    }
    assert(deck@ =~= canonical_deck());
    deck
}

} // verus!
