//! Playing cards: an ordinal in `0..52` and the rank, suit and colour it stands for.

use vstd::prelude::*;

verus! {

/// The colour of a suit.
#[derive(Debug, Clone, Copy, PartialEq, Eq, Structural)]
pub enum Color {
    Red,
    Black,
}

/// The four suits, in the order in which the ordinals run through them.
#[derive(Debug, Clone, Copy, PartialEq, Eq, Structural)]
pub enum Suit {
    Spade,
    Heart,
    Club,
    Diamond,
}

/// Number of ranks in a suit.
pub const RANKS: u8 = 13;

/// Number of cards in a full deck.
pub const DECK_SIZE: u8 = 52;

/// The rank of an ordinal: 0 is the ace, 12 the king.
pub open spec fn rank_of(value: u8) -> u8 {
    value % RANKS
}

/// The suit of an ordinal: thirteen ordinals to a suit.
pub open spec fn suit_of(value: u8) -> Suit {
    if value / RANKS == 0 {
        Suit::Spade
    } else if value / RANKS == 1 {
        Suit::Heart
    } else if value / RANKS == 2 {
        Suit::Club
    } else {
        Suit::Diamond
    }
}

/// Spades and clubs are black, hearts and diamonds red.
pub open spec fn color_of_suit(suit: Suit) -> Color {
    match suit {
        Suit::Spade | Suit::Club => Color::Black,
        Suit::Heart | Suit::Diamond => Color::Red,
    }
}

/// The colour of an ordinal.
pub open spec fn color_of(value: u8) -> Color {
    color_of_suit(suit_of(value))
}

/// A playing card. `value` is its identity; the other fields are what the
/// ordinal stands for, kept beside it for the rules to read.
#[derive(Debug, Clone, Copy, PartialEq, Eq, Structural)]
pub struct Card {
    pub value: u8,
    pub rank: u8,
    pub color: Color,
    pub suit: Suit,
}

/// The card that an ordinal stands for.
pub open spec fn card_of(value: u8) -> Card {
    Card { value, rank: rank_of(value), color: color_of(value), suit: suit_of(value) }
}

/// The ordinal of the card with the given rank in the given suit.
pub open spec fn ordinal_of(rank: u8, suit: Suit) -> int {
    rank + RANKS * match suit {
        Suit::Spade => 0int,
        Suit::Heart => 1int,
        Suit::Club => 2int,
        Suit::Diamond => 3int,
    }
}

/// A full deck in the order of the ordinals.
pub open spec fn full_deck() -> Seq<Card> {
    Seq::new(DECK_SIZE as nat, |i: int| card_of(i as u8))
}

/// The column rule: a card goes on a card of the other colour that is one
/// rank higher.
pub open spec fn tableau_accepts(top: Card, moving: Card) -> bool {
    top.color != moving.color && top.rank == moving.rank + 1
}

/// The foundation rule: an empty pile takes an ace; any other pile takes the
/// card of its front card's suit that is one rank higher.
pub open spec fn foundation_accepts(pile: Seq<Card>, moving: Card) -> bool {
    if pile.len() == 0 {
        moving.rank == 0
    } else {
        pile[0].suit == moving.suit && pile[0].rank + 1 == moving.rank
    }
}

impl Card {
    /// The derived fields agree with the ordinal.
    pub open spec fn wf(self) -> bool {
        self == card_of(self.value)
    }

    /// The card belongs to a deck of 52.
    pub open spec fn in_deck(self) -> bool {
        self.wf() && self.value < DECK_SIZE
    }

    pub fn new(value: u8) -> (card: Self)
        ensures
            card == card_of(value),
    {
        Self {
            value,
            rank: Card::get_rank(value),
            color: Card::get_color(value),
            suit: Card::get_suit(value),
        }
    }

    pub fn get_rank(value: u8) -> (rank: u8)
        ensures
            rank == rank_of(value),
    {
        value % RANKS
    }

    pub fn get_color(value: u8) -> (color: Color)
        ensures
            color == color_of(value),
    {
        match value / RANKS {
            0 => Color::Black,
            2 => Color::Black,
            _ => Color::Red,
        }
    }

    pub fn get_suit(value: u8) -> (suit: Suit)
        ensures
            suit == suit_of(value),
    {
        match value / RANKS {
            0 => Suit::Spade,
            1 => Suit::Heart,
            2 => Suit::Club,
            _ => Suit::Diamond,
        }
    }
}

/// Rank and suit determine the ordinal, and the ordinal determines them:
/// within a deck the mapping from ordinals to cards is one to one, and every
/// pair of a rank below thirteen and a suit belongs to exactly one ordinal.
pub proof fn lemma_card_of_is_bijective(a: u8, b: u8, rank: u8, suit: Suit)
    requires
        a < DECK_SIZE,
        b < DECK_SIZE,
        rank < RANKS,
    ensures
        rank_of(a) < RANKS,
        ordinal_of(rank_of(a), suit_of(a)) == a,
        0 <= ordinal_of(rank, suit) < DECK_SIZE,
        rank_of(ordinal_of(rank, suit) as u8) == rank,
        suit_of(ordinal_of(rank, suit) as u8) == suit,
        (rank_of(a) == rank_of(b) && suit_of(a) == suit_of(b)) ==> a == b,
        card_of(a) == card_of(b) <==> a == b,
{
}

/// A red card is a heart or a diamond, a black one a spade or a club, and
/// the colour of a card of the deck is that of its suit.
pub proof fn lemma_color_follows_suit(card: Card)
    requires
        card.wf(),
    ensures
        card.color == color_of_suit(card.suit),
        card.color == Color::Black <==> (card.suit == Suit::Spade || card.suit == Suit::Club),
{
}

} // verus!
