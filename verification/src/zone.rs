//! The zones of the table: plain stacks (stock, talon, foundations, hand)
//! and the fanned columns of the tableau.
//!
//! A stack shows its card at index 0. A column shows its last card; its
//! trailing `shown_cards` cards lie face up.

use vstd::prelude::*;
use crate::card::Card;
use crate::geometry::{card_size, spec_card_quad, Quad, Vec2, CARD_GAP, CARD_WIDTH, FAN_OFFSET};

verus! {

/// An ordered pile of cards and the place where it is drawn.
#[derive(Debug)]
pub struct Stack {
    pub cards: Vec<Card>,
    pub quad: Quad,
}

/// A column of the tableau.
#[derive(Debug)]
pub struct Tableau {
    pub cards: Vec<Card>,
    pub card_quads: Vec<Quad>,
    pub shown_cards: u8,
    pub x_position: i64,
}

/// What a stack holds, as mathematics.
pub struct StackView {
    pub cards: Seq<Card>,
    pub quad: Quad,
}

/// What a column holds, as mathematics.
pub struct TableauView {
    pub cards: Seq<Card>,
    pub card_quads: Seq<Quad>,
    pub shown_cards: u8,
    pub x_position: i64,
}

impl View for Stack {
    type V = StackView;

    open spec fn view(&self) -> StackView {
        StackView { cards: self.cards@, quad: self.quad }
    }
}

impl View for Tableau {
    type V = TableauView;

    open spec fn view(&self) -> TableauView {
        TableauView {
            cards: self.cards@,
            card_quads: self.card_quads@,
            shown_cards: self.shown_cards,
            x_position: self.x_position,
        }
    }
}

/// The quads of a column at `x` that holds `n` cards: one per card, each
/// `FAN_OFFSET` below the one before, or a single one for an empty column.
pub open spec fn fan(x: i64, n: nat) -> Seq<Quad> {
    if n == 0 {
        seq![spec_card_quad(x as int, 0)]
    } else {
        Seq::new(n, |i: int| spec_card_quad(x as int, -(i * FAN_OFFSET)))
    }
}

/// The x coordinate of column or pile number `i`, counted from `first`.
pub open spec fn slot_x(first: i64, i: int) -> int {
    first + (CARD_WIDTH + CARD_GAP) * i
}

impl StackView {
    /// The stack with `card` laid on its front.
    pub open spec fn push_front(self, card: Card) -> StackView {
        StackView { cards: self.cards.insert(0, card), ..self }
    }

    /// The stack without its front card.
    pub open spec fn remove_front(self) -> StackView {
        StackView { cards: self.cards.remove(0), ..self }
    }

    /// The stack with other cards in it.
    pub open spec fn with_cards(self, cards: Seq<Card>) -> StackView {
        StackView { cards, ..self }
    }
}

impl TableauView {
    /// No more cards are shown than there are, and the quads are those of
    /// the fan.
    pub open spec fn wf(self) -> bool {
        &&& self.shown_cards <= self.cards.len()
        &&& self.card_quads == fan(self.x_position, self.cards.len())
    }

    /// Index of the first face-up card.
    pub open spec fn first_shown(self) -> int {
        self.cards.len() - self.shown_cards
    }

    /// The column with its quads laid out anew.
    pub open spec fn laid_out(self) -> TableauView {
        TableauView { card_quads: fan(self.x_position, self.cards.len()), ..self }
    }

    /// The column after `cards` were laid face up on its end.
    pub open spec fn append(self, cards: Seq<Card>) -> TableauView {
        TableauView {
            cards: self.cards + cards,
            shown_cards: (self.shown_cards + cards.len()) as u8,
            ..self
        }.laid_out()
    }

    /// The column after the cards from index `i` on were taken off.
    pub open spec fn drain_from(self, i: int) -> TableauView {
        TableauView {
            cards: self.cards.take(i),
            shown_cards: (self.shown_cards - (self.cards.len() - i)) as u8,
            ..self
        }.laid_out()
    }

    /// The column after its last card was turned face up, if it has cards
    /// and shows none.
    pub open spec fn reveal_top(self) -> TableauView {
        if self.cards.len() > 0 && self.shown_cards == 0 {
            TableauView { shown_cards: 1, ..self }
        } else {
            self
        }
    }
}

impl Stack {
    pub fn empty() -> (stack: Self)
        ensures
            stack@.cards == Seq::<Card>::empty(),
            stack@.quad == spec_card_quad(0, 0),
    {
        Stack { cards: Vec::new(), quad: Quad { pos: Vec2::zero(), size: card_size() } }
    }

    /// Lays `card` on the front of the stack.
    pub fn push_front(&mut self, card: Card)
        ensures
            final(self)@ == old(self)@.push_front(card),
    {
        self.cards.insert(0, card);
    }

    /// Takes the front card off the stack, if there is one.
    pub fn remove_front(&mut self) -> (card: Option<Card>)
        ensures
            old(self)@.cards.len() == 0 ==> card.is_none() && final(self)@ == old(self)@,
            old(self)@.cards.len() > 0 ==> card == Some(old(self)@.cards[0]) && final(self)@
                == old(self)@.remove_front(),
    {
        if self.cards.len() == 0 {
            None
        } else {
            Some(self.cards.remove(0))
        }
    }
}

impl Tableau {
    pub open spec fn wf(&self) -> bool {
        self@.wf()
    }

    /// A column without cards and without quads. It is laid out by
    /// `calculate_card_quads`.
    pub fn empty() -> (tableau: Self)
        ensures
            tableau@.cards == Seq::<Card>::empty(),
            tableau@.card_quads == Seq::<Quad>::empty(),
            tableau@.shown_cards == 0,
            tableau@.x_position == 0,
    {
        Self { cards: Vec::new(), card_quads: Vec::new(), shown_cards: 0, x_position: 0 }
    }

    pub fn empty_tableaux() -> (tableaux: [Tableau; 7])
        ensures
            forall|i: int|
                0 <= i < 7 ==> {
                    &&& (#[trigger] tableaux[i])@.cards == Seq::<Card>::empty()
                    &&& tableaux[i]@.card_quads == Seq::<Quad>::empty()
                    &&& tableaux[i]@.shown_cards == 0
                    &&& tableaux[i]@.x_position == 0
                },
    {
        [
            Tableau::empty(),
            Tableau::empty(),
            Tableau::empty(),
            Tableau::empty(),
            Tableau::empty(),
            Tableau::empty(),
            Tableau::empty(),
        ]
    }

    /// Lays the quads out anew: one per card, fanned downwards, or a single
    /// one where the column is empty.
    pub fn calculate_card_quads(&mut self)
        requires
            old(self)@.cards.len() * FAN_OFFSET <= i64::MAX,
        ensures
            final(self)@ == old(self)@.laid_out(),
    {
        let n = self.cards.len();
        let x = self.x_position;
        let mut quads: Vec<Quad> = Vec::new();
        if n == 0 {
            quads.push(Quad { pos: Vec2 { x, y: 0 }, size: card_size() });
        } else {
            for i in 0..n
                invariant
                    n * FAN_OFFSET <= i64::MAX,
                    quads@ == Seq::new(
                        i as nat,
                        |k: int| spec_card_quad(x as int, -(k * FAN_OFFSET)),
                    ),
            {
                let y: i64 = -((i as i64) * FAN_OFFSET);
                quads.push(Quad { pos: Vec2 { x, y }, size: card_size() });
                assert(quads@ =~= Seq::new(
                    (i + 1) as nat,
                    |k: int| spec_card_quad(x as int, -(k * FAN_OFFSET)),
                ));
            }
        }
        assert(quads@ =~= fan(x, n as nat));
        self.card_quads = quads;
    }

    /// Lays the cards of `cards` face up on the end of the column and lays
    /// the quads out anew. `cards` is left empty.
    pub fn append(&mut self, cards: &mut Vec<Card>)
        requires
            old(self)@.shown_cards + old(cards)@.len() <= u8::MAX,
            (old(self)@.cards.len() + old(cards)@.len()) * FAN_OFFSET <= i64::MAX,
        ensures
            final(self)@ == old(self)@.append(old(cards)@),
            final(cards)@ == Seq::<Card>::empty(),
    {
        self.shown_cards = self.shown_cards + cards.len() as u8;
        self.cards.append(cards);
        self.calculate_card_quads();
    }

    /// Takes the cards from index `i` on off the column and lays the quads
    /// out anew. Only face-up cards can be taken.
    pub fn drain_from(&mut self, i: usize) -> (taken: Vec<Card>)
        requires
            old(self)@.shown_cards <= old(self)@.cards.len(),
            old(self)@.first_shown() <= i <= old(self)@.cards.len(),
            old(self)@.cards.len() * FAN_OFFSET <= i64::MAX,
        ensures
            taken@ == old(self)@.cards.skip(i as int),
            final(self)@ == old(self)@.drain_from(i as int),
    {
        self.shown_cards = self.shown_cards - (self.cards.len() - i) as u8;
        let taken = self.cards.split_off(i);
        self.calculate_card_quads();
        taken
    }

    /// Turns the last card face up if the column has cards and shows none.
    /// A column that shows a card, or has none, is left as it is.
    pub fn reveal_top(&mut self)
        ensures
            final(self)@ == old(self)@.reveal_top(),
            final(self)@.cards.len() > 0 ==> final(self)@.shown_cards >= 1,
            old(self)@.shown_cards >= 1 ==> final(self)@ == old(self)@,
    {
        if self.cards.len() > 0 {
            if self.shown_cards == 0 {
                self.shown_cards += 1;
            }
        }
    }
}

} // verus!
