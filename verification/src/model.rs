//! The table as mathematics: what a game holds and what each input makes of
//! it. The executable game is specified against these functions.

use vstd::prelude::*;
use vstd::multiset::Multiset;
use crate::card::{foundation_accepts, full_deck, tableau_accepts, Card};
use crate::geometry::{
    spec_card_quad, spec_deck_quad, Quad, Vec2, FIRST_COLUMN_X, FIRST_FOUNDATION_X, SCREEN_HEIGHT,
    SCREEN_WIDTH, TALON_X, TOP_ROW_Y,
};
use crate::zone::{fan, slot_x, StackView, TableauView};

verus! {

/// Number of columns in the tableau.
pub const COLUMNS: usize = 7;

/// Number of foundation piles.
pub const FOUNDATIONS: usize = 4;

/// Length of one step of the frame clock, in sixtieths of a nanosecond: one
/// sixtieth of a second.
pub const TICK_TIME: u128 = 1_000_000_000;

/// Steps of the frame clock in a second.
pub const TICKS_PER_SECOND: u128 = 60;

/// The zone that the cards in the hand were lifted from.
#[derive(Debug, Clone, Copy, PartialEq, Eq, Structural)]
pub enum HandOrigin {
    Talon,
    Foundation(usize),
    Tableau(usize),
}

/// A sound to be played by whoever drives the game.
#[derive(Debug, Clone, Copy, PartialEq, Eq, Structural)]
pub enum Cue {
    /// Cards were lifted into the hand.
    Pickup,
    /// Cards were laid down, dealt from the stock, or the stock was refilled.
    Place,
}

/// What the player did, as far as the game reads it.
#[derive(Debug, Clone, Copy, PartialEq, Eq, Structural)]
pub enum InputEvent {
    /// The primary button went down.
    LeftPressed,
    /// The space bar went down.
    SpacePressed,
    /// The pointer moved to the given device pixel.
    CursorMoved { x: i32, y: i32 },
    /// Anything else.
    Other,
}

/// What an idle click lifts.
pub enum Pick {
    Nothing,
    Talon,
    Tableau { column: int, index: int },
    Foundation { pile: int },
}

/// Where a click lays the hand down.
pub enum Target {
    Nowhere,
    Tableau { column: int },
    Foundation { pile: int },
}

/// A game, as mathematics.
pub struct GameView {
    pub stock: StackView,
    pub talon: StackView,
    pub tableaux: Seq<TableauView>,
    pub foundations: Seq<StackView>,
    pub hand: StackView,
    pub hand_origin: HandOrigin,
    pub mouse_pos: Vec2,
    pub tick: u128,
    pub cues: Seq<Cue>,
}

/// All the cards of some columns.
pub open spec fn columns_cards(columns: Seq<TableauView>) -> Multiset<Card>
    decreases columns.len(),
{
    if columns.len() == 0 {
        Multiset::empty()
    } else {
        columns_cards(columns.drop_last()).add(columns.last().cards.to_multiset())
    }
}

/// All the cards of some stacks.
pub open spec fn stacks_cards(stacks: Seq<StackView>) -> Multiset<Card>
    decreases stacks.len(),
{
    if stacks.len() == 0 {
        Multiset::empty()
    } else {
        stacks_cards(stacks.drop_last()).add(stacks.last().cards.to_multiset())
    }
}

/// The pointer's place on the virtual screen when it is at device pixel
/// `(x, y)`: the centre of the window becomes the origin, y points up, and
/// a device pixel is two units wide.
pub open spec fn pointer_at(x: i32, y: i32) -> Vec2 {
    Vec2 { x: ((x - SCREEN_WIDTH / 2) * 2) as i64, y: (-(y - SCREEN_HEIGHT / 2) * 2) as i64 }
}

/// The frame clock after `elapsed` nanoseconds were added to it. The clock
/// counts sixtieths of a nanosecond and stops at the top of its range.
pub open spec fn clock_sum(tick: u128, elapsed: u64) -> u128 {
    if tick + elapsed * TICKS_PER_SECOND > u128::MAX {
        u128::MAX
    } else {
        (tick + elapsed * TICKS_PER_SECOND) as u128
    }
}

/// Number of cards dealt to the seven columns together.
pub const DEALT_CARDS: usize = 28;

/// Number of cards dealt to the columns before column `i`.
pub open spec fn dealt_before(i: int) -> int
    decreases i,
{
    if i <= 0 {
        0
    } else {
        dealt_before(i - 1) + i
    }
}

/// Column `i` as it is dealt from `deck`: the next `i + 1` cards, the last
/// of them face up.
pub open spec fn dealt_column(deck: Seq<Card>, i: int) -> TableauView {
    TableauView {
        cards: deck.subrange(dealt_before(i), dealt_before(i + 1)),
        card_quads: fan(slot_x(FIRST_COLUMN_X, i) as i64, (i + 1) as nat),
        shown_cards: 1,
        x_position: slot_x(FIRST_COLUMN_X, i) as i64,
    }
}

/// Foundation `i` at the start of a game.
pub open spec fn empty_foundation(i: int) -> StackView {
    StackView {
        cards: Seq::empty(),
        quad: spec_card_quad(slot_x(FIRST_FOUNDATION_X, i), TOP_ROW_Y as int),
    }
}

/// The game at its start, dealt from `deck`: the columns take the first 28
/// cards, the stock keeps the rest.
pub open spec fn initial_game(deck: Seq<Card>) -> GameView {
    GameView {
        stock: StackView { cards: deck.skip(DEALT_CARDS as int), quad: spec_deck_quad() },
        talon: StackView {
            cards: Seq::empty(),
            quad: spec_card_quad(TALON_X as int, TOP_ROW_Y as int),
        },
        tableaux: Seq::new(COLUMNS as nat, |i: int| dealt_column(deck, i)),
        foundations: Seq::new(FOUNDATIONS as nat, |i: int| empty_foundation(i)),
        hand: StackView { cards: Seq::empty(), quad: spec_card_quad(0, 0) },
        hand_origin: HandOrigin::Talon,
        mouse_pos: Vec2 { x: 0, y: 0 },
        tick: 0,
        cues: Seq::empty(),
    }
}

impl TableauView {
    /// Card `i` lies face up under the point `p`.
    pub open spec fn card_hit(self, p: Vec2, i: int) -> bool {
        &&& 0 <= i < self.cards.len()
        &&& i < self.card_quads.len()
        &&& self.first_shown() <= i
        &&& self.card_quads[i].spec_contains(p)
    }

    /// The last face-up card before index `below` that lies under `p`. It is
    /// the one drawn over the others.
    pub open spec fn top_hit(self, p: Vec2, below: int) -> Option<int>
        decreases below,
    {
        if below <= 0 {
            None
        } else if self.card_hit(p, below - 1) {
            Some(below - 1)
        } else {
            self.top_hit(p, below - 1)
        }
    }

    /// The column's last quad lies under `p` and the column takes the hand:
    /// it is empty, or its last card accepts the first card of the hand.
    pub open spec fn takes(self, hand: Seq<Card>, p: Vec2) -> bool {
        &&& self.card_quads.len() > 0
        &&& self.card_quads.last().spec_contains(p)
        &&& (self.cards.len() == 0 || tableau_accepts(self.cards.last(), hand[0]))
    }
}

impl StackView {
    /// The pile lies under `p` and has a card to give.
    pub open spec fn gives(self, p: Vec2) -> bool {
        self.cards.len() > 0 && self.quad.spec_contains(p)
    }

    /// The pile lies under `p`, the hand is a single card, and the
    /// foundation rule accepts it.
    pub open spec fn takes(self, hand: Seq<Card>, p: Vec2) -> bool {
        &&& self.quad.spec_contains(p)
        &&& hand.len() == 1
        &&& foundation_accepts(self.cards, hand[0])
    }
}

/// The first column from `from` on with a face-up card under `p`, and that
/// card.
pub open spec fn first_column_hit(columns: Seq<TableauView>, p: Vec2, from: int) -> Option<
    (int, int),
>
    decreases columns.len() - from,
{
    if from < 0 || from >= columns.len() {
        None
    } else {
        match columns[from].top_hit(p, columns[from].card_quads.len() as int) {
            Some(i) => Some((from, i)),
            None => first_column_hit(columns, p, from + 1),
        }
    }
}

/// The first pile from `from` on that gives a card under `p`.
pub open spec fn first_pile_giving(piles: Seq<StackView>, p: Vec2, from: int) -> Option<int>
    decreases piles.len() - from,
{
    if from < 0 || from >= piles.len() {
        None
    } else if piles[from].gives(p) {
        Some(from)
    } else {
        first_pile_giving(piles, p, from + 1)
    }
}

/// The first column from `from` on that takes the hand under `p`.
pub open spec fn first_column_taking(
    columns: Seq<TableauView>,
    hand: Seq<Card>,
    p: Vec2,
    from: int,
) -> Option<int>
    decreases columns.len() - from,
{
    if from < 0 || from >= columns.len() {
        None
    } else if columns[from].takes(hand, p) {
        Some(from)
    } else {
        first_column_taking(columns, hand, p, from + 1)
    }
}

/// The first pile from `from` on that takes the hand under `p`.
pub open spec fn first_pile_taking(
    piles: Seq<StackView>,
    hand: Seq<Card>,
    p: Vec2,
    from: int,
) -> Option<int>
    decreases piles.len() - from,
{
    if from < 0 || from >= piles.len() {
        None
    } else if piles[from].takes(hand, p) {
        Some(from)
    } else {
        first_pile_taking(piles, hand, p, from + 1)
    }
}

impl GameView {
    /// Every card on the table, whatever zone holds it.
    pub open spec fn cards(self) -> Multiset<Card> {
        self.stock.cards.to_multiset().add(self.talon.cards.to_multiset()).add(
            columns_cards(self.tableaux),
        ).add(stacks_cards(self.foundations)).add(self.hand.cards.to_multiset())
    }

    /// The hand's origin names a zone that exists, and a hand that did not
    /// come from a column holds at most one card.
    pub open spec fn origin_fits(self) -> bool {
        match self.hand_origin {
            HandOrigin::Talon => self.hand.cards.len() <= 1,
            HandOrigin::Foundation(f) => f < FOUNDATIONS && self.hand.cards.len() <= 1,
            HandOrigin::Tableau(t) => t < COLUMNS,
        }
    }

    /// The shape of a game: seven laid-out columns, four piles, and the
    /// cards of one full deck, each in exactly one zone.
    pub open spec fn wf(self) -> bool {
        &&& self.tableaux.len() == COLUMNS
        &&& self.foundations.len() == FOUNDATIONS
        &&& forall|t: int| 0 <= t < COLUMNS ==> (#[trigger] self.tableaux[t]).wf()
        &&& self.cards() == full_deck().to_multiset()
        &&& self.origin_fits()
    }

    /// Every column that has cards shows at least one, but for the column
    /// that the cards in the hand came from.
    pub open spec fn all_revealed(self) -> bool {
        forall|t: int|
            0 <= t < self.tableaux.len() && (#[trigger] self.tableaux[t]).cards.len() > 0 && !(
            self.hand.cards.len() > 0 && self.hand_origin == HandOrigin::Tableau(t as usize))
                ==> self.tableaux[t].shown_cards >= 1
    }

    /// Nothing is in the hand.
    pub open spec fn idle(self) -> bool {
        self.hand.cards.len() == 0
    }

    /// The pointer is on the stock.
    pub open spec fn stock_hit(self) -> bool {
        self.stock.quad.spec_contains(self.mouse_pos)
    }

    /// The stock's last card goes to the front of the talon.
    pub open spec fn dealt(self) -> GameView {
        GameView {
            stock: self.stock.with_cards(self.stock.cards.drop_last()),
            talon: self.talon.push_front(self.stock.cards.last()),
            ..self
        }
    }

    /// The talon's cards become the stock, in their order, and the talon is
    /// left empty.
    pub open spec fn recycled(self) -> GameView {
        GameView {
            stock: self.stock.with_cards(self.talon.cards),
            talon: self.talon.with_cards(Seq::empty()),
            ..self
        }
    }

    /// With `cue` added to the sounds that wait to be played.
    pub open spec fn with_cue(self, cue: Cue) -> GameView {
        GameView { cues: self.cues.push(cue), ..self }
    }

    /// A click on the stock: a card is dealt, or an empty stock is refilled
    /// from the talon.
    pub open spec fn stock_clicked(self) -> GameView {
        if self.stock.cards.len() > 0 {
            self.dealt().with_cue(Cue::Place)
        } else {
            self.recycled().with_cue(Cue::Place)
        }
    }

    /// What an idle click lifts: the talon's front card, else the topmost
    /// face-up card under the pointer in the first column that has one
    /// (with the cards that lie on it), else the front card of the first
    /// foundation under the pointer.
    pub open spec fn pick(self) -> Pick {
        if self.talon.gives(self.mouse_pos) {
            Pick::Talon
        } else {
            match first_column_hit(self.tableaux, self.mouse_pos, 0) {
                Some((column, index)) => Pick::Tableau { column, index },
                None => match first_pile_giving(self.foundations, self.mouse_pos, 0) {
                    Some(pile) => Pick::Foundation { pile },
                    None => Pick::Nothing,
                },
            }
        }
    }

    /// The game after the cards named by `pick` were lifted into the hand.
    pub open spec fn lifted(self) -> GameView {
        match self.pick() {
            Pick::Nothing => self,
            Pick::Talon => GameView {
                talon: self.talon.remove_front(),
                hand: self.hand.with_cards(self.hand.cards.push(self.talon.cards[0])),
                hand_origin: HandOrigin::Talon,
                ..self
            }.with_cue(Cue::Pickup),
            Pick::Tableau { column, index } => GameView {
                tableaux: self.tableaux.update(column, self.tableaux[column].drain_from(index)),
                hand: self.hand.with_cards(self.tableaux[column].cards.skip(index)),
                hand_origin: HandOrigin::Tableau(column as usize),
                ..self
            }.with_cue(Cue::Pickup),
            Pick::Foundation { pile } => GameView {
                foundations: self.foundations.update(pile, self.foundations[pile].remove_front()),
                hand: self.hand.with_cards(self.hand.cards.push(self.foundations[pile].cards[0])),
                hand_origin: HandOrigin::Foundation(pile as usize),
                ..self
            }.with_cue(Cue::Pickup),
        }
    }

    /// Where a click lays the hand down: the first column that takes it,
    /// else the first foundation that takes it.
    pub open spec fn target(self) -> Target {
        match first_column_taking(self.tableaux, self.hand.cards, self.mouse_pos, 0) {
            Some(column) => Target::Tableau { column },
            None => match first_pile_taking(self.foundations, self.hand.cards, self.mouse_pos, 0) {
                Some(pile) => Target::Foundation { pile },
                None => Target::Nowhere,
            },
        }
    }

    /// The column that the hand came from turns its last card up if it
    /// shows none.
    pub open spec fn origin_revealed(self) -> GameView {
        match self.hand_origin {
            HandOrigin::Tableau(t) => if t < self.tableaux.len() {
                GameView {
                    tableaux: self.tableaux.update(t as int, self.tableaux[t as int].reveal_top()),
                    ..self
                }
            } else {
                self
            },
            _ => self,
        }
    }

    /// The game after the hand was laid down where `target` says.
    pub open spec fn dropped(self) -> GameView {
        match self.target() {
            Target::Nowhere => self,
            Target::Tableau { column } => GameView {
                tableaux: self.tableaux.update(
                    column,
                    self.tableaux[column].append(self.hand.cards),
                ),
                hand: self.hand.with_cards(Seq::empty()),
                ..self
            }.origin_revealed().with_cue(Cue::Place),
            Target::Foundation { pile } => GameView {
                foundations: self.foundations.update(
                    pile,
                    self.foundations[pile].push_front(self.hand.cards[0]),
                ),
                hand: self.hand.remove_front(),
                ..self
            }.origin_revealed().with_cue(Cue::Place),
        }
    }

    /// The game after a click of the primary button. With an empty hand the
    /// first zone under the pointer wins: the stock is served, or else
    /// cards are lifted. With cards in the hand they are laid down.
    pub open spec fn clicked(self) -> GameView {
        if !self.idle() {
            self.dropped()
        } else if self.stock_hit() {
            self.stock_clicked()
        } else {
            self.lifted()
        }
    }

    /// The game after the hand went back to where it came from.
    pub open spec fn returned(self) -> GameView {
        if self.idle() {
            self
        } else {
            match self.hand_origin {
                HandOrigin::Talon => GameView {
                    talon: self.talon.push_front(self.hand.cards[0]),
                    hand: self.hand.remove_front(),
                    ..self
                },
                HandOrigin::Foundation(f) => GameView {
                    foundations: self.foundations.update(
                        f as int,
                        self.foundations[f as int].push_front(self.hand.cards[0]),
                    ),
                    hand: self.hand.remove_front(),
                    ..self
                },
                HandOrigin::Tableau(t) => GameView {
                    tableaux: self.tableaux.update(
                        t as int,
                        self.tableaux[t as int].append(self.hand.cards),
                    ),
                    hand: self.hand.with_cards(Seq::empty()),
                    ..self
                },
            }.with_cue(Cue::Place)
        }
    }

    /// The game after the pointer moved to device pixel `(x, y)`.
    pub open spec fn pointed(self, x: i32, y: i32) -> GameView {
        GameView { mouse_pos: pointer_at(x, y), ..self }
    }

    /// The game after `elapsed` nanoseconds: once more than a step of the
    /// frame clock has gathered, the hand is drawn at the pointer and one
    /// step is taken off the clock.
    pub open spec fn ticked(self, elapsed: u64) -> GameView {
        let sum = clock_sum(self.tick, elapsed);
        if sum > TICK_TIME {
            GameView {
                hand: StackView {
                    quad: Quad { pos: self.mouse_pos, ..self.hand.quad },
                    ..self.hand
                },
                tick: (sum - TICK_TIME) as u128,
                ..self
            }
        } else {
            GameView { tick: sum, ..self }
        }
    }

    /// The game after an input event.
    pub open spec fn after_input(self, event: InputEvent) -> GameView {
        match event {
            InputEvent::LeftPressed => self.clicked(),
            InputEvent::SpacePressed => self.returned(),
            InputEvent::CursorMoved { x, y } => self.pointed(x, y),
            InputEvent::Other => self,
        }
    }

    /// The game without the sounds that waited to be played.
    pub open spec fn silenced(self) -> GameView {
        GameView { cues: Seq::empty(), ..self }
    }
}

} // verus!
