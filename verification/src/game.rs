//! The game: the zones of one table, the pointer, and the rules that move
//! cards between the zones when the player clicks.

use vstd::prelude::*;
use crate::card::{foundation_accepts, full_deck, tableau_accepts, Card};
use crate::counting::{lemma_full_deck_len, lemma_zone_sizes};
use crate::geometry::{
    card_size, deck_quad, Vec2, CARD_GAP, CARD_WIDTH, FIRST_COLUMN_X, FIRST_FOUNDATION_X,
    SCREEN_HEIGHT, SCREEN_WIDTH, TALON_X, TOP_ROW_Y,
};
use crate::laws::{
    lemma_clicked_keeps_deck, lemma_dropped_keeps_deck, lemma_initial_game,
    lemma_input_keeps_deck, lemma_lifted_keeps_deck,
    lemma_passive_steps_keep_deck, lemma_returned_keeps_deck, lemma_stock_clicked_keeps_deck,
    lemma_top_hit,
};
use crate::model::{
    dealt_before, dealt_column, empty_foundation, first_column_hit, first_column_taking,
    first_pile_giving, first_pile_taking, initial_game, Cue, GameView, HandOrigin, InputEvent,
    COLUMNS, DEALT_CARDS, FOUNDATIONS, TICKS_PER_SECOND, TICK_TIME,
};
use crate::zone::{Stack, Tableau};

verus! {

/// One game of Klondike.
#[derive(Debug)]
pub struct GameState {
    pub stock: Stack,
    pub talon: Stack,
    pub tableaux: [Tableau; 7],
    pub foundations: [Stack; 4],
    pub hand: Stack,
    /// Where the cards in the hand came from.
    pub hand_origin: HandOrigin,
    /// The pointer, on the virtual screen.
    pub mouse_pos: Vec2,
    /// The frame clock, in sixtieths of a nanosecond.
    pub tick: u128,
    /// Sounds that wait to be played.
    pub cues: Vec<Cue>,
}

impl View for GameState {
    type V = GameView;

    open spec fn view(&self) -> GameView {
        GameView {
            stock: self.stock@,
            talon: self.talon@,
            tableaux: Seq::new(COLUMNS as nat, |i: int| self.tableaux[i]@),
            foundations: Seq::new(FOUNDATIONS as nat, |i: int| self.foundations[i]@),
            hand: self.hand@,
            hand_origin: self.hand_origin,
            mouse_pos: self.mouse_pos,
            tick: self.tick,
            cues: self.cues@,
        }
    }
}

impl GameState {
    /// The game is well formed: see [`GameView::wf`].
    pub open spec fn wf(&self) -> bool {
        self@.wf()
    }

    /// The column rule: `hand` goes on `tableau` if it is of the other
    /// colour and one rank lower.
    pub fn can_place_on_tableau(tableau: &Card, hand: &Card) -> (fits: bool)
        ensures
            fits == tableau_accepts(*tableau, *hand),
    {
        tableau.color != hand.color && tableau.rank as u16 == hand.rank as u16 + 1
    }

    /// The foundation rule: an empty pile takes an ace, any other pile the
    /// next rank of the suit of its front card.
    pub fn can_place_on_foundation(foundation: &Stack, hand: &Card) -> (fits: bool)
        ensures
            fits == foundation_accepts(foundation@.cards, *hand),
    {
        let foundation_size = foundation.cards.len();
        if foundation_size == 0 {
            return hand.rank == 0;
        }
        let foundation_card = &foundation.cards[0];
        foundation_card.suit == hand.suit && foundation_card.rank as u16 + 1 == hand.rank as u16
    }

    /// The four foundations, empty, side by side in the upper row.
    pub fn create_foundations() -> (foundations: [Stack; 4])
        ensures
            forall|i: int|
                0 <= i < FOUNDATIONS ==> (#[trigger] foundations[i])@ == empty_foundation(i),
    {
        let mut foundations = [Stack::empty(), Stack::empty(), Stack::empty(), Stack::empty()];
        for i in 0..4usize
            invariant
                forall|k: int| 0 <= k < i ==> (#[trigger] foundations[k])@ == empty_foundation(k),
                forall|k: int|
                    i <= k < 4 ==> (#[trigger] foundations[k])@.cards == Seq::<Card>::empty()
                        && foundations[k]@.quad.size == card_size(),
        {
            foundations[i].quad.pos = Vec2::new(
                FIRST_FOUNDATION_X + (CARD_WIDTH + CARD_GAP) * (i as i64),
                TOP_ROW_Y,
            );
        }
        foundations
    }

    /// Deals the columns from the front of `deck`: column `i` takes the
    /// next `i + 1` cards and shows the last of them.
    pub fn fill_tableaux(deck: &mut Stack) -> (tableaux: [Tableau; 7])
        requires
            old(deck)@.cards.len() >= DEALT_CARDS,
        ensures
            forall|i: int|
                0 <= i < COLUMNS ==> (#[trigger] tableaux[i])@ == dealt_column(old(deck)@.cards, i),
            forall|i: int| 0 <= i < COLUMNS ==> (#[trigger] tableaux[i])@.cards.len() == i + 1,
            final(deck)@ == old(deck)@.with_cards(old(deck)@.cards.skip(DEALT_CARDS as int)),
    {
        let mut tableau = Tableau::empty_tableaux();
        let ghost all = deck@.cards;
        let mut dealt: usize = 0;
        proof {
            reveal_with_fuel(dealt_before, 9);
            assert(all.skip(0) =~= all);
        }
        for i in 0..7usize
            invariant
                all == old(deck)@.cards,
                all.len() >= dealt_before(7),
                dealt == dealt_before(i as int),
                dealt_before(i as int) <= dealt_before(7),
                deck@ == old(deck)@.with_cards(all.skip(dealt as int)),
                forall|k: int| 0 <= k < i ==> (#[trigger] tableau[k])@ == dealt_column(all, k),
        {
            proof {
                reveal_with_fuel(dealt_before, 9);
            }
            let x_position = FIRST_COLUMN_X + (CARD_WIDTH + CARD_GAP) * (i as i64);
            let mut cards = deck.cards.split_off(i + 1);
            core::mem::swap(&mut cards, &mut deck.cards);
            assert(cards@ =~= all.subrange(dealt as int, dealt + i + 1));
            assert(deck.cards@ =~= all.skip(dealt + i + 1));
            let mut stack = Tableau { x_position, card_quads: Vec::new(), cards, shown_cards: 1 };
            stack.calculate_card_quads();
            tableau[i] = stack;
            dealt = dealt + i + 1;
        }
        tableau
    }

    /// A game dealt from `cards`, a full deck in any order: the columns
    /// take the first 28 cards, the stock keeps the rest.
    pub fn deal(cards: Vec<Card>) -> (game: Self)
        requires
            cards@.to_multiset() == full_deck().to_multiset(),
        ensures
            game@ == initial_game(cards@),
            game.wf(),
            game@.all_revealed(),
    {
        proof {
            broadcast use vstd::seq_lib::group_to_multiset_ensures;

            lemma_initial_game(cards@);
            lemma_full_deck_len();
            reveal_with_fuel(dealt_before, 9);
            assert(cards@.len() == cards@.to_multiset().len());
        }
        let mut stock = Stack { cards, quad: deck_quad() };
        let tableaux = GameState::fill_tableaux(&mut stock);
        let mut talon = Stack::empty();
        talon.quad.pos = Vec2::new(TALON_X, TOP_ROW_Y);
        let game = GameState {
            stock,
            talon,
            tableaux,
            hand: Stack::empty(),
            foundations: GameState::create_foundations(),
            mouse_pos: Vec2::zero(),
            hand_origin: HandOrigin::Talon,
            tick: 0,
            cues: Vec::new(),
        };
        assert(game@.tableaux =~= initial_game(cards@).tableaux);
        assert(game@.foundations =~= initial_game(cards@).foundations);
        game
    }

    /// A new game, dealt from a deck in random order. Whatever the order,
    /// the game is well formed: column `i` holds `i + 1` cards and shows
    /// the last, the stock holds the other 24, and nothing is in the talon,
    /// the foundations or the hand.
    pub fn new() -> (game: Self)
        ensures
            game.wf(),
            game@.all_revealed(),
            game@.idle(),
            exists|deck: Seq<Card>|
                deck.to_multiset() == full_deck().to_multiset() && game@ == initial_game(deck),
            forall|i: int|
                0 <= i < COLUMNS ==> (#[trigger] game@.tableaux[i]).cards.len() == i + 1
                    && game@.tableaux[i].shown_cards == 1,
            game@.stock.cards.len() == 24,
            game@.talon.cards.len() == 0,
            forall|i: int|
                0 <= i < FOUNDATIONS ==> (#[trigger] game@.foundations[i]).cards.len() == 0,
    {
        let stock = Stack::random_deck();
        proof {
            lemma_initial_game(stock@.cards);
        }
        GameState::deal(stock.cards)
    }

    /// A click on the stock: its last card goes to the front of the talon,
    /// or, where the stock is empty, the talon's cards become the stock in
    /// their order.
    pub fn click_stock(&mut self)
        requires
            old(self).wf(),
        ensures
            final(self)@ == old(self)@.stock_clicked(),
            final(self).wf(),
    {
        proof {
            lemma_stock_clicked_keeps_deck(self@);
        }
        if self.stock.cards.len() > 0 {
            let card = self.stock.cards.pop().unwrap();
            self.talon.cards.insert(0, card);
            assert(self.stock@.cards =~= old(self)@.stock.cards.drop_last());
        } else {
            self.stock.cards.append(&mut self.talon.cards);
            assert(self.stock@.cards =~= old(self)@.talon.cards);
        }
        self.cues.push(Cue::Place);
        assert(self@.tableaux =~= old(self)@.tableaux);
        assert(self@.foundations =~= old(self)@.foundations);
    }

    /// Lifts into the empty hand what lies under the pointer: the talon's
    /// front card, else a face-up card of a column with the cards on it,
    /// else the front card of a foundation. The first zone that has
    /// something to give wins.
    pub fn pick_up(&mut self)
        requires
            old(self).wf(),
            old(self)@.idle(),
        ensures
            final(self)@ == old(self)@.lifted(),
            final(self).wf(),
    {
        let p = self.mouse_pos;
        proof {
            lemma_lifted_keeps_deck(self@);
            lemma_zone_sizes(self@);
        }
        if self.talon.quad.contains(p) {
            if self.talon.cards.len() > 0 {
                let card = self.talon.cards.remove(0);
                self.hand.cards.push(card);
                self.hand_origin = HandOrigin::Talon;
                self.cues.push(Cue::Pickup);
                assert(self@.tableaux =~= old(self)@.tableaux);
                assert(self@.foundations =~= old(self)@.foundations);
                return;
            }
        }
        let mut t: usize = 0;
        while t < 7
            invariant
                t <= 7,
                *self == *old(self),
                p == self.mouse_pos,
                self.wf(),
                self@.idle(),
                !self@.talon.gives(p),
                first_column_hit(self@.tableaux, p, 0) == first_column_hit(
                    self@.tableaux,
                    p,
                    t as int,
                ),
            decreases 7 - t,
        {
            let hit = self.tableaux[t].find_hit(p);
            match hit {
                Some(i) => {
                    proof {
                        let column = self@.tableaux[t as int];
                        lemma_top_hit(column, p, column.card_quads.len() as int);
                        lemma_zone_sizes(self@);
                        assert(column.wf());
                    }
                    let taken = self.tableaux[t].drain_from(i);
                    self.hand.cards = taken;
                    self.hand_origin = HandOrigin::Tableau(t);
                    self.cues.push(Cue::Pickup);
                    assert(self@.tableaux =~= old(self)@.tableaux.update(
                        t as int,
                        old(self)@.tableaux[t as int].drain_from(i as int),
                    ));
                    assert(self@.foundations =~= old(self)@.foundations);
                    proof {
                        lemma_lifted_keeps_deck(old(self)@);
                    }
                    return;
                },
                None => {},
            }
            t += 1;
        }
        let mut f: usize = 0;
        while f < 4
            invariant
                f <= 4,
                *self == *old(self),
                p == self.mouse_pos,
                self.wf(),
                self@.idle(),
                !self@.talon.gives(p),
                first_column_hit(self@.tableaux, p, 0) is None,
                first_pile_giving(self@.foundations, p, 0) == first_pile_giving(
                    self@.foundations,
                    p,
                    f as int,
                ),
            decreases 4 - f,
        {
            if self.foundations[f].cards.len() > 0 {
                if self.foundations[f].quad.contains(p) {
                    let card = self.foundations[f].cards.remove(0);
                    self.hand.cards.push(card);
                    self.hand_origin = HandOrigin::Foundation(f);
                    self.cues.push(Cue::Pickup);
                    assert(self@.tableaux =~= old(self)@.tableaux);
                    assert(self@.foundations =~= old(self)@.foundations.update(
                        f as int,
                        old(self)@.foundations[f as int].remove_front(),
                    ));
                    proof {
                        lemma_lifted_keeps_deck(old(self)@);
                    }
                    return;
                }
            }
            f += 1;
        }
    }

    /// Lays the hand down under the pointer: on the first column whose last
    /// quad is hit and that takes the hand, else on the first foundation
    /// that is hit and takes it. The column that the hand came from then
    /// turns its last card up if it shows none. Where nothing takes the
    /// hand, nothing changes.
    pub fn put_down(&mut self)
        requires
            old(self).wf(),
            !old(self)@.idle(),
        ensures
            final(self)@ == old(self)@.dropped(),
            final(self).wf(),
    {
        let p = self.mouse_pos;
        proof {
            lemma_dropped_keeps_deck(self@);
            lemma_zone_sizes(self@);
        }
        let mut t: usize = 0;
        while t < 7
            invariant
                t <= 7,
                *self == *old(self),
                p == self.mouse_pos,
                self.wf(),
                !self@.idle(),
                first_column_taking(self@.tableaux, self@.hand.cards, p, 0) == first_column_taking(
                    self@.tableaux,
                    self@.hand.cards,
                    p,
                    t as int,
                ),
            decreases 7 - t,
        {
            let quads = self.tableaux[t].card_quads.len();
            if quads > 0 && self.tableaux[t].card_quads[quads - 1].contains(p) {
                let len = self.tableaux[t].cards.len();
                if len == 0 || GameState::can_place_on_tableau(
                    &self.tableaux[t].cards[len - 1],
                    &self.hand.cards[0],
                ) {
                    proof {
                        lemma_zone_sizes(self@);
                        assert(self@.tableaux[t as int].wf());
                    }
                    self.tableaux[t].append(&mut self.hand.cards);
                    let ghost laid = self@;
                    assert(laid.tableaux =~= old(self)@.tableaux.update(
                        t as int,
                        old(self)@.tableaux[t as int].append(old(self)@.hand.cards),
                    ));
                    assert(laid.foundations =~= old(self)@.foundations);
                    self.reveal_origin();
                    self.cues.push(Cue::Place);
                    assert(self@.tableaux =~= laid.origin_revealed().tableaux);
                    assert(self@.foundations =~= old(self)@.foundations);
                    proof {
                        lemma_dropped_keeps_deck(old(self)@);
                    }
                    return;
                }
            }
            t += 1;
        }
        let mut f: usize = 0;
        while f < 4
            invariant
                f <= 4,
                *self == *old(self),
                p == self.mouse_pos,
                self.wf(),
                !self@.idle(),
                first_column_taking(self@.tableaux, self@.hand.cards, p, 0) is None,
                first_pile_taking(self@.foundations, self@.hand.cards, p, 0) == first_pile_taking(
                    self@.foundations,
                    self@.hand.cards,
                    p,
                    f as int,
                ),
            decreases 4 - f,
        {
            if self.foundations[f].quad.contains(p) {
                if self.hand.cards.len() == 1 {
                    if GameState::can_place_on_foundation(
                        &self.foundations[f],
                        &self.hand.cards[0],
                    ) {
                        let card = self.hand.cards.remove(0);
                        self.foundations[f].cards.insert(0, card);
                        let ghost laid = self@;
                        assert(laid.tableaux =~= old(self)@.tableaux);
                        assert(laid.foundations =~= old(self)@.foundations.update(
                            f as int,
                            old(self)@.foundations[f as int].push_front(old(self)@.hand.cards[0]),
                        ));
                        self.reveal_origin();
                        self.cues.push(Cue::Place);
                        assert(self@.tableaux =~= laid.origin_revealed().tableaux);
                        assert(self@.foundations =~= laid.foundations);
                        proof {
                        lemma_dropped_keeps_deck(old(self)@);
                    }
                    return;
                    }
                }
            }
            f += 1;
        }
    }

    /// Where the hand came from a column, that column turns its last card
    /// up if it has cards and shows none.
    pub fn reveal_origin(&mut self)
        requires
            old(self)@.origin_fits(),
        ensures
            final(self)@ == old(self)@.origin_revealed(),
            old(self).wf() ==> final(self).wf(),
    {
        proof {
            lemma_passive_steps_keep_deck(self@, 0, 0, 0);
        }
        match self.hand_origin {
            HandOrigin::Tableau(origin) => {
                self.tableaux[origin].reveal_top();
                assert(self@.tableaux =~= old(self)@.tableaux.update(
                    origin as int,
                    old(self)@.tableaux[origin as int].reveal_top(),
                ));
                assert(self@.foundations =~= old(self)@.foundations);
            },
            _ => {},
        }
    }

    /// A click of the primary button. With an empty hand the zones are
    /// tried in the order stock, talon, columns, foundations, and the first
    /// under the pointer that has something to do wins. With cards in the
    /// hand, they are laid down where the rules allow.
    pub fn mouse_click(&mut self)
        requires
            old(self).wf(),
        ensures
            final(self)@ == old(self)@.clicked(),
            final(self).wf(),
            old(self)@.all_revealed() ==> final(self)@.all_revealed(),
    {
        proof {
            lemma_clicked_keeps_deck(self@);
        }
        if self.hand.cards.len() == 0 {
            if self.stock.quad.contains(self.mouse_pos) {
                self.click_stock();
            } else {
                self.pick_up();
            }
        } else {
            self.put_down();
        }
    }

    /// Sends the cards in the hand back to the zone they came from, and
    /// leaves the hand empty. With an empty hand nothing happens.
    pub fn return_card(&mut self)
        requires
            old(self).wf(),
        ensures
            final(self)@ == old(self)@.returned(),
            final(self).wf(),
            final(self)@.idle(),
            old(self)@.all_revealed() ==> final(self)@.all_revealed(),
    {
        proof {
            lemma_returned_keeps_deck(self@);
            lemma_zone_sizes(self@);
        }
        if self.hand.cards.len() != 0 {
            match self.hand_origin {
                HandOrigin::Talon => {
                    let card = self.hand.cards.remove(0);
                    self.talon.cards.insert(0, card);
                    assert(self@.tableaux =~= old(self)@.tableaux);
                    assert(self@.foundations =~= old(self)@.foundations);
                },
                HandOrigin::Foundation(f) => {
                    let card = self.hand.cards.remove(0);
                    self.foundations[f].cards.insert(0, card);
                    assert(self@.tableaux =~= old(self)@.tableaux);
                    assert(self@.foundations =~= old(self)@.foundations.update(
                        f as int,
                        old(self)@.foundations[f as int].push_front(old(self)@.hand.cards[0]),
                    ));
                },
                HandOrigin::Tableau(t) => {
                    assert(self@.tableaux[t as int].wf());
                    self.tableaux[t].append(&mut self.hand.cards);
                    assert(self@.tableaux =~= old(self)@.tableaux.update(
                        t as int,
                        old(self)@.tableaux[t as int].append(old(self)@.hand.cards),
                    ));
                    assert(self@.foundations =~= old(self)@.foundations);
                },
            }
            self.cues.push(Cue::Place);
        }
    }

    /// The pointer moved to device pixel `(x, y)`.
    pub fn cursor_moved(&mut self, x: i32, y: i32)
        ensures
            final(self)@ == old(self)@.pointed(x, y),
            old(self).wf() ==> final(self).wf(),
    {
        proof {
            lemma_passive_steps_keep_deck(self@, x, y, 0);
        }
        let vx: i64 = (x as i64 - (SCREEN_WIDTH / 2) as i64) * 2;
        let vy: i64 = -(y as i64 - (SCREEN_HEIGHT / 2) as i64) * 2;
        self.mouse_pos = Vec2::new(vx, vy);
        assert(self@.tableaux =~= old(self)@.tableaux);
        assert(self@.foundations =~= old(self)@.foundations);
    }

    /// Lets `elapsed` nanoseconds pass. Once more than a sixtieth of a
    /// second has gathered on the frame clock, the hand is drawn at the
    /// pointer and one sixtieth of a second is taken off the clock. No card
    /// moves.
    pub fn update(&mut self, elapsed: u64)
        ensures
            final(self)@ == old(self)@.ticked(elapsed),
            old(self).wf() ==> final(self).wf(),
    {
        proof {
            lemma_passive_steps_keep_deck(self@, 0, 0, elapsed);
        }
        let gathered: u128 = (elapsed as u128) * TICKS_PER_SECOND;
        let sum = self.tick.saturating_add(gathered);
        if sum > TICK_TIME {
            self.hand.quad.pos = self.mouse_pos;
            self.tick = sum - TICK_TIME;
        } else {
            self.tick = sum;
        }
        assert(self@.tableaux =~= old(self)@.tableaux);
        assert(self@.foundations =~= old(self)@.foundations);
    }

    /// Handles one input event. Returns whether the game took the event:
    /// every event but `Other` is taken.
    pub fn input(&mut self, event: &InputEvent) -> (taken: bool)
        requires
            old(self).wf(),
        ensures
            final(self)@ == old(self)@.after_input(*event),
            final(self).wf(),
            old(self)@.all_revealed() ==> final(self)@.all_revealed(),
            taken == !(*event is Other),
    {
        proof {
            lemma_input_keeps_deck(self@, *event);
        }
        match event {
            InputEvent::LeftPressed => {
                self.mouse_click();
                true
            },
            InputEvent::SpacePressed => {
                self.return_card();
                true
            },
            InputEvent::CursorMoved { x, y } => {
                self.cursor_moved(*x, *y);
                true
            },
            InputEvent::Other => false,
        }
    }

    /// Hands out the sounds that wait to be played, oldest first, and
    /// leaves none waiting.
    pub fn take_cues(&mut self) -> (cues: Vec<Cue>)
        ensures
            cues@ == old(self)@.cues,
            final(self)@ == old(self)@.silenced(),
            old(self).wf() ==> final(self).wf(),
    {
        proof {
            lemma_passive_steps_keep_deck(self@, 0, 0, 0);
        }
        let mut cues: Vec<Cue> = Vec::new();
        core::mem::swap(&mut cues, &mut self.cues);
        assert(self@.tableaux =~= old(self)@.tableaux);
        assert(self@.foundations =~= old(self)@.foundations);
        cues
    }
}

impl Tableau {
    /// The face-up card under `p` that is drawn over the others, if there
    /// is one.
    pub fn find_hit(&self, p: Vec2) -> (hit: Option<usize>)
        ensures
            match hit {
                Some(i) => self@.top_hit(p, self@.card_quads.len() as int) == Some(i as int),
                None => self@.top_hit(p, self@.card_quads.len() as int) is None,
            },
    {
        let mut i = self.card_quads.len();
        while i > 0
            invariant
                i <= self.card_quads.len(),
                self@.top_hit(p, self@.card_quads.len() as int) == self@.top_hit(p, i as int),
            decreases i,
        {
            i -= 1;
            if i < self.cards.len() && self.cards.len() - i <= self.shown_cards as usize
                && self.card_quads[i].contains(p) {
                return Some(i);
            }
        }
        None
    }
}

} // verus!
