//! What holds of every game: the deck stays whole, a click finds the card
//! that is drawn on top, and the moves do what the rules of Klondike say.

use vstd::prelude::*;
use vstd::multiset::Multiset;
use crate::card::{
    foundation_accepts, full_deck, rank_of, suit_of, tableau_accepts, Card, DECK_SIZE, RANKS,
};
use crate::counting::{
    lemma_columns_update, lemma_full_deck_len, lemma_joined_cards, lemma_last_card,
    lemma_no_cards, lemma_split_cards, lemma_stacks_update, lemma_zone_sizes,
};
use crate::geometry::Vec2;
use crate::model::{
    clock_sum, columns_cards, dealt_before, dealt_column, first_column_hit, first_column_taking,
    first_pile_giving, first_pile_taking, initial_game, stacks_cards, GameView, HandOrigin,
    InputEvent, Pick, Target, COLUMNS, DEALT_CARDS, FOUNDATIONS, TICK_TIME,
};
use crate::zone::{StackView, TableauView};

verus! {

/// The card that a click on a column finds is a face-up card under the
/// pointer, and no card after it in the column is one: it is the card drawn
/// over the others. Where the click finds none, there is none.
pub proof fn lemma_top_hit(column: TableauView, p: Vec2, below: int)
    ensures
        match column.top_hit(p, below) {
            Some(i) => {
                &&& 0 <= i < below
                &&& column.card_hit(p, i)
                &&& forall|j: int| i < j < below ==> !column.card_hit(p, j)
            },
            None => forall|j: int| 0 <= j < below ==> !column.card_hit(p, j),
        },
    decreases below,
{
    if below > 0 && !column.card_hit(p, below - 1) {
        lemma_top_hit(column, p, below - 1);
    }
}

/// The column that a click finds is the first with a face-up card under the
/// pointer.
pub proof fn lemma_first_column_hit(columns: Seq<TableauView>, p: Vec2, from: int)
    requires
        0 <= from,
    ensures
        match first_column_hit(columns, p, from) {
            Some((column, index)) => {
                &&& from <= column < columns.len()
                &&& columns[column].top_hit(p, columns[column].card_quads.len() as int) == Some(
                    index,
                )
                &&& columns[column].card_hit(p, index)
                &&& forall|k: int|
                    from <= k < column ==> (#[trigger] columns[k]).top_hit(
                        p,
                        columns[k].card_quads.len() as int,
                    ) is None
            },
            None => forall|k: int|
                from <= k < columns.len() ==> (#[trigger] columns[k]).top_hit(
                    p,
                    columns[k].card_quads.len() as int,
                ) is None,
        },
    decreases columns.len() - from,
{
    if from < columns.len() {
        lemma_top_hit(columns[from], p, columns[from].card_quads.len() as int);
        if columns[from].top_hit(p, columns[from].card_quads.len() as int) is None {
            lemma_first_column_hit(columns, p, from + 1);
        }
    }
}

/// The pile that an idle click finds is the first under the pointer that
/// has a card.
pub proof fn lemma_first_pile_giving(piles: Seq<StackView>, p: Vec2, from: int)
    requires
        0 <= from,
    ensures
        match first_pile_giving(piles, p, from) {
            Some(pile) => {
                &&& from <= pile < piles.len()
                &&& piles[pile].gives(p)
                &&& forall|k: int| from <= k < pile ==> !(#[trigger] piles[k]).gives(p)
            },
            None => forall|k: int| from <= k < piles.len() ==> !(#[trigger] piles[k]).gives(p),
        },
    decreases piles.len() - from,
{
    if from < piles.len() && !piles[from].gives(p) {
        lemma_first_pile_giving(piles, p, from + 1);
    }
}

/// The column that takes the hand is the first that does.
pub proof fn lemma_first_column_taking(
    columns: Seq<TableauView>,
    hand: Seq<Card>,
    p: Vec2,
    from: int,
)
    requires
        0 <= from,
    ensures
        match first_column_taking(columns, hand, p, from) {
            Some(column) => {
                &&& from <= column < columns.len()
                &&& columns[column].takes(hand, p)
                &&& forall|k: int| from <= k < column ==> !(#[trigger] columns[k]).takes(hand, p)
            },
            None => forall|k: int|
                from <= k < columns.len() ==> !(#[trigger] columns[k]).takes(hand, p),
        },
    decreases columns.len() - from,
{
    if from < columns.len() && !columns[from].takes(hand, p) {
        lemma_first_column_taking(columns, hand, p, from + 1);
    }
}

/// The pile that takes the hand is the first that does.
pub proof fn lemma_first_pile_taking(piles: Seq<StackView>, hand: Seq<Card>, p: Vec2, from: int)
    requires
        0 <= from,
    ensures
        match first_pile_taking(piles, hand, p, from) {
            Some(pile) => {
                &&& from <= pile < piles.len()
                &&& piles[pile].takes(hand, p)
                &&& forall|k: int| from <= k < pile ==> !(#[trigger] piles[k]).takes(hand, p)
            },
            None => forall|k: int|
                from <= k < piles.len() ==> !(#[trigger] piles[k]).takes(hand, p),
        },
    decreases piles.len() - from,
{
    if from < piles.len() && !piles[from].takes(hand, p) {
        lemma_first_pile_taking(piles, hand, p, from + 1);
    }
}

/// Dealing from the stock or refilling it keeps the deck whole, leaves the
/// hand and the columns alone, and keeps the game well formed.
pub proof fn lemma_stock_clicked_keeps_deck(g: GameView)
    requires
        g.wf(),
    ensures
        g.stock_clicked().wf(),
        g.stock_clicked().cards() == g.cards(),
        g.stock_clicked().hand == g.hand,
        g.stock_clicked().hand_origin == g.hand_origin,
        g.stock_clicked().tableaux == g.tableaux,
        g.stock_clicked().foundations == g.foundations,
        g.stock_clicked().mouse_pos == g.mouse_pos,
{
    broadcast use vstd::seq_lib::group_to_multiset_ensures;
    broadcast use vstd::multiset::group_multiset_axioms;

    let after = g.stock_clicked();
    if g.stock.cards.len() > 0 {
        lemma_last_card(g.stock.cards);
    } else {
        lemma_no_cards();
        assert(g.stock.cards =~= Seq::<Card>::empty());
    }
    assert(after.cards() =~= g.cards());
}

/// Lifting cards into an empty hand keeps the deck whole and the game well
/// formed, and leaves every column but the hand's showing a card.
pub proof fn lemma_lifted_keeps_deck(g: GameView)
    requires
        g.wf(),
        g.idle(),
    ensures
        g.lifted().wf(),
        g.lifted().cards() == g.cards(),
        g.all_revealed() ==> g.lifted().all_revealed(),
        g.pick() is Nothing <==> g.lifted().idle(),
{
    broadcast use vstd::seq_lib::group_to_multiset_ensures;
    broadcast use vstd::multiset::group_multiset_axioms;

    let after = g.lifted();
    lemma_no_cards();
    assert(g.hand.cards =~= Seq::<Card>::empty());
    match g.pick() {
        Pick::Nothing => {},
        Pick::Talon => {
            assert(after.cards() =~= g.cards());
        },
        Pick::Tableau { column, index } => {
            lemma_first_column_hit(g.tableaux, g.mouse_pos, 0);
            let before = g.tableaux[column];
            assert(before.wf());
            lemma_columns_update(g.tableaux, column, before.drain_from(index));
            lemma_split_cards(before.cards, index);
            assert(after.cards() =~= g.cards());
            assert(after.tableaux[column].wf());
            assert forall|t: int| 0 <= t < COLUMNS implies (#[trigger] after.tableaux[t]).wf() by {
                if t != column {
                    assert(after.tableaux[t] == g.tableaux[t]);
                }
            }
            assert(after.hand.cards.len() > 0);
        },
        Pick::Foundation { pile } => {
            lemma_first_pile_giving(g.foundations, g.mouse_pos, 0);
            lemma_stacks_update(g.foundations, pile, g.foundations[pile].remove_front());
            assert(after.cards() =~= g.cards());
        },
    }
}

/// Turning up the last card of the column that the hand came from moves
/// no card.
pub proof fn lemma_origin_revealed_keeps_deck(g: GameView)
    requires
        g.tableaux.len() == COLUMNS,
        forall|t: int| 0 <= t < COLUMNS ==> (#[trigger] g.tableaux[t]).wf(),
    ensures
        g.origin_revealed().cards() == g.cards(),
        g.origin_revealed().tableaux.len() == COLUMNS,
        forall|t: int| 0 <= t < COLUMNS ==> (#[trigger] g.origin_revealed().tableaux[t]).wf(),
        forall|t: int|
            0 <= t < COLUMNS ==> (#[trigger] g.origin_revealed().tableaux[t]).cards
                == g.tableaux[t].cards,
        forall|t: int|
            0 <= t < COLUMNS && g.tableaux[t].shown_cards >= 1 ==> (
            #[trigger] g.origin_revealed().tableaux[t]) == g.tableaux[t],
        forall|t: int|
            0 <= t < COLUMNS && g.hand_origin != HandOrigin::Tableau(t as usize) ==> (
            #[trigger] g.origin_revealed().tableaux[t]) == g.tableaux[t],
        forall|t: int|
            0 <= t < COLUMNS && g.hand_origin == HandOrigin::Tableau(t as usize)
                && g.tableaux[t].cards.len() > 0 ==> (
            #[trigger] g.origin_revealed().tableaux[t]).shown_cards >= 1,
{
    broadcast use vstd::multiset::group_multiset_axioms;

    match g.hand_origin {
        HandOrigin::Tableau(t) => {
            if t < COLUMNS {
                lemma_columns_update(g.tableaux, t as int, g.tableaux[t as int].reveal_top());
                assert(g.origin_revealed().cards() =~= g.cards());
            }
        },
        _ => {},
    }
}

/// Laying the hand down keeps the deck whole and the game well formed.
/// Where no column and no foundation takes the hand, nothing changes and
/// the hand keeps its cards; where one does, the hand is left empty and
/// every column that has cards shows one.
pub proof fn lemma_dropped_keeps_deck(g: GameView)
    requires
        g.wf(),
        !g.idle(),
    ensures
        g.dropped().wf(),
        g.dropped().cards() == g.cards(),
        g.target() is Nowhere ==> g.dropped() == g,
        !(g.target() is Nowhere) ==> g.dropped().idle(),
        g.all_revealed() ==> g.dropped().all_revealed(),
{
    broadcast use vstd::seq_lib::group_to_multiset_ensures;
    broadcast use vstd::multiset::group_multiset_axioms;

    let after = g.dropped();
    lemma_no_cards();
    lemma_zone_sizes(g);
    match g.target() {
        Target::Nowhere => {},
        Target::Tableau { column } => {
            lemma_first_column_taking(g.tableaux, g.hand.cards, g.mouse_pos, 0);
            let before = g.tableaux[column];
            assert(before.wf());
            let laid = GameView {
                tableaux: g.tableaux.update(column, before.append(g.hand.cards)),
                hand: g.hand.with_cards(Seq::empty()),
                ..g
            };
            lemma_columns_update(g.tableaux, column, before.append(g.hand.cards));
            lemma_joined_cards(before.cards, g.hand.cards);
            assert(laid.cards() =~= g.cards());
            assert forall|t: int| 0 <= t < COLUMNS implies (#[trigger] laid.tableaux[t]).wf() by {
                if t != column {
                    assert(laid.tableaux[t] == g.tableaux[t]);
                }
            }
            lemma_origin_revealed_keeps_deck(laid);
            assert(after.tableaux == laid.origin_revealed().tableaux);
            if g.all_revealed() {
                assert forall|t: int|
                    0 <= t < COLUMNS && (#[trigger] after.tableaux[t]).cards.len()
                        > 0 implies after.tableaux[t].shown_cards >= 1 by {
                    if g.hand_origin == HandOrigin::Tableau(t as usize) {
                    } else if t == column {
                        assert(laid.tableaux[t].shown_cards >= 1);
                    } else {
                        assert(laid.tableaux[t] == g.tableaux[t]);
                    }
                }
            }
        },
        Target::Foundation { pile } => {
            lemma_first_pile_taking(g.foundations, g.hand.cards, g.mouse_pos, 0);
            let laid = GameView {
                foundations: g.foundations.update(
                    pile,
                    g.foundations[pile].push_front(g.hand.cards[0]),
                ),
                hand: g.hand.remove_front(),
                ..g
            };
            lemma_stacks_update(
                g.foundations,
                pile,
                g.foundations[pile].push_front(g.hand.cards[0]),
            );
            assert(laid.hand.cards =~= Seq::<Card>::empty());
            assert(g.hand.cards =~= seq![g.hand.cards[0]]);
            assert(laid.cards() =~= g.cards());
            lemma_origin_revealed_keeps_deck(laid);
            assert(after.tableaux == laid.origin_revealed().tableaux);
            if g.all_revealed() {
                assert forall|t: int|
                    0 <= t < COLUMNS && (#[trigger] after.tableaux[t]).cards.len()
                        > 0 implies after.tableaux[t].shown_cards >= 1 by {
                    if g.hand_origin == HandOrigin::Tableau(t as usize) {
                    } else {
                        assert(laid.tableaux[t] == g.tableaux[t]);
                    }
                }
            }
        },
    }
}

/// A click keeps the deck whole: after it the zones hold the cards of one
/// full deck, each once, and the game is well formed. A game whose columns
/// all showed a card where they could still does.
pub proof fn lemma_clicked_keeps_deck(g: GameView)
    requires
        g.wf(),
    ensures
        g.clicked().wf(),
        g.clicked().cards() == full_deck().to_multiset(),
        g.all_revealed() ==> g.clicked().all_revealed(),
{
    if !g.idle() {
        lemma_dropped_keeps_deck(g);
    } else if g.stock_hit() {
        lemma_stock_clicked_keeps_deck(g);
        assert(g.all_revealed() ==> g.stock_clicked().all_revealed());
    } else {
        lemma_lifted_keeps_deck(g);
    }
}

/// Sending the hand back keeps the deck whole and the game well formed,
/// leaves the hand empty, and leaves every column that has cards showing
/// one.
pub proof fn lemma_returned_keeps_deck(g: GameView)
    requires
        g.wf(),
    ensures
        g.returned().wf(),
        g.returned().cards() == full_deck().to_multiset(),
        g.returned().idle(),
        g.idle() ==> g.returned() == g,
        g.all_revealed() ==> g.returned().all_revealed(),
{
    broadcast use vstd::seq_lib::group_to_multiset_ensures;
    broadcast use vstd::multiset::group_multiset_axioms;

    let after = g.returned();
    lemma_no_cards();
    lemma_zone_sizes(g);
    if !g.idle() {
        match g.hand_origin {
            HandOrigin::Talon => {
                assert(after.hand.cards =~= Seq::<Card>::empty());
                assert(g.hand.cards =~= seq![g.hand.cards[0]]);
                assert(after.cards() =~= g.cards());
            },
            HandOrigin::Foundation(f) => {
                lemma_stacks_update(
                    g.foundations,
                    f as int,
                    g.foundations[f as int].push_front(g.hand.cards[0]),
                );
                assert(after.hand.cards =~= Seq::<Card>::empty());
                assert(g.hand.cards =~= seq![g.hand.cards[0]]);
                assert(after.cards() =~= g.cards());
            },
            HandOrigin::Tableau(t) => {
                let before = g.tableaux[t as int];
                assert(before.wf());
                lemma_columns_update(g.tableaux, t as int, before.append(g.hand.cards));
                lemma_joined_cards(before.cards, g.hand.cards);
                assert(after.cards() =~= g.cards());
                assert forall|k: int| 0 <= k < COLUMNS implies (
                #[trigger] after.tableaux[k]).wf() by {
                    if k != t {
                        assert(after.tableaux[k] == g.tableaux[k]);
                    }
                }
                if g.all_revealed() {
                    assert forall|k: int|
                        0 <= k < COLUMNS && (#[trigger] after.tableaux[k]).cards.len()
                            > 0 implies after.tableaux[k].shown_cards >= 1 by {
                        if k != t {
                            assert(after.tableaux[k] == g.tableaux[k]);
                        }
                    }
                }
            },
        }
    }
}

/// The seven columns take 28 cards together, and column `i` takes `i + 1`.
pub proof fn lemma_dealt_cards()
    ensures
        dealt_before(0) == 0,
        dealt_before(COLUMNS as int) == DEALT_CARDS,
        forall|i: int| 0 <= i ==> #[trigger] dealt_before(i + 1) == dealt_before(i) + i + 1,
{
    reveal_with_fuel(dealt_before, 9);
}

/// The first `n` columns of a fresh game hold the cards dealt to them: the
/// first cards of the deck, as many as were dealt.
pub proof fn lemma_dealt_columns(deck: Seq<Card>, n: int)
    requires
        0 <= n <= COLUMNS,
        deck.len() >= DEALT_CARDS,
    ensures
        columns_cards(Seq::new(n as nat, |i: int| dealt_column(deck, i))) == deck.take(
            dealt_before(n),
        ).to_multiset(),
    decreases n,
{
    reveal_with_fuel(dealt_before, 9);
    let columns = Seq::new(n as nat, |i: int| dealt_column(deck, i));
    if n == 0 {
        lemma_no_cards();
        assert(deck.take(0) =~= Seq::<Card>::empty());
    } else {
        let fewer = Seq::new((n - 1) as nat, |i: int| dealt_column(deck, i));
        assert(columns.drop_last() =~= fewer);
        lemma_dealt_columns(deck, n - 1);
        let from = dealt_before(n - 1);
        let to = dealt_before(n);
        assert(deck.take(to) =~= deck.take(from) + deck.subrange(from, to));
        lemma_joined_cards(deck.take(from), deck.subrange(from, to));
    }
}

/// Stacks without cards hold no card.
pub proof fn lemma_empty_stacks(stacks: Seq<StackView>)
    requires
        forall|i: int| 0 <= i < stacks.len() ==> (#[trigger] stacks[i]).cards.len() == 0,
    ensures
        stacks_cards(stacks) == Multiset::<Card>::empty(),
    decreases stacks.len(),
{
    broadcast use vstd::multiset::group_multiset_axioms;

    if stacks.len() > 0 {
        lemma_empty_stacks(stacks.drop_last());
        lemma_no_cards();
        assert(stacks.last().cards =~= Seq::<Card>::empty());
        assert(stacks_cards(stacks) =~= Multiset::<Card>::empty());
    }
}

/// Dealing: a game dealt from a full deck is well formed. Column `i`,
/// counted from 0, holds exactly `i + 1` cards and shows only the last of
/// them; the stock holds the other 24; talon, foundations and hand are
/// empty.
pub proof fn lemma_initial_game(deck: Seq<Card>)
    requires
        deck.to_multiset() == full_deck().to_multiset(),
    ensures
        initial_game(deck).wf(),
        initial_game(deck).all_revealed(),
        initial_game(deck).idle(),
        forall|i: int|
            0 <= i < COLUMNS ==> (#[trigger] initial_game(deck).tableaux[i]).cards.len() == i + 1
                && initial_game(deck).tableaux[i].shown_cards == 1,
        initial_game(deck).stock.cards.len() == 24,
        initial_game(deck).talon.cards.len() == 0,
        forall|i: int|
            0 <= i < FOUNDATIONS ==> (#[trigger] initial_game(deck).foundations[i]).cards.len()
                == 0,
{
    broadcast use vstd::seq_lib::group_to_multiset_ensures;
    broadcast use vstd::multiset::group_multiset_axioms;

    reveal_with_fuel(dealt_before, 9);
    let g = initial_game(deck);
    lemma_full_deck_len();
    assert(deck.len() == DECK_SIZE);
    lemma_dealt_columns(deck, COLUMNS as int);
    assert(g.tableaux =~= Seq::new(COLUMNS as nat, |i: int| dealt_column(deck, i)));
    lemma_empty_stacks(g.foundations);
    lemma_no_cards();
    lemma_split_cards(deck, DEALT_CARDS as int);
    assert(g.cards() =~= deck.to_multiset());
    assert forall|t: int| 0 <= t < COLUMNS implies (#[trigger] g.tableaux[t]).wf() by {
        assert(g.tableaux[t] == dealt_column(deck, t));
    }
}

/// A click on a stock that has cards moves exactly one card: the stock
/// loses its last card, the talon gains it at its front, and nothing else
/// changes but the sounds that wait.
pub proof fn lemma_stock_click_deals(g: GameView)
    requires
        g.idle(),
        g.stock_hit(),
        g.stock.cards.len() > 0,
    ensures
        g.clicked().stock.cards.len() == g.stock.cards.len() - 1,
        g.clicked().talon.cards.len() == g.talon.cards.len() + 1,
        g.clicked().talon.cards[0] == g.stock.cards.last(),
        g.clicked().stock.cards == g.stock.cards.drop_last(),
        g.clicked().talon.cards.skip(1) == g.talon.cards,
        g.clicked().tableaux == g.tableaux,
        g.clicked().foundations == g.foundations,
        g.clicked().hand == g.hand,
{
    assert(g.clicked().talon.cards.skip(1) =~= g.talon.cards);
}

/// A click on an empty stock refills it: the stock takes the talon's cards
/// as they are and in their order, so that it is as large as the talon
/// was, and the talon is left empty. Nothing else changes but the sounds
/// that wait.
pub proof fn lemma_stock_click_recycles(g: GameView)
    requires
        g.idle(),
        g.stock_hit(),
        g.stock.cards.len() == 0,
    ensures
        g.clicked().stock.cards == g.talon.cards,
        g.clicked().stock.cards.len() == g.talon.cards.len(),
        g.clicked().talon.cards.len() == 0,
        g.clicked().tableaux == g.tableaux,
        g.clicked().foundations == g.foundations,
        g.clicked().hand == g.hand,
{
}

/// Moving cards onto a column. A column that has cards and whose last card
/// is of the hand's colour, or is not one rank above the hand's first
/// card, never takes the hand. The column that does take it is under the
/// pointer, is empty or accepts the hand's first card, and ends up with
/// the hand's cards on its end, all of them face up, while the hand is
/// left empty. Where nothing takes the hand, the game is unchanged and the
/// hand keeps its cards.
pub proof fn lemma_tableau_move(g: GameView, column: int)
    requires
        g.wf(),
        !g.idle(),
        0 <= column < COLUMNS,
    ensures
        g.tableaux[column].cards.len() > 0 && !tableau_accepts(
            g.tableaux[column].cards.last(),
            g.hand.cards[0],
        ) ==> g.target() != (Target::Tableau { column }),
        g.tableaux[column].takes(g.hand.cards, g.mouse_pos) && (forall|k: int|
            0 <= k < column ==> !(#[trigger] g.tableaux[k]).takes(g.hand.cards, g.mouse_pos))
            ==> g.target() == (Target::Tableau { column }),
        g.target() == (Target::Tableau { column }) ==> {
            &&& g.tableaux[column].takes(g.hand.cards, g.mouse_pos)
            &&& g.clicked().tableaux[column].cards == g.tableaux[column].cards + g.hand.cards
            &&& g.clicked().tableaux[column].shown_cards == g.tableaux[column].shown_cards
                + g.hand.cards.len()
            &&& g.clicked().tableaux[column].wf()
            &&& g.clicked().hand.cards.len() == 0
        },
        g.target() is Nowhere ==> g.clicked() == g,
{
    lemma_first_column_taking(g.tableaux, g.hand.cards, g.mouse_pos, 0);
    lemma_dropped_keeps_deck(g);
    lemma_zone_sizes(g);
    if g.target() == (Target::Tableau { column }) {
        let laid = GameView {
            tableaux: g.tableaux.update(column, g.tableaux[column].append(g.hand.cards)),
            hand: g.hand.with_cards(Seq::empty()),
            ..g
        };
        assert(g.tableaux[column].wf());
        assert(laid.tableaux[column].shown_cards >= 1);
        assert forall|t: int| 0 <= t < COLUMNS implies (#[trigger] laid.tableaux[t]).wf() by {
            if t != column {
                assert(laid.tableaux[t] == g.tableaux[t]);
            }
        }
        lemma_origin_revealed_keeps_deck(laid);
        assert(g.clicked().tableaux == laid.origin_revealed().tableaux);
    }
}

/// A foundation takes only the next card of its suit, starting at the ace:
/// an empty pile takes exactly the aces, and a pile with cards takes
/// exactly the card whose ordinal follows that of its front card, unless
/// the front card is a king.
pub proof fn lemma_foundation_takes_next(pile: Seq<Card>, moving: Card)
    requires
        moving.in_deck(),
        pile.len() > 0 ==> pile[0].in_deck(),
    ensures
        pile.len() == 0 ==> (foundation_accepts(pile, moving) <==> rank_of(moving.value) == 0),
        pile.len() > 0 ==> (foundation_accepts(pile, moving) <==> (moving.value == pile[0].value
            + 1 && rank_of(pile[0].value) != RANKS - 1)),
        pile.len() > 0 && foundation_accepts(pile, moving) ==> suit_of(moving.value) == suit_of(
            pile[0].value,
        ) && rank_of(moving.value) == rank_of(pile[0].value) + 1,
{
}

/// Lifting cards from a column and sending them back restores the table:
/// the cards are on the end of the column they came from, the column shows
/// as many cards as before, its quads are the same, and every zone holds
/// what it held before the cards were lifted.
pub proof fn lemma_return_restores(g: GameView)
    requires
        g.wf(),
        g.idle(),
        !g.stock_hit(),
        g.pick() is Tableau,
    ensures
        g.clicked().hand_origin == HandOrigin::Tableau(g.pick()->column as usize),
        g.clicked().hand.cards == g.tableaux[g.pick()->column].cards.skip(g.pick()->index),
        g.clicked().returned().tableaux == g.tableaux,
        g.clicked().returned().stock == g.stock,
        g.clicked().returned().talon == g.talon,
        g.clicked().returned().foundations == g.foundations,
        g.clicked().returned().hand.cards.len() == 0,
{
    lemma_first_column_hit(g.tableaux, g.mouse_pos, 0);
    lemma_lifted_keeps_deck(g);
    let column = g.pick()->column;
    let index = g.pick()->index;
    let before = g.tableaux[column];
    let lifted = g.clicked();
    lemma_zone_sizes(g);
    assert(before.wf());
    assert(lifted.tableaux[column] == before.drain_from(index));
    let back = lifted.tableaux[column].append(lifted.hand.cards);
    assert(back.cards =~= before.cards);
    assert(back == before);
    assert(lifted.returned().tableaux =~= g.tableaux);
}

/// The revealing rule: a column that has cards shows at least one of them
/// after its last card was turned up. A column that already shows a card,
/// or has none, is left as it is, so that turning up twice is the same as
/// turning up once; and no card moves.
pub proof fn lemma_reveal_top(column: TableauView)
    ensures
        column.cards.len() > 0 ==> column.reveal_top().shown_cards >= 1,
        column.shown_cards >= 1 || column.cards.len() == 0 ==> column.reveal_top() == column,
        column.reveal_top().reveal_top() == column.reveal_top(),
        column.reveal_top().cards == column.cards,
        column.reveal_top().card_quads == column.card_quads,
        column.wf() ==> column.reveal_top().wf(),
{
}

/// After the hand was laid down, the column it came from shows a card if
/// it has any: taking all the face-up cards off a column turns up the card
/// beneath them.
pub proof fn lemma_move_reveals(g: GameView, origin: int)
    requires
        g.wf(),
        !g.idle(),
        g.hand_origin == HandOrigin::Tableau(origin as usize),
        0 <= origin < COLUMNS,
        !(g.target() is Nowhere),
    ensures
        g.clicked().tableaux[origin].cards.len() > 0 ==> g.clicked().tableaux[origin].shown_cards
            >= 1,
        g.target() != (Target::Tableau { column: origin }) ==> g.clicked().tableaux[origin]
            == g.tableaux[origin].reveal_top(),
{
    lemma_first_column_taking(g.tableaux, g.hand.cards, g.mouse_pos, 0);
    lemma_first_pile_taking(g.foundations, g.hand.cards, g.mouse_pos, 0);
    lemma_zone_sizes(g);
    match g.target() {
        Target::Nowhere => {},
        Target::Tableau { column } => {
            assert(g.tableaux[column].wf());
        },
        Target::Foundation { pile } => {},
    }
}

/// Moving the pointer, letting time pass, handing out the sounds and
/// turning up a card move no card: the zones hold what they held, and a
/// well-formed game stays well formed.
pub proof fn lemma_passive_steps_keep_deck(g: GameView, x: i32, y: i32, elapsed: u64)
    ensures
        g.pointed(x, y).cards() == g.cards(),
        g.ticked(elapsed).cards() == g.cards(),
        g.silenced().cards() == g.cards(),
        g.wf() ==> g.pointed(x, y).wf() && g.ticked(elapsed).wf() && g.silenced().wf()
            && g.origin_revealed().wf() && g.origin_revealed().cards() == g.cards(),
        g.all_revealed() ==> g.pointed(x, y).all_revealed() && g.ticked(elapsed).all_revealed()
            && g.silenced().all_revealed(),
{
    if g.wf() {
        lemma_origin_revealed_keeps_deck(g);
    }
}

/// Whatever the input, the deck stays whole: after every event the zones of
/// a well-formed game hold the cards of one full deck, each card in exactly
/// one zone, and the game is well formed again. A game whose columns all
/// showed a card where they could still does.
pub proof fn lemma_input_keeps_deck(g: GameView, event: InputEvent)
    requires
        g.wf(),
    ensures
        g.after_input(event).wf(),
        g.after_input(event).cards() == full_deck().to_multiset(),
        g.all_revealed() ==> g.after_input(event).all_revealed(),
{
    lemma_clicked_keeps_deck(g);
    lemma_returned_keeps_deck(g);
    match event {
        InputEvent::CursorMoved { x, y } => {
            lemma_passive_steps_keep_deck(g, x, y, 0);
        },
        _ => {},
    }
}

/// The frame clock is cosmetic: letting time pass changes what a click
/// finds in no way, since only the place where the hand is drawn and the
/// clock itself change. The clock loses exactly one step where more than
/// one step had gathered, and nothing otherwise.
pub proof fn lemma_tick_is_cosmetic(g: GameView, elapsed: u64)
    ensures
        g.ticked(elapsed).stock_hit() == g.stock_hit(),
        g.ticked(elapsed).pick() == g.pick(),
        g.ticked(elapsed).target() == g.target(),
        g.ticked(elapsed).idle() == g.idle(),
        g.ticked(elapsed).tick == if clock_sum(g.tick, elapsed) > TICK_TIME {
            clock_sum(g.tick, elapsed) - TICK_TIME
        } else {
            clock_sum(g.tick, elapsed) as int
        },
        g.ticked(elapsed).hand.quad.pos == g.mouse_pos || g.ticked(elapsed).hand == g.hand,
{
}

} // verus!
