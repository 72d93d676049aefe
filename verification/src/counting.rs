//! Counting cards: how the cards of the zones add up, and what a change to
//! one zone does to the sum.

use vstd::prelude::*;
use vstd::multiset::Multiset;
use vstd::seq_lib::lemma_multiset_commutative;
use crate::card::{full_deck, Card, DECK_SIZE};
use crate::model::{columns_cards, stacks_cards, GameView};
use crate::zone::{StackView, TableauView};

verus! {

/// A sequence cut in two holds the cards of its two parts.
pub proof fn lemma_split_cards(s: Seq<Card>, i: int)
    requires
        0 <= i <= s.len(),
    ensures
        s.take(i).to_multiset().add(s.skip(i).to_multiset()) == s.to_multiset(),
        s.take(i) + s.skip(i) == s,
        forall|c: Card|
            #![trigger s.take(i).to_multiset().count(c)]
            #![trigger s.skip(i).to_multiset().count(c)]
            s.take(i).to_multiset().count(c) + s.skip(i).to_multiset().count(c)
                == s.to_multiset().count(c),
{
    broadcast use vstd::multiset::group_multiset_axioms;

    assert(s.take(i) + s.skip(i) =~= s);
    lemma_multiset_commutative(s.take(i), s.skip(i));
}

/// Two sequences joined hold the cards of both.
pub proof fn lemma_joined_cards(a: Seq<Card>, b: Seq<Card>)
    ensures
        (a + b).to_multiset() == a.to_multiset().add(b.to_multiset()),
        forall|c: Card|
            #![trigger (a + b).to_multiset().count(c)]
            (a + b).to_multiset().count(c) == a.to_multiset().count(c) + b.to_multiset().count(c),
{
    broadcast use vstd::multiset::group_multiset_axioms;

    lemma_multiset_commutative(a, b);
}

/// A sequence holds its last card and the cards before it.
pub proof fn lemma_last_card(s: Seq<Card>)
    requires
        s.len() > 0,
    ensures
        s.drop_last().to_multiset().insert(s.last()) == s.to_multiset(),
        forall|c: Card|
            #![trigger s.drop_last().to_multiset().count(c)]
            s.drop_last().to_multiset().count(c) + (if c == s.last() {
                1int
            } else {
                0int
            }) == s.to_multiset().count(c),
{
    broadcast use vstd::seq_lib::group_to_multiset_ensures;
    broadcast use vstd::multiset::group_multiset_axioms;

    assert(s.drop_last().push(s.last()) =~= s);
}

/// The empty sequence holds no card.
pub proof fn lemma_no_cards()
    ensures
        Seq::<Card>::empty().to_multiset() == Multiset::<Card>::empty(),
{
    broadcast use vstd::seq_lib::group_to_multiset_ensures;
    broadcast use vstd::multiset::group_multiset_axioms;

    assert(Seq::<Card>::empty().to_multiset().len() == 0);
    assert(Seq::<Card>::empty().to_multiset() =~= Multiset::<Card>::empty());
}

/// Replacing one column changes the cards of the columns by that column's
/// cards.
pub proof fn lemma_columns_update(columns: Seq<TableauView>, i: int, column: TableauView)
    requires
        0 <= i < columns.len(),
    ensures
        columns_cards(columns.update(i, column)).add(columns[i].cards.to_multiset())
            == columns_cards(columns).add(column.cards.to_multiset()),
        columns[i].cards.to_multiset().subset_of(columns_cards(columns)),
        forall|c: Card|
            #![trigger columns_cards(columns.update(i, column)).count(c)]
            columns_cards(columns.update(i, column)).count(c)
                + columns[i].cards.to_multiset().count(c)
                == columns_cards(columns).count(c) + column.cards.to_multiset().count(c),
    decreases columns.len(),
{
    broadcast use vstd::multiset::group_multiset_axioms;

    let updated = columns.update(i, column);
    let rest = columns.drop_last();
    assert(columns_cards(columns) == columns_cards(rest).add(columns.last().cards.to_multiset()));
    assert(columns_cards(updated) == columns_cards(updated.drop_last()).add(
        updated.last().cards.to_multiset(),
    ));
    if i == columns.len() - 1 {
        assert(updated.drop_last() =~= rest);
        assert(updated.last() == column);
    } else {
        assert(updated.drop_last() =~= rest.update(i, column));
        assert(updated.last() == columns.last());
        assert(rest[i] == columns[i]);
        lemma_columns_update(rest, i, column);
        let last = columns.last().cards.to_multiset();
        let before = columns[i].cards.to_multiset();
        let after = column.cards.to_multiset();
        assert(columns_cards(updated).add(before) =~= columns_cards(rest.update(i, column)).add(
            before,
        ).add(last));
        assert(columns_cards(columns).add(after) =~= columns_cards(rest).add(after).add(last));
    }
    assert(columns_cards(updated).add(columns[i].cards.to_multiset()) =~= columns_cards(
        columns,
    ).add(column.cards.to_multiset()));
}

/// Replacing one stack changes the cards of the stacks by that stack's
/// cards.
pub proof fn lemma_stacks_update(stacks: Seq<StackView>, i: int, stack: StackView)
    requires
        0 <= i < stacks.len(),
    ensures
        stacks_cards(stacks.update(i, stack)).add(stacks[i].cards.to_multiset()) == stacks_cards(
            stacks,
        ).add(stack.cards.to_multiset()),
        stacks[i].cards.to_multiset().subset_of(stacks_cards(stacks)),
        forall|c: Card|
            #![trigger stacks_cards(stacks.update(i, stack)).count(c)]
            stacks_cards(stacks.update(i, stack)).count(c) + stacks[i].cards.to_multiset().count(c)
                == stacks_cards(stacks).count(c) + stack.cards.to_multiset().count(c),
    decreases stacks.len(),
{
    broadcast use vstd::multiset::group_multiset_axioms;

    let updated = stacks.update(i, stack);
    let rest = stacks.drop_last();
    assert(stacks_cards(stacks) == stacks_cards(rest).add(stacks.last().cards.to_multiset()));
    assert(stacks_cards(updated) == stacks_cards(updated.drop_last()).add(
        updated.last().cards.to_multiset(),
    ));
    if i == stacks.len() - 1 {
        assert(updated.drop_last() =~= rest);
        assert(updated.last() == stack);
    } else {
        assert(updated.drop_last() =~= rest.update(i, stack));
        assert(updated.last() == stacks.last());
        assert(rest[i] == stacks[i]);
        lemma_stacks_update(rest, i, stack);
        let last = stacks.last().cards.to_multiset();
        let before = stacks[i].cards.to_multiset();
        let after = stack.cards.to_multiset();
        assert(stacks_cards(updated).add(before) =~= stacks_cards(rest.update(i, stack)).add(
            before,
        ).add(last));
        assert(stacks_cards(stacks).add(after) =~= stacks_cards(rest).add(after).add(last));
    }
    assert(stacks_cards(updated).add(stacks[i].cards.to_multiset()) =~= stacks_cards(stacks).add(
        stack.cards.to_multiset(),
    ));
}

/// A part is no larger than the whole.
pub proof fn lemma_part_is_smaller(part: Multiset<Card>, whole: Multiset<Card>)
    requires
        part.subset_of(whole),
    ensures
        part.len() <= whole.len(),
{
    vstd::multiset::axiom_len_sub(whole, part);
}

/// A full deck has 52 cards.
pub proof fn lemma_full_deck_len()
    ensures
        full_deck().to_multiset().len() == DECK_SIZE,
{
    broadcast use vstd::seq_lib::group_to_multiset_ensures;

    assert(full_deck().len() == DECK_SIZE);
}

/// In a game that holds one full deck, no zone holds more than 52 cards,
/// and neither do a column or a pile together with the hand.
pub proof fn lemma_zone_sizes(g: GameView)
    requires
        g.cards() == full_deck().to_multiset(),
    ensures
        g.stock.cards.len() + g.talon.cards.len() + g.hand.cards.len() <= DECK_SIZE,
        forall|t: int|
            0 <= t < g.tableaux.len() ==> (#[trigger] g.tableaux[t]).cards.len()
                + g.hand.cards.len() <= DECK_SIZE,
        forall|f: int|
            0 <= f < g.foundations.len() ==> (#[trigger] g.foundations[f]).cards.len()
                + g.hand.cards.len() <= DECK_SIZE,
{
    broadcast use vstd::seq_lib::group_to_multiset_ensures;
    broadcast use vstd::multiset::group_multiset_axioms;

    lemma_full_deck_len();
    assert(g.cards().len() == g.stock.cards.len() + g.talon.cards.len() + columns_cards(
        g.tableaux,
    ).len() + stacks_cards(g.foundations).len() + g.hand.cards.len());
    assert forall|t: int| 0 <= t < g.tableaux.len() implies (#[trigger] g.tableaux[t]).cards.len()
        + g.hand.cards.len() <= DECK_SIZE by {
        lemma_columns_update(g.tableaux, t, g.tableaux[t]);
        lemma_part_is_smaller(
            g.tableaux[t].cards.to_multiset(),
            columns_cards(g.tableaux),
        );
    }
    assert forall|f: int|
        0 <= f < g.foundations.len() implies (#[trigger] g.foundations[f]).cards.len()
        + g.hand.cards.len() <= DECK_SIZE by {
        lemma_stacks_update(g.foundations, f, g.foundations[f]);
        lemma_part_is_smaller(
            g.foundations[f].cards.to_multiset(),
            stacks_cards(g.foundations),
        );
    }
}

} // verus!
