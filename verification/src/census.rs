//! Counting the deck at run time: whether a pile of cards is one full deck,
//! and whether a game is well formed.

use vstd::prelude::*;
use vstd::multiset::Multiset;
use crate::card::{card_of, full_deck, Card, DECK_SIZE};
use crate::counting::{lemma_no_cards, lemma_split_cards, lemma_zone_sizes};
use crate::game::GameState;
use crate::geometry::{card_size, Quad, Vec2, FAN_OFFSET};
use crate::model::{columns_cards, stacks_cards, GameView, HandOrigin, COLUMNS};
use crate::zone::{fan, StackView, Tableau, TableauView};

verus! {

/// `cards` holds exactly the cards of the deck whose ordinals are marked in
/// `seen`, each of them once.
pub open spec fn tallies(seen: Seq<bool>, cards: Multiset<Card>) -> bool {
    &&& seen.len() == DECK_SIZE
    &&& forall|c: Card|
        #[trigger] cards.count(c) == (if c.in_deck() && seen[c.value as int] {
            1nat
        } else {
            0nat
        })
}

/// A full deck holds each card of the deck once and nothing else.
pub proof fn lemma_full_deck_count()
    ensures
        forall|c: Card|
            #[trigger] full_deck().to_multiset().count(c) == (if c.in_deck() {
                1nat
            } else {
                0nat
            }),
{
    broadcast use vstd::seq_lib::group_to_multiset_ensures;

    let deck = full_deck();
    assert(deck.no_duplicates());
    deck.lemma_multiset_has_no_duplicates();
    assert forall|c: Card|
        #[trigger] deck.to_multiset().count(c) == (if c.in_deck() {
            1nat
        } else {
            0nat
        }) by {
        if c.in_deck() {
            assert(deck[c.value as int] == c);
            assert(deck.contains(c));
        } else if deck.contains(c) {
            let i = choose|i: int| 0 <= i < deck.len() && deck[i] == c;
            assert(c == card_of(i as u8));
        }
    }
}

/// Cards that tally with marks, all of which are set, are one full deck;
/// and the cards of a full deck tally only with marks that are all set.
pub proof fn lemma_all_seen(seen: Seq<bool>, cards: Multiset<Card>)
    requires
        tallies(seen, cards),
    ensures
        (forall|v: int| 0 <= v < DECK_SIZE ==> seen[v]) <==> cards == full_deck().to_multiset(),
{
    lemma_full_deck_count();
    if forall|v: int| 0 <= v < DECK_SIZE ==> seen[v] {
        assert(cards =~= full_deck().to_multiset());
    }
    if cards == full_deck().to_multiset() {
        assert forall|v: int| 0 <= v < DECK_SIZE implies seen[v] by {
            let c = card_of(v as u8);
            assert(c.in_deck());
            assert(cards.count(c) == 1);
        }
    }
}

/// Marks the cards of `cards` in `seen`. Fails at the first card that is
/// not a card of the deck or is already marked.
fn mark(cards: &Vec<Card>, seen: &mut [bool; 52], Ghost(before): Ghost<Multiset<Card>>) -> (ok:
    bool)
    requires
        tallies(old(seen)@, before),
    ensures
        ok ==> tallies(final(seen)@, before.add(cards@.to_multiset())),
        !ok ==> !before.add(cards@.to_multiset()).subset_of(full_deck().to_multiset()),
{
    proof {
        broadcast use vstd::multiset::group_multiset_axioms;

        lemma_no_cards();
        assert(cards@.take(0) =~= Seq::<Card>::empty());
        assert(before.add(cards@.take(0).to_multiset()) =~= before);
    }
    for i in 0..cards.len()
        invariant
            tallies(seen@, before.add(cards@.take(i as int).to_multiset())),
    {
        let card = cards[i];
        let ghost so_far = before.add(cards@.take(i as int).to_multiset());
        proof {
            broadcast use vstd::seq_lib::group_to_multiset_ensures;
            broadcast use vstd::multiset::group_multiset_axioms;

            assert(cards@.take(i + 1) =~= cards@.take(i as int).push(card));
            lemma_split_cards(cards@, i + 1);
            lemma_full_deck_count();
            assert(cards@.take(i + 1).to_multiset().count(card) == cards@.take(
                i as int,
            ).to_multiset().count(card) + 1);
            assert(before.add(cards@.take(i + 1).to_multiset()) =~= so_far.insert(card));
        }
        if card.value >= 52 || card != Card::new(card.value) {
            proof {
                broadcast use vstd::multiset::group_multiset_axioms;

                assert(!card.in_deck());
                assert(before.add(cards@.to_multiset()).count(card) >= 1);
                assert(full_deck().to_multiset().count(card) == 0);
            }
            return false;
        }
        if seen[card.value as usize] {
            proof {
                broadcast use vstd::multiset::group_multiset_axioms;

                assert(so_far.count(card) == 1);
                assert(before.add(cards@.to_multiset()).count(card) >= 2);
                assert(full_deck().to_multiset().count(card) == 1);
            }
            return false;
        }
        seen[card.value as usize] = true;
        proof {
            broadcast use vstd::multiset::group_multiset_axioms;

            let now = so_far.insert(card);
            assert forall|c: Card|
                #[trigger] now.count(c) == (if c.in_deck() && seen@[c.value as int] {
                    1nat
                } else {
                    0nat
                }) by {
                if c.in_deck() && c.value == card.value {
                    assert(c == card);
                }
            }
        }
    }
    proof {
        assert(cards@.take(cards@.len() as int) =~= cards@);
    }
    true
}

/// Whether every mark is set.
fn all_marked(seen: &[bool; 52]) -> (all: bool)
    ensures
        all == (forall|v: int| 0 <= v < DECK_SIZE ==> seen@[v]),
{
    for v in 0..52usize
        invariant
            forall|k: int| 0 <= k < v ==> seen@[k],
    {
        if !seen[v] {
            return false;
        }
    }
    true
}

/// Whether `cards` is one full deck: every card of the deck is in it once
/// and nothing else is.
pub fn holds_full_deck(cards: &Vec<Card>) -> (full: bool)
    ensures
        full == (cards@.to_multiset() == full_deck().to_multiset()),
{
    let mut seen = [false;52];
    let ghost none = Multiset::<Card>::empty();
    proof {
        broadcast use vstd::multiset::group_multiset_axioms;

        assert(tallies(seen@, none));
        assert(none.add(cards@.to_multiset()) =~= cards@.to_multiset());
    }
    if !mark(cards, &mut seen, Ghost(none)) {
        proof {
            assert(full_deck().to_multiset().subset_of(full_deck().to_multiset()));
        }
        return false;
    }
    proof {
        lemma_all_seen(seen@, cards@.to_multiset());
    }
    all_marked(&seen)
}

impl Tableau {
    /// Whether the column is well formed: it shows no more cards than it
    /// has, and its quads are those of its fan.
    pub fn is_well_formed(&self) -> (ok: bool)
        requires
            self@.cards.len() * FAN_OFFSET <= i64::MAX,
        ensures
            ok == self.wf(),
    {
        let n = self.cards.len();
        if self.shown_cards as usize > n {
            return false;
        }
        let x = self.x_position;
        if n == 0 {
            let ok = self.card_quads.len() == 1 && self.card_quads[0] == (Quad {
                pos: Vec2 { x, y: 0 },
                size: card_size(),
            });
            proof {
                if ok {
                    assert(self@.card_quads =~= fan(x, 0));
                }
            }
            return ok;
        }
        if self.card_quads.len() != n {
            return false;
        }
        for i in 0..n
            invariant
                n == self@.cards.len(),
                n == self@.card_quads.len(),
                n > 0,
                x == self.x_position,
                n * FAN_OFFSET <= i64::MAX,
                self.shown_cards <= n,
                forall|k: int| 0 <= k < i ==> self@.card_quads[k] == fan(x, n as nat)[k],
        {
            let y: i64 = -((i as i64) * FAN_OFFSET);
            if self.card_quads[i] != (Quad { pos: Vec2 { x, y }, size: card_size() }) {
                assert(self@.card_quads[i as int] != fan(x, n as nat)[i as int]);
                return false;
            }
        }
        assert(self@.card_quads =~= fan(x, n as nat));
        true
    }
}

impl GameState {
    /// Whether the game is well formed: the columns are laid out, the
    /// zones together hold one full deck, each card once, and the hand's
    /// origin fits the hand.
    pub fn is_well_formed(&self) -> (ok: bool)
        ensures
            ok == self.wf(),
    {
        let ghost g = self@;
        proof {
            if g.wf() {
                lemma_zone_sizes(g);
            }
        }
        let origin_fits = match self.hand_origin {
            HandOrigin::Talon => self.hand.cards.len() <= 1,
            HandOrigin::Foundation(f) => f < 4 && self.hand.cards.len() <= 1,
            HandOrigin::Tableau(t) => t < 7,
        };
        if !origin_fits {
            return false;
        }
        for t in 0..7usize
            invariant
                g == self@,
                g.wf() ==> forall|k: int|
                    0 <= k < COLUMNS ==> (#[trigger] g.tableaux[k]).cards.len() <= DECK_SIZE,
                forall|k: int| 0 <= k < t ==> (#[trigger] g.tableaux[k]).wf(),
        {
            assert(self.tableaux[t as int]@ == g.tableaux[t as int]);
            if self.tableaux[t].cards.len() > 52 || !self.tableaux[t].is_well_formed() {
                return false;
            }
        }

        let mut seen = [false;52];
        let ghost mut marked = Multiset::<Card>::empty();
        proof {
            broadcast use vstd::multiset::group_multiset_axioms;

            assert(tallies(seen@, marked));
            assert(full_deck().to_multiset().subset_of(full_deck().to_multiset()));
        }
        if !mark(&self.stock.cards, &mut seen, Ghost(marked)) {
            proof {
                lemma_part_of_game(g, marked.add(g.stock.cards.to_multiset()), 0, 0, 0);
            }
            return false;
        }
        proof {
            marked = marked.add(g.stock.cards.to_multiset());
        }
        if !mark(&self.talon.cards, &mut seen, Ghost(marked)) {
            proof {
                broadcast use vstd::multiset::group_multiset_axioms;

                assert(g.tableaux.take(0) =~= Seq::<TableauView>::empty());
                assert(g.foundations.take(0) =~= Seq::<StackView>::empty());
                lemma_part_of_game(g, marked.add(g.talon.cards.to_multiset()), 2, 0, 0);
            }
            return false;
        }
        proof {
            marked = marked.add(g.talon.cards.to_multiset());
            assert(g.tableaux.take(0) =~= Seq::<TableauView>::empty());
            assert(marked =~= parts(g, 2, 0, 0));
        }
        for t in 0..7usize
            invariant
                g == self@,
                tallies(seen@, marked),
                marked == parts(g, 2, t as int, 0),
        {
            assert(self.tableaux[t as int]@ == g.tableaux[t as int]);
            proof {
                broadcast use vstd::multiset::group_multiset_axioms;

                assert(g.tableaux.take(t + 1).drop_last() =~= g.tableaux.take(t as int));
                assert(marked.add(g.tableaux[t as int].cards.to_multiset()) =~= parts(
                    g,
                    2,
                    t + 1,
                    0,
                ));
            }
            if !mark(&self.tableaux[t].cards, &mut seen, Ghost(marked)) {
                proof {
                    lemma_part_of_game(g, parts(g, 2, t + 1, 0), 2, t + 1, 0);
                }
                return false;
            }
            proof {
                marked = marked.add(g.tableaux[t as int].cards.to_multiset());
            }
        }
        proof {
            assert(g.tableaux.take(7) =~= g.tableaux);
            assert(g.foundations.take(0) =~= Seq::<StackView>::empty());
        }
        for f in 0..4usize
            invariant
                g == self@,
                tallies(seen@, marked),
                marked == parts(g, 2, 7, f as int),
        {
            assert(self.foundations[f as int]@ == g.foundations[f as int]);
            proof {
                broadcast use vstd::multiset::group_multiset_axioms;

                assert(g.foundations.take(f + 1).drop_last() =~= g.foundations.take(f as int));
                assert(marked.add(g.foundations[f as int].cards.to_multiset()) =~= parts(
                    g,
                    2,
                    7,
                    f + 1,
                ));
            }
            if !mark(&self.foundations[f].cards, &mut seen, Ghost(marked)) {
                proof {
                    lemma_part_of_game(g, parts(g, 2, 7, f + 1), 2, 7, f + 1);
                }
                return false;
            }
            proof {
                marked = marked.add(g.foundations[f as int].cards.to_multiset());
            }
        }
        proof {
            broadcast use vstd::multiset::group_multiset_axioms;

            assert(g.foundations.take(4) =~= g.foundations);
            assert(g.tableaux.take(7) =~= g.tableaux);
            assert(marked.add(g.hand.cards.to_multiset()) =~= g.cards());
        }
        if !mark(&self.hand.cards, &mut seen, Ghost(marked)) {
            return false;
        }
        proof {
            lemma_all_seen(seen@, g.cards());
        }
        all_marked(&seen)
    }
}

/// The cards of the first zones of a game: the stock, the talon (where
/// `stacks` is 2), the first `columns` columns and the first `piles`
/// foundations.
pub open spec fn parts(g: GameView, stacks: int, columns: int, piles: int) -> Multiset<Card> {
    g.stock.cards.to_multiset().add(
        if stacks >= 2 {
            g.talon.cards.to_multiset()
        } else {
            Multiset::empty()
        },
    ).add(columns_cards(g.tableaux.take(columns))).add(stacks_cards(g.foundations.take(piles)))
}

/// The cards of some columns are among those of more columns.
pub proof fn lemma_columns_prefix(columns: Seq<TableauView>, n: int)
    requires
        0 <= n <= columns.len(),
    ensures
        columns_cards(columns.take(n)).subset_of(columns_cards(columns)),
    decreases columns.len(),
{
    broadcast use vstd::multiset::group_multiset_axioms;

    if n == columns.len() {
        assert(columns.take(n) =~= columns);
    } else {
        assert(columns.take(n) =~= columns.drop_last().take(n));
        lemma_columns_prefix(columns.drop_last(), n);
    }
}

/// The cards of some stacks are among those of more stacks.
pub proof fn lemma_stacks_prefix(stacks: Seq<StackView>, n: int)
    requires
        0 <= n <= stacks.len(),
    ensures
        stacks_cards(stacks.take(n)).subset_of(stacks_cards(stacks)),
    decreases stacks.len(),
{
    broadcast use vstd::multiset::group_multiset_axioms;

    if n == stacks.len() {
        assert(stacks.take(n) =~= stacks);
    } else {
        assert(stacks.take(n) =~= stacks.drop_last().take(n));
        lemma_stacks_prefix(stacks.drop_last(), n);
    }
}

/// Where the cards of some zones of a game are not among those of a full
/// deck, the game does not hold a full deck.
pub proof fn lemma_part_of_game(
    g: GameView,
    part: Multiset<Card>,
    stacks: int,
    columns: int,
    piles: int,
)
    requires
        0 <= columns <= g.tableaux.len(),
        0 <= piles <= g.foundations.len(),
        part.subset_of(parts(g, stacks, columns, piles)),
        !part.subset_of(full_deck().to_multiset()),
    ensures
        g.cards() != full_deck().to_multiset(),
{
    broadcast use vstd::multiset::group_multiset_axioms;

    lemma_columns_prefix(g.tableaux, columns);
    lemma_stacks_prefix(g.foundations, piles);
    assert(part.subset_of(g.cards()));
}

} // verus!
