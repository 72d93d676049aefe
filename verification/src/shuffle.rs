//! A deck in random order.

use rand::Rng;
use vstd::prelude::*;
use crate::card::{card_of, full_deck, Card, DECK_SIZE};
use crate::counting::lemma_no_cards;
use crate::geometry::{deck_quad, spec_deck_quad};
use crate::zone::Stack;

verus! {

/// A random index below `bound`, from `rand`'s `Rng::gen_range` on the
/// thread's generator with the range `0..bound`. `gen_range` panics on an
/// empty range, so the bound must be positive; the value it returns lies in
/// the range. Nothing else is claimed of it.
#[verifier::external_body]
fn random_below(bound: usize) -> (index: usize)
    requires
        bound > 0,
    ensures
        index < bound,
{
    rand::thread_rng().gen_range(0..bound)
}

impl Stack {
    /// A full deck in random order, lying where the stock lies: whatever
    /// the random numbers are, every card of the deck is in it exactly
    /// once.
    pub fn random_deck() -> (deck: Self)
        ensures
            deck@.cards.to_multiset() == full_deck().to_multiset(),
            deck@.cards.len() == DECK_SIZE,
            deck@.quad == spec_deck_quad(),
    {
        let mut cards: Vec<Card> = Vec::new();
        let mut possible_cards: Vec<u8> = Vec::new();
        for value in 0..52u8
            invariant
                possible_cards@ == Seq::new(value as nat, |k: int| k as u8),
        {
            possible_cards.push(value);
            assert(possible_cards@ =~= Seq::new((value + 1) as nat, |k: int| k as u8));
        }
        proof {
            broadcast use vstd::multiset::group_multiset_axioms;

            lemma_no_cards();
            assert(possible_cards@.map_values(|v: u8| card_of(v)) =~= full_deck());
            assert(cards@ =~= Seq::<Card>::empty());
            assert(cards@.to_multiset().add(
                possible_cards@.map_values(|v: u8| card_of(v)).to_multiset(),
            ) =~= full_deck().to_multiset());
        }
        for dealt in 0..52usize
            invariant
                possible_cards@.len() == 52 - dealt,
                cards@.len() == dealt,
                cards@.to_multiset().add(
                    possible_cards@.map_values(|v: u8| card_of(v)).to_multiset(),
                ) == full_deck().to_multiset(),
        {
            let ghost before = possible_cards@.map_values(|v: u8| card_of(v));
            let ghost held = cards@;
            let rand_index = random_below(possible_cards.len());
            let random_card = possible_cards.remove(rand_index);
            cards.push(Card::new(random_card));
            proof {
                broadcast use vstd::seq_lib::group_to_multiset_ensures;
                broadcast use vstd::multiset::group_multiset_axioms;

                let after = possible_cards@.map_values(|v: u8| card_of(v));
                let card = card_of(random_card);
                assert(after =~= before.remove(rand_index as int));
                assert(before[rand_index as int] == card);
                assert(before.contains(card));
                assert(before.to_multiset().count(card) > 0);
                assert(cards@ == held.push(card));
                assert(cards@.to_multiset().add(after.to_multiset()) =~= held.to_multiset().add(
                    before.to_multiset(),
                ));
            }
        }
        proof {
            broadcast use vstd::multiset::group_multiset_axioms;

            lemma_no_cards();
            assert(possible_cards@.map_values(|v: u8| card_of(v)) =~= Seq::<Card>::empty());
            assert(cards@.to_multiset() =~= cards@.to_multiset().add(
                possible_cards@.map_values(|v: u8| card_of(v)).to_multiset(),
            ));
        }
        Stack { cards, quad: deck_quad() }
    }
}

} // verus!
