//! Card sources. A shoe hands out one card rank per request; rank 1 stands
//! for an ace and rank 10 for any ten-value card.

use vstd::prelude::*;
use rand::seq::SliceRandom;

verus! {

/// A source of card ranks. The round engine consumes cards through this
/// trait; callers may supply their own implementation.
pub trait Shoe: Sized {
    /// Well-formedness of the shoe's state.
    spec fn inv(&self) -> bool;

    /// A lower bound on how many cards may still be requested.
    spec fn avail(&self) -> nat;

    /// Produce one card rank in 1..=10.
    fn deal(&mut self) -> (rank: u8)
        requires
            old(self).inv(),
            old(self).avail() >= 1,
        ensures
            final(self).inv(),
            final(self).avail() + 1 >= old(self).avail(),
            1 <= rank <= 10,
    ;

    /// Hook called between rounds; a shoe may reshuffle here.
    fn on_new_round(&mut self)
        requires
            old(self).inv(),
        ensures
            final(self).inv(),
            final(self).avail() >= old(self).avail(),
    {
    }
}

/// How often each rank occurs in one thirteen-card run of a deck:
/// ranks 1..=9 once, rank 10 four ways (ten, jack, queen, king).
pub open spec fn run_count(rank: u8) -> int {
    if rank == 10 {
        4
    } else if 1 <= rank <= 9 {
        1
    } else {
        0
    }
}

/// A shuffled shoe of `size` 52-card decks that reshuffles itself when it
/// runs low.
pub struct StandardShoe {
    pub deck: Vec<u8>,
    pub size: u8,
}

/// Relies on rand's `SliceRandom::shuffle` (with `rand::thread_rng`): it
/// permutes the slice in place, so the elements are rearranged but none is
/// added, removed or changed.
#[verifier::external_body]
fn shuffle_deck(deck: &mut Vec<u8>)
    ensures
        final(deck)@.to_multiset() == old(deck)@.to_multiset(),
        final(deck)@.len() == old(deck)@.len(),
{
    deck.shuffle(&mut rand::thread_rng());
}

impl StandardShoe {
    pub open spec fn wf(&self) -> bool {
        &&& 1 <= self.size <= 63
        &&& forall|i: int| 0 <= i < self.deck@.len() ==> 1 <= #[trigger] self.deck@[i] <= 10
    }

    pub fn new(size: u8) -> (shoe: StandardShoe)
        requires
            1 <= size <= 63,
        ensures
            shoe.wf(),
            shoe.size == size,
            shoe.deck@.len() == 52 * size,
            forall|r: u8| shoe.deck@.to_multiset().count(r) == 4 * size * run_count(r),
    {
        Self::create_shoe(size)
    }

    fn create_shoe(size: u8) -> (shoe: StandardShoe)
        requires
            1 <= size <= 63,
        ensures
            shoe.wf(),
            shoe.size == size,
            shoe.deck@.len() == 52 * size,
            forall|r: u8| shoe.deck@.to_multiset().count(r) == 4 * size * run_count(r),
    {
        let runs: u16 = (size as u16) * 4;
        let mut deck: Vec<u8> = Vec::new();
        let mut i: u16 = 0;
        proof {
            broadcast use vstd::seq_lib::group_to_multiset_ensures;

            assert forall|r: u8| deck@.to_multiset().count(r) == i * run_count(r) by {
                assert(!deck@.contains(r));
                assert(deck@.to_multiset().count(r) == 0);
            }
        }
        while i < runs
            invariant
                i <= runs,
                runs == 4 * size,
                deck@.len() == 13 * i,
                forall|j: int| 0 <= j < deck@.len() ==> 1 <= #[trigger] deck@[j] <= 10,
                forall|r: u8| deck@.to_multiset().count(r) == i * run_count(r),
            decreases runs - i,
        {
            let ghost before = deck@;
            deck.push(1);
            deck.push(2);
            deck.push(3);
            deck.push(4);
            deck.push(5);
            deck.push(6);
            deck.push(7);
            deck.push(8);
            deck.push(9);
            deck.push(10);
            deck.push(10);
            deck.push(10);
            deck.push(10);
            i = i + 1;
            proof {
                broadcast use vstd::seq_lib::group_to_multiset_ensures;
                broadcast use vstd::multiset::group_multiset_axioms;

                let m1 = before.push(1u8);
                let m2 = m1.push(2u8);
                let m3 = m2.push(3u8);
                let m4 = m3.push(4u8);
                let m5 = m4.push(5u8);
                let m6 = m5.push(6u8);
                let m7 = m6.push(7u8);
                let m8 = m7.push(8u8);
                let m9 = m8.push(9u8);
                let m10 = m9.push(10u8);
                let m11 = m10.push(10u8);
                let m12 = m11.push(10u8);
                let m13 = m12.push(10u8);
                assert(deck@ == m13);
                assert(m1.to_multiset() == before.to_multiset().insert(1u8));
                assert(m2.to_multiset() == m1.to_multiset().insert(2u8));
                assert(m3.to_multiset() == m2.to_multiset().insert(3u8));
                assert(m4.to_multiset() == m3.to_multiset().insert(4u8));
                assert(m5.to_multiset() == m4.to_multiset().insert(5u8));
                assert(m6.to_multiset() == m5.to_multiset().insert(6u8));
                assert(m7.to_multiset() == m6.to_multiset().insert(7u8));
                assert(m8.to_multiset() == m7.to_multiset().insert(8u8));
                assert(m9.to_multiset() == m8.to_multiset().insert(9u8));
                assert(m10.to_multiset() == m9.to_multiset().insert(10u8));
                assert(m11.to_multiset() == m10.to_multiset().insert(10u8));
                assert(m12.to_multiset() == m11.to_multiset().insert(10u8));
                assert(m13.to_multiset() == m12.to_multiset().insert(10u8));
                assert forall|r: u8| deck@.to_multiset().count(r) == i * run_count(r) by {
                    assert(deck@.to_multiset().count(r) == before.to_multiset().count(r)
                        + run_count(r));
                    assert(i * run_count(r) == (i - 1) * run_count(r) + run_count(r))
                        by (nonlinear_arith);
                }
            }
        }
        shuffle_deck(&mut deck);
        proof {
            broadcast use vstd::seq_lib::group_to_multiset_ensures;
            broadcast use vstd::multiset::group_multiset_axioms;

            assert forall|j: int| 0 <= j < deck@.len() implies 1 <= #[trigger] deck@[j] <= 10 by {
                let e = deck@[j];
                assert(deck@.contains(e));
                assert(deck@.to_multiset().count(e) > 0);
                if !(1 <= e <= 10) {
                    assert(4 * size * run_count(e) == 0) by (nonlinear_arith)
                        requires run_count(e) == 0;
                }
            }
        }
        StandardShoe { deck, size }
    }
}

impl Shoe for StandardShoe {
    open spec fn inv(&self) -> bool {
        self.wf()
    }

    /// A standard shoe reshuffles itself whenever it runs out, so it can
    /// serve any bounded demand.
    open spec fn avail(&self) -> nat {
        0x1000_0000
    }

    fn deal(&mut self) -> (rank: u8) {
        if self.deck.len() == 0 {
            let fresh = StandardShoe::create_shoe(self.size);
            self.deck = fresh.deck;
        }
        let rank = match self.deck.pop() {
            Some(c) => c,
            None => 1,
        };
        rank
    }

    fn on_new_round(&mut self) {
        if self.deck.len() < 20 {
            let fresh = StandardShoe::create_shoe(self.size);
            self.deck = fresh.deck;
        }
    }
}

/// A shoe holding a fixed sequence of cards, dealt from the back; it never
/// reshuffles. Useful for scripting exact deals.
pub struct CustomShoe {
    pub deck: Vec<u8>,
}

impl CustomShoe {
    pub fn new(deck: Vec<u8>) -> (shoe: CustomShoe)
        ensures
            shoe.deck@ == deck@,
    {
        CustomShoe { deck }
    }
}

impl Shoe for CustomShoe {
    open spec fn inv(&self) -> bool {
        forall|i: int| 0 <= i < self.deck@.len() ==> 1 <= #[trigger] self.deck@[i] <= 10
    }

    open spec fn avail(&self) -> nat {
        self.deck@.len()
    }

    fn deal(&mut self) -> (rank: u8) {
        match self.deck.pop() {
            Some(c) => c,
            None => 1,
        }
    }
}

} // verus!
