//! Hand evaluation: card totals with soft/hard ace handling and the
//! status that results from each dealt card.

use vstd::prelude::*;
use crate::shoe::Shoe;

verus! {

#[derive(PartialEq, Eq, Structural, Copy, Clone, Debug)]
pub enum HandStatus {
    Value,
    Bust,
    Win,
    Push,
    Lose,
    Blackjack,
    Surrender,
    Stood,
}

/// Sum of the card ranks, counting every ace as 1.
pub open spec fn raw_sum(cards: Seq<u8>) -> int
    decreases cards.len(),
{
    if cards.len() == 0 {
        0
    } else {
        raw_sum(cards.drop_last()) + cards.last()
    }
}

/// Whether the hand holds at least one ace.
pub open spec fn has_ace(cards: Seq<u8>) -> bool
    decreases cards.len(),
{
    if cards.len() == 0 {
        false
    } else {
        cards.last() == 1 || has_ace(cards.drop_last())
    }
}

/// Every card carries a rank the shoe can produce: 1 (ace) through 10.
pub open spec fn card_ranks_valid(cards: Seq<u8>) -> bool {
    forall|i: int| 0 <= i < cards.len() ==> 1 <= #[trigger] cards[i] <= 10
}

/// A hand is soft exactly when an ace can be counted as 11 without busting:
/// the raw total is at most 11 and an ace is present.
pub open spec fn is_soft(cards: Seq<u8>) -> bool {
    raw_sum(cards) < 12 && has_ace(cards)
}

/// The value of a hand: the raw total, plus 10 when the hand is soft.
pub open spec fn hand_value(cards: Seq<u8>) -> int {
    raw_sum(cards) + if is_soft(cards) { 10int } else { 0int }
}

/// The status a hand takes after its cards change to `cards`: busting over
/// 21 is terminal, reaching exactly 21 forces a stand, and otherwise the
/// previous status is kept.
pub open spec fn status_after(status: HandStatus, cards: Seq<u8>) -> HandStatus {
    if hand_value(cards) > 21 {
        HandStatus::Bust
    } else if hand_value(cards) == 21 {
        HandStatus::Stood
    } else {
        status
    }
}

pub struct Hand {
    pub cards: Vec<u8>,
    pub status: HandStatus,
    pub value: u8,
    pub soft: bool,
}

proof fn lemma_raw_sum_take_step(cards: Seq<u8>, i: int)
    requires
        0 <= i < cards.len(),
    ensures
        raw_sum(cards.take(i + 1)) == raw_sum(cards.take(i)) + cards[i],
        has_ace(cards.take(i + 1)) == (has_ace(cards.take(i)) || cards[i] == 1),
{
    assert(cards.take(i + 1).drop_last() =~= cards.take(i));
    assert(cards.take(i + 1).last() == cards[i]);
}

/// Every prefix of a hand sums to no more than the whole: ranks are
/// non-negative.
proof fn lemma_raw_sum_take_le(cards: Seq<u8>, i: int)
    requires
        0 <= i <= cards.len(),
    ensures
        0 <= raw_sum(cards.take(i)) <= raw_sum(cards),
    decreases cards.len() - i,
{
    lemma_raw_sum_nonneg(cards.take(i));
    if i == cards.len() {
        assert(cards.take(i) =~= cards);
    } else {
        lemma_raw_sum_take_step(cards, i);
        lemma_raw_sum_take_le(cards, i + 1);
    }
}

proof fn lemma_raw_sum_nonneg(cards: Seq<u8>)
    ensures
        raw_sum(cards) >= 0,
    decreases cards.len(),
{
    if cards.len() > 0 {
        lemma_raw_sum_nonneg(cards.drop_last());
    }
}

/// A hand of valid ranks sums to at most ten points per card.
pub proof fn lemma_raw_sum_bound(cards: Seq<u8>)
    requires
        card_ranks_valid(cards),
    ensures
        raw_sum(cards) <= 10 * cards.len(),
    decreases cards.len(),
{
    if cards.len() > 0 {
        assert(card_ranks_valid(cards.drop_last()));
        lemma_raw_sum_bound(cards.drop_last());
    }
}

proof fn lemma_sum_one(cards: Seq<u8>)
    requires
        cards.len() == 1,
    ensures
        raw_sum(cards) == cards[0],
        has_ace(cards) == (cards[0] == 1),
{
    assert(cards.drop_last() =~= Seq::<u8>::empty());
    assert(raw_sum(Seq::<u8>::empty()) == 0);
    assert(!has_ace(Seq::<u8>::empty()));
}

proof fn lemma_sum_two(cards: Seq<u8>)
    requires
        cards.len() == 2,
    ensures
        raw_sum(cards) == cards[0] + cards[1],
        has_ace(cards) == (cards[0] == 1 || cards[1] == 1),
{
    lemma_sum_one(cards.drop_last());
    assert(cards.drop_last()[0] == cards[0]);
}

/// How far the dealer still is from the stand threshold of 17.
spec fn dealer_deficit(cards: Seq<u8>) -> int {
    if raw_sum(cards) < 17 {
        17 - raw_sum(cards)
    } else {
        0
    }
}

/// For every sequence of dealt cards, the hand's value never exceeds 21
/// without the status being bust, and a soft hand's value exceeds its
/// hard total by exactly ten while an ace is still countable as eleven.
pub proof fn lemma_hand_value_sound(h: Hand)
    requires
        h.wf(),
    ensures
        h.value > 21 ==> h.status == HandStatus::Bust,
        h.soft ==> h.value == raw_sum(h.cards@) + 10 && has_ace(h.cards@) && raw_sum(h.cards@)
            + 10 <= 21,
{
}

impl Hand {
    /// A hand's derived fields agree with its cards, and a value over 21
    /// always means the hand is bust.
    pub open spec fn wf(&self) -> bool {
        &&& card_ranks_valid(self.cards@)
        &&& self.value == hand_value(self.cards@)
        &&& self.soft == is_soft(self.cards@)
        &&& (self.value > 21 ==> self.status == HandStatus::Bust)
    }

    /// Deal the opening two cards of a hand; a two-card 21 is a blackjack.
    pub fn new<S: Shoe>(shoe: &mut S) -> (hand: Hand)
        requires
            old(shoe).inv(),
            old(shoe).avail() >= 2,
        ensures
            final(shoe).inv(),
            final(shoe).avail() + 2 >= old(shoe).avail(),
            hand.wf(),
            hand.cards@.len() == 2,
            1 <= hand.cards@[0] <= 10,
            1 <= hand.cards@[1] <= 10,
            hand.value <= 21,
            hand.status == (if hand_value(hand.cards@) == 21 {
                HandStatus::Blackjack
            } else {
                HandStatus::Value
            }),
    {
        let mut hand = Hand { cards: Vec::new(), status: HandStatus::Value, value: 0, soft: false };
        let ghost empty = hand.cards@;
        hand.deal_card(shoe);
        proof {
            let c1 = choose|c: u8| 1 <= c <= 10 && hand.cards@ == empty.push(c);
            lemma_sum_one(hand.cards@);
        }
        let ghost one = hand.cards@;
        hand.deal_card(shoe);
        proof {
            let c2 = choose|c: u8| 1 <= c <= 10 && hand.cards@ == one.push(c);
            lemma_sum_two(hand.cards@);
        }
        if hand.value == 21 {
            hand.status = HandStatus::Blackjack;
        }
        hand
    }

    /// Append one card from the shoe, recompute value and softness, and
    /// update the status: bust over 21, forced stand at exactly 21.
    /// Returns the new value.
    pub fn deal_card<S: Shoe>(&mut self, shoe: &mut S) -> (value: u8)
        requires
            old(shoe).inv(),
            old(shoe).avail() >= 1,
            raw_sum(old(self).cards@) <= 245,
            card_ranks_valid(old(self).cards@),
        ensures
            final(shoe).inv(),
            final(shoe).avail() + 1 >= old(shoe).avail(),
            exists|c: u8|
                1 <= c <= 10 && final(self).cards@ == old(self).cards@.push(c),
            final(self).value == hand_value(final(self).cards@),
            final(self).soft == is_soft(final(self).cards@),
            final(self).status == status_after(old(self).status, final(self).cards@),
            final(self).wf(),
            value == final(self).value,
    {
        let c = shoe.deal();
        self.cards.push(c);
        proof {
            assert(self.cards@.drop_last() =~= old(self).cards@);
        }
        self.calculate_value();
        self.value
    }

    /// Recompute `value`, `soft` and (at 21 or above) `status` from the
    /// cards currently held.
    pub fn calculate_value(&mut self)
        requires
            raw_sum(old(self).cards@) <= 255,
            card_ranks_valid(old(self).cards@),
        ensures
            final(self).cards == old(self).cards,
            final(self).value == hand_value(final(self).cards@),
            final(self).soft == is_soft(final(self).cards@),
            final(self).status == status_after(old(self).status, final(self).cards@),
            final(self).wf(),
    {
        let n = self.cards.len();
        let mut sum: u16 = 0;
        let mut aces = false;
        let mut i: usize = 0;
        proof {
            lemma_raw_sum_take_le(self.cards@, 0);
        }
        while i < n
            invariant
                n == self.cards@.len(),
                0 <= i <= n,
                raw_sum(self.cards@) <= 255,
                sum == raw_sum(self.cards@.take(i as int)),
                sum <= 255,
                aces == has_ace(self.cards@.take(i as int)),
            decreases n - i,
        {
            proof {
                lemma_raw_sum_take_step(self.cards@, i as int);
                lemma_raw_sum_take_le(self.cards@, i + 1);
            }
            if self.cards[i] == 1 {
                aces = true;
            }
            sum = sum + (self.cards[i] as u16);
            i = i + 1;
        }
        proof {
            assert(self.cards@.take(n as int) =~= self.cards@);
        }
        self.soft = sum < 12 && aces;
        if self.soft {
            sum = sum + 10;
        }
        self.value = sum as u8;

        if self.value > 21 {
            self.status = HandStatus::Bust;
        }
        if self.value == 21 {
            self.status = HandStatus::Stood;
        }
    }

    /// The dealer's fixed policy: draw while the value is below 17, then
    /// stand on any 17 or more, soft or hard.
    pub fn dealer_turn<S: Shoe>(&mut self, shoe: &mut S)
        requires
            old(self).wf(),
            old(self).value <= 21,
            old(shoe).inv(),
            old(shoe).avail() >= 17,
        ensures
            final(shoe).inv(),
            final(self).wf(),
            17 <= final(self).value <= 26,
            old(self).value >= 17 ==> *final(self) == *old(self),
    {
        proof {
            lemma_raw_sum_nonneg(self.cards@);
        }
        while self.value < 17
            invariant
                self.wf(),
                shoe.inv(),
                raw_sum(self.cards@) >= 0,
                shoe.avail() + raw_sum(self.cards@) >= 17,
                self.value <= 26,
                old(self).value >= 17 ==> self == old(self),
            decreases dealer_deficit(self.cards@),
        {
            let ghost prev = self.cards@;
            self.deal_card(shoe);
            proof {
                let c = choose|c: u8| 1 <= c <= 10 && self.cards@ == prev.push(c);
                assert(self.cards@.drop_last() =~= prev);
                assert(raw_sum(self.cards@) == raw_sum(prev) + c);
            }
        }
    }
}

/// The message shown for a hand's status; neutral states show nothing.
pub fn hand_message(status: HandStatus) -> (message: &'static str)
    ensures
        message@ == spec_hand_message(status),
{
    match status {
        HandStatus::Win => "Win",
        HandStatus::Lose => "Lost",
        HandStatus::Push => "Push",
        HandStatus::Blackjack => "Blackjack",
        HandStatus::Bust => "Bust",
        HandStatus::Surrender => "Surrender",
        _ => "",
    }
}

pub open spec fn spec_hand_message(status: HandStatus) -> Seq<char> {
    match status {
        HandStatus::Win => "Win"@,
        HandStatus::Lose => "Lost"@,
        HandStatus::Push => "Push"@,
        HandStatus::Blackjack => "Blackjack"@,
        HandStatus::Bust => "Bust"@,
        HandStatus::Surrender => "Surrender"@,
        _ => ""@,
    }
}

} // verus!
