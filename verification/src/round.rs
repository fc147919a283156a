//! One deal: the dealer's hand, the ordered player hands (splits insert
//! new hands right after the hand that split), and the cursor over the
//! hand that may currently act. Start-of-round blackjack resolution, the
//! advance rule, and end-of-round settlement live here.

use vstd::prelude::*;
use crate::action::Action;
use crate::hand::Hand;
use crate::hand::HandStatus;
use crate::player_hand::PlayerHand;
use crate::player_hand::action_post;
use crate::player_hand::with_status;
use crate::shoe::Shoe;

verus! {

pub struct Round {
    pub player_hands: Vec<PlayerHand>,
    pub active_hand_index: usize,
    pub dealer: Hand,
}

/// Sum of the wagers riding on a sequence of hands.
pub open spec fn round_bets(hands: Seq<PlayerHand>) -> int
    decreases hands.len(),
{
    if hands.len() == 0 {
        0
    } else {
        round_bets(hands.drop_last()) + hands.last().bet_amount
    }
}

/// Every hand is well formed and draws from an existing balance slot.
pub open spec fn hands_wf(hands: Seq<PlayerHand>, balances: Seq<u64>) -> bool {
    forall|i: int| 0 <= i < hands.len() ==> (#[trigger] hands[i]).wf_in(balances)
}

/// Every balance has room for all credits this round could pay: no payout
/// exceeds three times a hand's wager.
pub open spec fn credits_fit(hands: Seq<PlayerHand>, balances: Seq<u64>) -> bool {
    forall|p: int|
        0 <= p < balances.len() ==> (#[trigger] balances[p]) + 3 * round_bets(hands) <= u64::MAX
}

/// A hand may still act: it has no settled status and is not frozen at 21.
pub open spec fn eligible(h: PlayerHand) -> bool {
    h.hand.status == HandStatus::Value && h.hand.value != 21
}

/// Nothing is left to settle: every hand busted or surrendered.
pub open spec fn all_done(hands: Seq<PlayerHand>) -> bool {
    forall|i: int|
        0 <= i < hands.len() ==> ((#[trigger] hands[i]).hand.status == HandStatus::Bust
            || hands[i].hand.status == HandStatus::Surrender)
}

/// A player hand's status after the opening blackjack comparison.
pub open spec fn start_status(status: HandStatus, dealer_bj: bool) -> HandStatus {
    if dealer_bj && status == HandStatus::Blackjack {
        HandStatus::Push
    } else if dealer_bj {
        HandStatus::Lose
    } else {
        status
    }
}

/// What the opening blackjack comparison pays a hand: a push returns the
/// wager, an unmatched player blackjack pays three to two.
pub open spec fn start_credit(h: PlayerHand, dealer_bj: bool) -> int {
    if h.hand.status == HandStatus::Blackjack {
        if dealer_bj {
            h.bet_amount as int
        } else {
            h.bet_amount * 5 / 2
        }
    } else {
        0
    }
}

/// Total opening credits to one player over a sequence of hands.
pub open spec fn start_credits(hands: Seq<PlayerHand>, dealer_bj: bool, p: int) -> int
    decreases hands.len(),
{
    if hands.len() == 0 {
        0
    } else {
        start_credits(hands.drop_last(), dealer_bj, p) + if hands.last().player_index == p {
            start_credit(hands.last(), dealer_bj)
        } else {
            0
        }
    }
}

/// A stood hand's status after the dealer finishes: a busted dealer
/// loses to every stood hand, otherwise the totals are compared.
pub open spec fn end_status(h: PlayerHand, dealer_value: u8) -> HandStatus {
    if h.hand.status == HandStatus::Stood {
        if dealer_value > 21 || h.hand.value > dealer_value {
            HandStatus::Win
        } else if h.hand.value == dealer_value {
            HandStatus::Push
        } else {
            HandStatus::Lose
        }
    } else {
        h.hand.status
    }
}

/// What settlement pays a hand: a win pays twice the wager (stake plus
/// even money), a push returns the wager, everything else pays nothing.
pub open spec fn end_credit(h: PlayerHand, dealer_value: u8) -> int {
    if h.hand.status == HandStatus::Stood {
        if dealer_value > 21 || h.hand.value > dealer_value {
            2 * h.bet_amount
        } else if h.hand.value == dealer_value {
            h.bet_amount as int
        } else {
            0
        }
    } else {
        0
    }
}

/// Total settlement credits to one player over a sequence of hands.
pub open spec fn end_credits(hands: Seq<PlayerHand>, dealer_value: u8, p: int) -> int
    decreases hands.len(),
{
    if hands.len() == 0 {
        0
    } else {
        end_credits(hands.drop_last(), dealer_value, p) + if hands.last().player_index == p {
            end_credit(hands.last(), dealer_value)
        } else {
            0
        }
    }
}

proof fn lemma_round_bets_nonneg(hands: Seq<PlayerHand>)
    ensures
        round_bets(hands) >= 0,
    decreases hands.len(),
{
    if hands.len() > 0 {
        lemma_round_bets_nonneg(hands.drop_last());
    }
}

proof fn lemma_round_bets_take_step(hands: Seq<PlayerHand>, i: int)
    requires
        0 <= i < hands.len(),
    ensures
        round_bets(hands.take(i + 1)) == round_bets(hands.take(i)) + hands[i].bet_amount,
{
    assert(hands.take(i + 1).drop_last() =~= hands.take(i));
    assert(hands.take(i + 1).last() == hands[i]);
}

proof fn lemma_round_bets_take_le(hands: Seq<PlayerHand>, i: int)
    requires
        0 <= i <= hands.len(),
    ensures
        0 <= round_bets(hands.take(i)) <= round_bets(hands),
    decreases hands.len() - i,
{
    lemma_round_bets_nonneg(hands.take(i));
    if i == hands.len() {
        assert(hands.take(i) =~= hands);
    } else {
        lemma_round_bets_take_step(hands, i);
        lemma_round_bets_take_le(hands, i + 1);
    }
}

proof fn lemma_start_credits_take_step(hands: Seq<PlayerHand>, dealer_bj: bool, p: int, i: int)
    requires
        0 <= i < hands.len(),
    ensures
        start_credits(hands.take(i + 1), dealer_bj, p) == start_credits(hands.take(i), dealer_bj, p)
            + if hands[i].player_index == p {
            start_credit(hands[i], dealer_bj)
        } else {
            0int
        },
{
    assert(hands.take(i + 1).drop_last() =~= hands.take(i));
    assert(hands.take(i + 1).last() == hands[i]);
}

/// Opening credits are bounded by three times the wagers they arise from.
proof fn lemma_start_credits_bound(hands: Seq<PlayerHand>, dealer_bj: bool, p: int)
    ensures
        0 <= start_credits(hands, dealer_bj, p) <= 3 * round_bets(hands),
    decreases hands.len(),
{
    if hands.len() > 0 {
        lemma_start_credits_bound(hands.drop_last(), dealer_bj, p);
        let h = hands.last();
        assert(start_credit(h, dealer_bj) <= 3 * h.bet_amount) by {
            assert(h.bet_amount * 5 / 2 <= 3 * h.bet_amount);
        }
    }
}

proof fn lemma_end_credits_take_step(hands: Seq<PlayerHand>, dealer_value: u8, p: int, i: int)
    requires
        0 <= i < hands.len(),
    ensures
        end_credits(hands.take(i + 1), dealer_value, p) == end_credits(hands.take(i), dealer_value, p)
            + if hands[i].player_index == p {
            end_credit(hands[i], dealer_value)
        } else {
            0int
        },
{
    assert(hands.take(i + 1).drop_last() =~= hands.take(i));
    assert(hands.take(i + 1).last() == hands[i]);
}

/// Settlement credits are bounded by three times the wagers they arise
/// from.
proof fn lemma_end_credits_bound(hands: Seq<PlayerHand>, dealer_value: u8, p: int)
    ensures
        0 <= end_credits(hands, dealer_value, p) <= 3 * round_bets(hands),
    decreases hands.len(),
{
    if hands.len() > 0 {
        lemma_end_credits_bound(hands.drop_last(), dealer_value, p);
    }
}

/// The opening settlement of one hand: a dealer blackjack against a plain
/// hand loses the wager with no credit; two blackjacks push and return
/// exactly the wager; a lone player blackjack keeps its status and pays
/// exactly five halves of the wager.
pub proof fn lemma_start_settlement(h: PlayerHand, dealer_bj: bool)
    ensures
        dealer_bj && h.hand.status != HandStatus::Blackjack ==> start_status(
            h.hand.status,
            dealer_bj,
        ) == HandStatus::Lose && start_credit(h, dealer_bj) == 0,
        dealer_bj && h.hand.status == HandStatus::Blackjack ==> start_status(
            h.hand.status,
            dealer_bj,
        ) == HandStatus::Push && start_credit(h, dealer_bj) == h.bet_amount,
        !dealer_bj && h.hand.status == HandStatus::Blackjack ==> start_status(
            h.hand.status,
            dealer_bj,
        ) == HandStatus::Blackjack && start_credit(h, dealer_bj) == h.bet_amount * 5 / 2,
{
}

impl Round {
    /// Replace the status of one player hand, leaving everything else as
    /// it was.
    fn set_status(&mut self, i: usize, status: HandStatus)
        requires
            i < old(self).player_hands@.len(),
        ensures
            final(self).player_hands@ == old(self).player_hands@.update(
                i as int,
                with_status(old(self).player_hands@[i as int], status),
            ),
            final(self).dealer == old(self).dealer,
            final(self).active_hand_index == old(self).active_hand_index,
    {
        let mut ph = self.player_hands.remove(i);
        ph.hand.status = status;
        self.player_hands.insert(i, ph);
        proof {
            assert(self.player_hands@ =~= old(self).player_hands@.update(
                i as int,
                with_status(old(self).player_hands@[i as int], status),
            ));
        }
    }

    /// Resolve the opening blackjacks: a dealer blackjack beats every
    /// hand but pushes against a player blackjack (returning that wager,
    /// and forcing the dealer's own status to a push); an unmatched
    /// player blackjack is paid three to two at once.
    pub fn start(&mut self, balances: &mut Vec<u64>)
        requires
            hands_wf(old(self).player_hands@, old(balances)@),
            credits_fit(old(self).player_hands@, old(balances)@),
            forall|i: int|
                0 <= i < old(self).player_hands@.len() ==> (#[trigger] old(self).player_hands@[i]).hand.value <= 21,
        ensures
            final(self).active_hand_index == old(self).active_hand_index,
            final(self).player_hands@.len() == old(self).player_hands@.len(),
            final(balances)@.len() == old(balances)@.len(),
            hands_wf(final(self).player_hands@, final(balances)@),
            forall|i: int|
                0 <= i < old(self).player_hands@.len() ==> final(self).player_hands@[i]
                    == with_status(
                    #[trigger] old(self).player_hands@[i],
                    start_status(
                        old(self).player_hands@[i].hand.status,
                        old(self).dealer.status == HandStatus::Blackjack,
                    ),
                ),
            forall|p: int|
                0 <= p < old(balances)@.len() ==> final(balances)@[p] == old(balances)@[p]
                    + start_credits(
                    old(self).player_hands@,
                    old(self).dealer.status == HandStatus::Blackjack,
                    p,
                ),
            final(self).dealer == (Hand {
                status: if old(self).dealer.status == HandStatus::Blackjack && (exists|i: int|
                    0 <= i < old(self).player_hands@.len() && (#[trigger] old(self).player_hands@[i]).hand.status == HandStatus::Blackjack) {
                    HandStatus::Push
                } else {
                    old(self).dealer.status
                },
                ..old(self).dealer
            }),
    {
        let ghost hands0 = self.player_hands@;
        let ghost bals0 = balances@;
        let ghost dbj = old(self).dealer.status == HandStatus::Blackjack;
        let dealer_bj = matches!(self.dealer.status, HandStatus::Blackjack);
        let n = self.player_hands.len();
        let mut any_player_bj = false;
        let mut i: usize = 0;
        while i < n
            invariant
                0 <= i <= n,
                n == hands0.len(),
                self.player_hands@.len() == n,
                balances@.len() == bals0.len(),
                self.dealer == old(self).dealer,
                self.active_hand_index == old(self).active_hand_index,
                dealer_bj == dbj,
                hands_wf(hands0, bals0),
                credits_fit(hands0, bals0),
                forall|k: int| 0 <= k < hands0.len() ==> (#[trigger] hands0[k]).hand.value <= 21,
                forall|k: int|
                    0 <= k < i ==> self.player_hands@[k] == with_status(
                        #[trigger] hands0[k],
                        start_status(hands0[k].hand.status, dbj),
                    ),
                forall|k: int| i <= k < n ==> self.player_hands@[k] == hands0[k],
                forall|p: int|
                    0 <= p < bals0.len() ==> balances@[p] == bals0[p] + start_credits(
                        hands0.take(i as int),
                        dbj,
                        p,
                    ),
                any_player_bj == exists|k: int|
                    0 <= k < i && (#[trigger] hands0[k]).hand.status == HandStatus::Blackjack,
            decreases n - i,
        {
            let st = self.player_hands[i].hand.status;
            let idx = self.player_hands[i].player_index;
            let bet = self.player_hands[i].bet_amount;
            let player_bj = matches!(st, HandStatus::Blackjack);
            proof {
                lemma_round_bets_take_le(hands0, i as int);
                lemma_round_bets_take_le(hands0, i + 1);
                lemma_round_bets_take_step(hands0, i as int);
                lemma_start_credits_bound(hands0.take(i as int), dbj, idx as int);
                lemma_start_credits_bound(hands0.take(i + 1), dbj, idx as int);
                assert forall|p: int| 0 <= p < bals0.len() implies bals0[p] + start_credits(
                    hands0.take(i + 1),
                    dbj,
                    p,
                ) <= u64::MAX by {
                    lemma_start_credits_bound(hands0.take(i + 1), dbj, p);
                }
                lemma_start_credits_take_step(hands0, dbj, idx as int, i as int);
                assert(bet * 5 / 2 <= 3 * (bet as int));
            }
            if player_bj {
                any_player_bj = true;
            }
            if dealer_bj && player_bj {
                let bal = balances[idx];
                balances[idx] = bal + bet;
                self.set_status(i, HandStatus::Push);
            } else if dealer_bj {
                self.set_status(i, HandStatus::Lose);
            } else if player_bj {
                let bal = balances[idx];
                let credit = (((bet as u128) * 5) / 2) as u64;
                balances[idx] = bal + credit;
            }
            i = i + 1;
            proof {
                assert forall|p: int| 0 <= p < bals0.len() implies balances@[p] == bals0[p]
                    + start_credits(hands0.take(i as int), dbj, p) by {
                    lemma_start_credits_take_step(hands0, dbj, p, i - 1);
                }
            }
        }
        proof {
            assert(hands0.take(n as int) =~= hands0);
            assert forall|k: int| 0 <= k < self.player_hands@.len() implies (#[trigger] self
                .player_hands@[k]).wf_in(balances@) by {
                assert(hands0[k].wf_in(bals0));
                assert(hands0[k].hand.value <= 21);
            }
        }
        if dealer_bj && any_player_bj {
            self.dealer.status = HandStatus::Push;
        }
    }

    /// Advance the cursor past every hand that can no longer act (settled
    /// status or frozen at 21), stopping at the first hand still eligible.
    /// Returns whether such a hand exists; otherwise the cursor rests at
    /// the end and the round is concluded.
    pub fn update_active_hand_index(&mut self) -> (active: bool)
        requires
            old(self).active_hand_index <= old(self).player_hands@.len(),
        ensures
            final(self).player_hands == old(self).player_hands,
            final(self).dealer == old(self).dealer,
            old(self).active_hand_index <= final(self).active_hand_index,
            final(self).active_hand_index <= final(self).player_hands@.len(),
            forall|j: int|
                old(self).active_hand_index <= j < final(self).active_hand_index ==> !eligible(
                    #[trigger] final(self).player_hands@[j],
                ),
            active == (final(self).active_hand_index < final(self).player_hands@.len()),
            active ==> eligible(
                final(self).player_hands@[final(self).active_hand_index as int],
            ),
    {
        let n = self.player_hands.len();
        while self.active_hand_index < n
            invariant
                n == self.player_hands@.len(),
                self.player_hands == old(self).player_hands,
                self.dealer == old(self).dealer,
                old(self).active_hand_index <= self.active_hand_index <= n,
                forall|j: int|
                    old(self).active_hand_index <= j < self.active_hand_index ==> !eligible(
                        #[trigger] self.player_hands@[j],
                    ),
            decreases n - self.active_hand_index,
        {
            let i = self.active_hand_index;
            let st = self.player_hands[i].hand.status;
            let v = self.player_hands[i].hand.value;
            if matches!(st, HandStatus::Value) && v != 21 {
                return true;
            }
            self.active_hand_index = i + 1;
        }
        false
    }

    /// Apply one offered action to the active hand; a split inserts the
    /// new sibling hand immediately after it.
    pub fn apply_action<S: Shoe>(
        &mut self,
        action: Action,
        shoe: &mut S,
        balances: &mut Vec<u64>,
    )
        requires
            old(self).active_hand_index < old(self).player_hands@.len(),
            hands_wf(old(self).player_hands@, old(balances)@),
            old(self).player_hands@[old(self).active_hand_index as int].action_offered(
                old(self).player_hands@[old(self).active_hand_index as int].balance_of(
                    old(balances)@,
                ),
                action,
            ),
            old(shoe).inv(),
            old(shoe).avail() >= 2,
            action == Action::Double ==> old(self).player_hands@[old(self).active_hand_index as int].bet_amount <= u64::MAX / 2,
            action == Action::Surrender ==> old(self).player_hands@[old(self).active_hand_index as int].balance_of(old(balances)@) + old(self).player_hands@[old(self).active_hand_index as int].bet_amount / 2 <= u64::MAX,
        ensures
            final(shoe).inv(),
            final(self).dealer == old(self).dealer,
            final(self).active_hand_index == old(self).active_hand_index,
            final(balances)@.len() == old(balances)@.len(),
            hands_wf(final(self).player_hands@, final(balances)@),
            action != Action::Split ==> {
                &&& final(self).player_hands@ == old(self).player_hands@.update(
                    old(self).active_hand_index as int,
                    final(self).player_hands@[old(self).active_hand_index as int],
                )
                &&& action_post(
                    old(self).player_hands@[old(self).active_hand_index as int],
                    old(balances)@,
                    action,
                    final(self).player_hands@[old(self).active_hand_index as int],
                    final(balances)@,
                    None::<PlayerHand>,
                )
            },
            action == Action::Split ==> {
                &&& final(self).player_hands@ == old(self).player_hands@.update(
                    old(self).active_hand_index as int,
                    final(self).player_hands@[old(self).active_hand_index as int],
                ).insert(
                    old(self).active_hand_index + 1,
                    final(self).player_hands@[old(self).active_hand_index + 1],
                )
                &&& action_post(
                    old(self).player_hands@[old(self).active_hand_index as int],
                    old(balances)@,
                    action,
                    final(self).player_hands@[old(self).active_hand_index as int],
                    final(balances)@,
                    Some(final(self).player_hands@[old(self).active_hand_index + 1]),
                )
            },
    {
        let n = self.player_hands.len();
        let i = self.active_hand_index;
        let mut ph = self.player_hands.remove(i);
        let outcome = ph.take_action(action, shoe, balances);
        self.player_hands.insert(i, ph);
        match outcome {
            Some(new_hand) => {
                self.player_hands.insert(i + 1, new_hand);
                proof {
                    assert(self.player_hands@ =~= old(self).player_hands@.update(
                        i as int,
                        self.player_hands@[i as int],
                    ).insert(i + 1, self.player_hands@[i + 1]));
                }
            },
            None => {
                proof {
                    assert(self.player_hands@ =~= old(self).player_hands@.update(
                        i as int,
                        self.player_hands@[i as int],
                    ));
                }
            },
        }
    }

    /// Settle every stood hand against the dealer's final total and pay
    /// the winnings: a busted dealer loses to each of them, a higher
    /// total wins twice the wager, an equal total returns it.
    pub fn end(&mut self, balances: &mut Vec<u64>)
        requires
            hands_wf(old(self).player_hands@, old(balances)@),
            credits_fit(old(self).player_hands@, old(balances)@),
        ensures
            final(self).dealer == old(self).dealer,
            final(self).active_hand_index == old(self).active_hand_index,
            final(self).player_hands@.len() == old(self).player_hands@.len(),
            final(balances)@.len() == old(balances)@.len(),
            hands_wf(final(self).player_hands@, final(balances)@),
            forall|i: int|
                0 <= i < old(self).player_hands@.len() ==> final(self).player_hands@[i]
                    == with_status(
                    #[trigger] old(self).player_hands@[i],
                    end_status(old(self).player_hands@[i], old(self).dealer.value),
                ),
            forall|p: int|
                0 <= p < old(balances)@.len() ==> final(balances)@[p] == old(balances)@[p]
                    + end_credits(old(self).player_hands@, old(self).dealer.value, p),
    {
        let ghost hands0 = self.player_hands@;
        let ghost bals0 = balances@;
        let dealer_value = self.dealer.value;
        let n = self.player_hands.len();
        let mut i: usize = 0;
        while i < n
            invariant
                0 <= i <= n,
                n == hands0.len(),
                self.player_hands@.len() == n,
                balances@.len() == bals0.len(),
                self.dealer == old(self).dealer,
                dealer_value == old(self).dealer.value,
                self.active_hand_index == old(self).active_hand_index,
                hands_wf(hands0, bals0),
                credits_fit(hands0, bals0),
                forall|k: int|
                    0 <= k < i ==> self.player_hands@[k] == with_status(
                        #[trigger] hands0[k],
                        end_status(hands0[k], dealer_value),
                    ),
                forall|k: int| i <= k < n ==> self.player_hands@[k] == hands0[k],
                forall|p: int|
                    0 <= p < bals0.len() ==> balances@[p] == bals0[p] + end_credits(
                        hands0.take(i as int),
                        dealer_value,
                        p,
                    ),
            decreases n - i,
        {
            let st = self.player_hands[i].hand.status;
            let v = self.player_hands[i].hand.value;
            let idx = self.player_hands[i].player_index;
            let bet = self.player_hands[i].bet_amount;
            proof {
                lemma_round_bets_take_le(hands0, i as int);
                lemma_round_bets_take_le(hands0, i + 1);
                lemma_round_bets_take_step(hands0, i as int);
                assert forall|p: int| 0 <= p < bals0.len() implies bals0[p] + end_credits(
                    hands0.take(i + 1),
                    dealer_value,
                    p,
                ) <= u64::MAX by {
                    lemma_end_credits_bound(hands0.take(i + 1), dealer_value, p);
                }
                lemma_end_credits_bound(hands0.take(i as int), dealer_value, idx as int);
                lemma_end_credits_take_step(hands0, dealer_value, idx as int, i as int);
            }
            if matches!(st, HandStatus::Stood) {
                if dealer_value > 21 || v > dealer_value {
                    self.set_status(i, HandStatus::Win);
                    let bal = balances[idx];
                    balances[idx] = bal + bet * 2;
                } else if v == dealer_value {
                    self.set_status(i, HandStatus::Push);
                    let bal = balances[idx];
                    balances[idx] = bal + bet;
                } else {
                    self.set_status(i, HandStatus::Lose);
                }
            }
            i = i + 1;
            proof {
                assert forall|p: int| 0 <= p < bals0.len() implies balances@[p] == bals0[p]
                    + end_credits(hands0.take(i as int), dealer_value, p) by {
                    lemma_end_credits_take_step(hands0, dealer_value, p, i - 1);
                }
            }
        }
        proof {
            assert(hands0.take(n as int) =~= hands0);
            assert forall|k: int| 0 <= k < self.player_hands@.len() implies (#[trigger] self
                .player_hands@[k]).wf_in(balances@) by {
                assert(hands0[k].wf_in(bals0));
            }
        }
    }

    /// Close the round: unless every hand already busted or surrendered,
    /// run the dealer's draw policy and settle the table. When nothing is
    /// left to settle, the dealer never draws and nothing changes.
    pub fn finish<S: Shoe>(&mut self, shoe: &mut S, balances: &mut Vec<u64>)
        requires
            hands_wf(old(self).player_hands@, old(balances)@),
            credits_fit(old(self).player_hands@, old(balances)@),
            old(self).dealer.wf(),
            old(self).dealer.value <= 21,
            old(shoe).inv(),
            old(shoe).avail() >= 17,
        ensures
            final(shoe).inv(),
            final(balances)@.len() == old(balances)@.len(),
            final(self).player_hands@.len() == old(self).player_hands@.len(),
            final(self).active_hand_index == old(self).active_hand_index,
            hands_wf(final(self).player_hands@, final(balances)@),
            all_done(old(self).player_hands@) ==> *final(self) == *old(self) && final(balances)@
                == old(balances)@,
            !all_done(old(self).player_hands@) ==> {
                &&& final(self).dealer.wf()
                &&& 17 <= final(self).dealer.value <= 26
                &&& (old(self).dealer.value >= 17 ==> final(self).dealer == old(self).dealer)
                &&& (forall|i: int|
                    0 <= i < old(self).player_hands@.len() ==> final(self).player_hands@[i]
                        == with_status(
                        #[trigger] old(self).player_hands@[i],
                        end_status(old(self).player_hands@[i], final(self).dealer.value),
                    ))
                &&& (forall|p: int|
                    0 <= p < old(balances)@.len() ==> final(balances)@[p] == old(balances)@[p]
                        + end_credits(
                        old(self).player_hands@,
                        final(self).dealer.value,
                        p,
                    ))
            },
    {
        let n = self.player_hands.len();
        let mut someone_live = false;
        let mut i: usize = 0;
        while i < n
            invariant
                0 <= i <= n,
                n == self.player_hands@.len(),
                someone_live == !(forall|k: int|
                    0 <= k < i ==> ((#[trigger] self.player_hands@[k]).hand.status
                        == HandStatus::Bust || self.player_hands@[k].hand.status
                        == HandStatus::Surrender)),
            decreases n - i,
        {
            let st = self.player_hands[i].hand.status;
            if !(matches!(st, HandStatus::Bust) || matches!(st, HandStatus::Surrender)) {
                someone_live = true;
            }
            i = i + 1;
        }
        if someone_live {
            self.dealer.dealer_turn(shoe);
            self.end(balances);
        }
    }
}

} // verus!
