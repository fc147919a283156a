//! The session ledger: per-player balances and the bets staged for the
//! next deal, with every mutation rejecting anything that would drive a
//! balance negative, plus construction of a round from the staged bets.

use vstd::prelude::*;
use vstd::assert_seqs_equal;
use crate::action::Action;
use crate::hand::Hand;
use crate::hand::HandStatus;
use crate::hand::hand_value;
use crate::player_hand::PlayerHand;
use crate::player_hand::action_post;
use crate::player_hand::with_status;
use crate::round::Round;
use crate::round::all_done;
use crate::round::credits_fit;
use crate::round::end_credits;
use crate::round::end_status;
use crate::round::hands_wf;
use crate::round::round_bets;
use crate::round::start_credits;
use crate::round::start_status;
use crate::shoe::Shoe;

verus! {

#[derive(PartialEq, Eq, Structural, Copy, Clone, Debug)]
pub enum PlayerBalanceError {
    PlayerDoesNotExist,
    HandDoesNotExist,
    BalanceCannotBeNegative,
}

/// Sum of one player's staged bets.
pub open spec fn bets_sum(bets: Seq<u64>) -> int
    decreases bets.len(),
{
    if bets.len() == 0 {
        0
    } else {
        bets_sum(bets.drop_last()) + bets.last()
    }
}

/// What one player's staged bets become when the balance is checked
/// against them: bets the balance can no longer cover are replaced by the
/// minimal safe default of one zero bet.
pub open spec fn reset_slot(bets: Seq<u64>, balance: u64) -> Seq<u64> {
    if bets_sum(bets) > balance {
        seq![0u64]
    } else {
        bets
    }
}

/// Number of hands the staged bets will deal.
pub open spec fn num_hands(bets: Seq<Seq<u64>>) -> int
    decreases bets.len(),
{
    if bets.len() == 0 {
        0
    } else {
        num_hands(bets.drop_last()) + bets.last().len()
    }
}

/// Total money staged across all players.
pub open spec fn bets_total(bets: Seq<Seq<u64>>) -> int
    decreases bets.len(),
{
    if bets.len() == 0 {
        0
    } else {
        bets_total(bets.drop_last()) + bets_sum(bets.last())
    }
}

/// One player's bets tagged with the player's slot.
pub open spec fn row_pairs(row: Seq<u64>, p: int) -> Seq<(int, u64)> {
    row.map_values(|a: u64| (p, a))
}

/// The staged bets flattened to (player slot, amount) pairs, in deal
/// order: players in slot order, a player's hands in staging order.
pub open spec fn flat_bets(bets: Seq<Seq<u64>>) -> Seq<(int, u64)>
    decreases bets.len(),
{
    if bets.len() == 0 {
        Seq::<(int, u64)>::empty()
    } else {
        flat_bets(bets.drop_last()) + row_pairs(bets.last(), bets.len() - 1)
    }
}

proof fn lemma_bets_sum_nonneg(bets: Seq<u64>)
    ensures
        bets_sum(bets) >= 0,
    decreases bets.len(),
{
    if bets.len() > 0 {
        lemma_bets_sum_nonneg(bets.drop_last());
    }
}

proof fn lemma_bets_sum_take_step(bets: Seq<u64>, i: int)
    requires
        0 <= i < bets.len(),
    ensures
        bets_sum(bets.take(i + 1)) == bets_sum(bets.take(i)) + bets[i],
{
    assert(bets.take(i + 1).drop_last() =~= bets.take(i));
    assert(bets.take(i + 1).last() == bets[i]);
}

proof fn lemma_bets_sum_take_le(bets: Seq<u64>, i: int)
    requires
        0 <= i <= bets.len(),
    ensures
        0 <= bets_sum(bets.take(i)) <= bets_sum(bets),
    decreases bets.len() - i,
{
    lemma_bets_sum_nonneg(bets.take(i));
    if i == bets.len() {
        assert(bets.take(i) =~= bets);
    } else {
        lemma_bets_sum_take_step(bets, i);
        lemma_bets_sum_take_le(bets, i + 1);
    }
}

/// Whether the staged bets of one player exceed a balance, computed
/// without ever overflowing: walk the bets, spending the balance.
fn bets_exceed(bets: &Vec<u64>, balance: u64) -> (exceed: bool)
    ensures
        exceed == (bets_sum(bets@) > balance),
{
    let mut remaining = balance;
    let n = bets.len();
    let mut i: usize = 0;
    while i < n
        invariant
            0 <= i <= n,
            n == bets@.len(),
            remaining <= balance,
            bets_sum(bets@.take(i as int)) == balance - remaining,
        decreases n - i,
    {
        proof {
            lemma_bets_sum_take_step(bets@, i as int);
        }
        let b = bets[i];
        if b > remaining {
            proof {
                lemma_bets_sum_take_le(bets@, i + 1);
            }
            return true;
        }
        remaining = remaining - b;
        i = i + 1;
    }
    proof {
        assert(bets@.take(n as int) =~= bets@);
    }
    false
}

/// The session: per-player balances, which persist across rounds, and the
/// bets staged for the next deal.
pub struct Game {
    player_balances: Vec<u64>,
    player_bets: Vec<Vec<u64>>,
}

impl Game {
    /// The balance of each player slot.
    pub closed spec fn balances(&self) -> Seq<u64> {
        self.player_balances@
    }

    /// The staged bets of each player slot.
    pub closed spec fn bets(&self) -> Seq<Seq<u64>> {
        self.player_bets@.map_values(|row: Vec<u64>| row@)
    }

    /// Every balance slot has a bet row.
    pub open spec fn wf(&self) -> bool {
        self.balances().len() <= self.bets().len()
    }

    /// A fresh session with no players.
    pub fn new() -> (game: Game)
        ensures
            game.balances() == Seq::<u64>::empty(),
            game.bets() == Seq::<Seq<u64>>::empty(),
            game.wf(),
    {
        let game = Game { player_balances: Vec::new(), player_bets: Vec::new() };
        proof {
            assert(game.bets() =~~= Seq::<Seq<u64>>::empty());
        }
        game
    }

    /// A copy of every balance, in slot order.
    pub fn get_player_balances(&self) -> (balances: Vec<u64>)
        ensures
            balances@ == self.balances(),
    {
        let mut out: Vec<u64> = Vec::new();
        let n = self.player_balances.len();
        let mut i: usize = 0;
        while i < n
            invariant
                0 <= i <= n,
                n == self.balances().len(),
                out@ == self.balances().take(i as int),
            decreases n - i,
        {
            out.push(self.player_balances[i]);
            i = i + 1;
            proof {
                assert(out@ =~= self.balances().take(i as int));
            }
        }
        proof {
            assert(self.balances().take(n as int) =~= self.balances());
        }
        out
    }

    /// Replace every balance. Balances are unsigned, so no request can be
    /// negative and the operation always succeeds; the staged bets of
    /// every slot are then checked against the new balances, and every
    /// slot gains a bet row if it had none.
    pub fn set_player_balances(&mut self, player_balances: Vec<u64>) -> (result: Result<
        (),
        PlayerBalanceError,
    >)
        ensures
            result is Ok,
            final(self).balances() == player_balances@,
            final(self).wf(),
            final(self).bets().len() == (if old(self).bets().len() >= player_balances@.len() {
                old(self).bets().len() as int
            } else {
                player_balances@.len() as int
            }),
            forall|i: int|
                0 <= i < player_balances@.len() ==> (#[trigger] final(self).bets()[i]) == (if i
                    < old(self).bets().len() {
                    reset_slot(old(self).bets()[i], player_balances@[i])
                } else {
                    seq![0u64]
                }),
            forall|i: int|
                player_balances@.len() <= i < old(self).bets().len() ==> final(self).bets()[i]
                    == old(self).bets()[i],
    {
        self.player_balances = player_balances;
        self.reset_bets();
        Ok(())
    }

    /// Check every player's staged bets against the current balances,
    /// resetting any that are no longer covered and creating a bet row
    /// for any slot that has none.
    pub fn reset_bets(&mut self)
        ensures
            final(self).balances() == old(self).balances(),
            final(self).wf(),
            final(self).bets().len() == (if old(self).bets().len() >= old(self).balances().len() {
                old(self).bets().len() as int
            } else {
                old(self).balances().len() as int
            }),
            forall|i: int|
                0 <= i < old(self).balances().len() ==> (#[trigger] final(self).bets()[i]) == (if
                    i < old(self).bets().len() {
                    reset_slot(old(self).bets()[i], old(self).balances()[i])
                } else {
                    seq![0u64]
                }),
            forall|i: int|
                old(self).balances().len() <= i < old(self).bets().len() ==> final(self).bets()[i] == old(self).bets()[i],
    {
        let n = self.player_balances.len();
        let mut i: usize = 0;
        while i < n
            invariant
                0 <= i <= n,
                n == self.balances().len(),
                self.balances() == old(self).balances(),
                self.bets().len() == (if old(self).bets().len() >= i as int {
                    old(self).bets().len() as int
                } else {
                    i as int
                }),
                forall|k: int|
                    0 <= k < i ==> (#[trigger] self.bets()[k]) == (if k < old(self).bets().len() {
                        reset_slot(old(self).bets()[k], old(self).balances()[k])
                    } else {
                        seq![0u64]
                    }),
                forall|k: int|
                    i as int <= k < old(self).bets().len() ==> self.bets()[k] == old(self).bets()[k],
            decreases n - i,
        {
            let ghost prev_bets = self.bets();
            self.reset_bet(i);
            i = i + 1;
            proof {
                let ol = old(self).bets().len() as int;
                assert forall|k: int| 0 <= k < i implies (#[trigger] self.bets()[k]) == (if k
                    < old(self).bets().len() {
                    reset_slot(old(self).bets()[k], old(self).balances()[k])
                } else {
                    seq![0u64]
                }) by {
                    if k == i - 1 {
                        if k < ol {
                            assert(prev_bets[k] == old(self).bets()[k]);
                            assert(self.bets() == prev_bets.update(
                                k,
                                reset_slot(prev_bets[k], old(self).balances()[k]),
                            ));
                        } else {
                            assert(prev_bets.len() == k);
                            assert(self.bets() == prev_bets.push(seq![0u64]));
                        }
                    } else {
                        if k < ol {
                            assert(prev_bets[k] == reset_slot(
                                old(self).bets()[k],
                                old(self).balances()[k],
                            ));
                        } else {
                            assert(prev_bets[k] == seq![0u64]);
                        }
                        assert(self.bets()[k] == prev_bets[k]);
                    }
                }
            }
        }
    }

    /// Check one player's staged bets against that player's balance.
    fn reset_bet(&mut self, index: usize)
        requires
            index < old(self).balances().len(),
            index <= old(self).bets().len(),
        ensures
            final(self).balances() == old(self).balances(),
            index < old(self).bets().len() ==> final(self).bets() == old(self).bets().update(
                index as int,
                reset_slot(old(self).bets()[index as int], old(self).balances()[index as int]),
            ),
            index == old(self).bets().len() ==> final(self).bets() == old(self).bets().push(
                seq![0u64],
            ),
    {
        if index == self.player_bets.len() {
            self.player_bets.push(vec![0u64]);
            proof {
                assert(self.bets() =~~= old(self).bets().push(seq![0u64]));
            }
        } else {
            let exceed = bets_exceed(&self.player_bets[index], self.player_balances[index]);
            if exceed {
                self.player_bets[index] = vec![0u64];
            }
            proof {
                if exceed {
                    assert(self.bets() =~~= old(self).bets().update(
                        index as int,
                        reset_slot(
                            old(self).bets()[index as int],
                            old(self).balances()[index as int],
                        ),
                    ));
                } else {
                    assert(self.bets() =~~= old(self).bets());
                    assert(old(self).bets().update(
                        index as int,
                        reset_slot(
                            old(self).bets()[index as int],
                            old(self).balances()[index as int],
                        ),
                    ) =~~= old(self).bets());
                }
            }
        }
    }

    /// The balance of one player slot; asking for a slot that does not
    /// exist is reported, not answered.
    pub fn get_player_balance(&self, player_index: usize) -> (result: Result<
        u64,
        PlayerBalanceError,
    >)
        ensures
            player_index < self.balances().len() ==> result == Result::<
                u64,
                PlayerBalanceError,
            >::Ok(self.balances()[player_index as int]),
            player_index >= self.balances().len() ==> result == Result::<
                u64,
                PlayerBalanceError,
            >::Err(PlayerBalanceError::PlayerDoesNotExist),
    {
        if player_index < self.player_balances.len() {
            Ok(self.player_balances[player_index])
        } else {
            Err(PlayerBalanceError::PlayerDoesNotExist)
        }
    }

    /// Set one player's balance. The slot must exist; the player's staged
    /// bets are then checked against the new balance.
    pub fn set_player_balance(&mut self, player_index: usize, new_balance: u64) -> (result:
        Result<(), PlayerBalanceError>)
        requires
            old(self).wf(),
        ensures
            final(self).wf(),
            player_index >= old(self).balances().len() ==> result == Result::<
                (),
                PlayerBalanceError,
            >::Err(PlayerBalanceError::PlayerDoesNotExist) && *final(self) == *old(self),
            player_index < old(self).balances().len() ==> {
                &&& result is Ok
                &&& final(self).balances() == old(self).balances().update(
                    player_index as int,
                    new_balance,
                )
                &&& final(self).bets() == old(self).bets().update(
                    player_index as int,
                    reset_slot(old(self).bets()[player_index as int], new_balance),
                )
            },
    {
        if player_index >= self.player_balances.len() {
            return Err(PlayerBalanceError::PlayerDoesNotExist);
        }
        self.player_balances[player_index] = new_balance;
        self.reset_bet(player_index);
        Ok(())
    }

    /// Add a signed amount to one player's balance, rejecting any debit
    /// the balance cannot cover; the player's staged bets are then checked
    /// against the new balance.
    pub fn modify_player_balance(&mut self, player_index: usize, amount: i64) -> (result: Result<
        (),
        PlayerBalanceError,
    >)
        requires
            old(self).wf(),
            player_index < old(self).balances().len() && amount > 0 ==> old(self).balances()[player_index as int] + amount <= u64::MAX,
        ensures
            final(self).wf(),
            player_index >= old(self).balances().len() ==> result == Result::<
                (),
                PlayerBalanceError,
            >::Err(PlayerBalanceError::PlayerDoesNotExist) && *final(self) == *old(self),
            player_index < old(self).balances().len() && amount < 0 && -(amount as int) > old(self).balances()[player_index as int] ==> result == Result::<
                (),
                PlayerBalanceError,
            >::Err(PlayerBalanceError::BalanceCannotBeNegative) && *final(self) == *old(self),
            player_index < old(self).balances().len() && -(amount as int) <= old(self).balances()[player_index as int] ==> {
                &&& result is Ok
                &&& final(self).balances() == old(self).balances().update(
                    player_index as int,
                    (old(self).balances()[player_index as int] + amount) as u64,
                )
                &&& final(self).bets() == old(self).bets().update(
                    player_index as int,
                    reset_slot(
                        old(self).bets()[player_index as int],
                        (old(self).balances()[player_index as int] + amount) as u64,
                    ),
                )
            },
    {
        if player_index >= self.player_balances.len() {
            return Err(PlayerBalanceError::PlayerDoesNotExist);
        }
        let bal = self.player_balances[player_index];
        if amount >= 0 {
            self.player_balances[player_index] = bal + (amount as u64);
        } else {
            let magnitude = ((-(amount + 1)) as u64) + 1;
            if magnitude > bal {
                return Err(PlayerBalanceError::BalanceCannotBeNegative);
            }
            self.player_balances[player_index] = bal - magnitude;
        }
        self.reset_bet(player_index);
        Ok(())
    }

    /// The bet staged for one hand of one player.
    pub fn get_bet(&self, player_index: usize, hand_index: usize) -> (result: Result<
        u64,
        PlayerBalanceError,
    >)
        requires
            self.wf(),
        ensures
            player_index >= self.balances().len() ==> result == Result::<
                u64,
                PlayerBalanceError,
            >::Err(PlayerBalanceError::PlayerDoesNotExist),
            player_index < self.balances().len() && hand_index
                >= self.bets()[player_index as int].len() ==> result == Result::<
                u64,
                PlayerBalanceError,
            >::Err(PlayerBalanceError::HandDoesNotExist),
            player_index < self.balances().len() && hand_index < self.bets()[
                player_index as int].len() ==> result == Result::<
                u64,
                PlayerBalanceError,
            >::Ok(self.bets()[player_index as int][hand_index as int]),
    {
        if player_index >= self.player_balances.len() {
            return Err(PlayerBalanceError::PlayerDoesNotExist);
        }
        let row = &self.player_bets[player_index];
        if hand_index >= row.len() {
            return Err(PlayerBalanceError::HandDoesNotExist);
        }
        Ok(row[hand_index])
    }

    /// Stage a bet for an existing hand slot, debiting the full amount
    /// from the balance at once; a bet the balance cannot cover is
    /// rejected.
    pub fn set_bet(&mut self, player_index: usize, hand_index: usize, amount: u64) -> (result:
        Result<(), PlayerBalanceError>)
        requires
            old(self).wf(),
            set_bet_ok(*old(self), player_index as int, hand_index as int, amount) && bets_sum(
                old(self).bets()[player_index as int],
            ) > old(self).balances()[player_index as int] - amount ==> hand_index == 0,
        ensures
            final(self).wf(),
            player_index >= old(self).balances().len() ==> result == Result::<
                (),
                PlayerBalanceError,
            >::Err(PlayerBalanceError::PlayerDoesNotExist) && *final(self) == *old(self),
            player_index < old(self).balances().len() && hand_index >= old(self).bets()[
                player_index as int].len() ==> result == Result::<
                (),
                PlayerBalanceError,
            >::Err(PlayerBalanceError::HandDoesNotExist) && *final(self) == *old(self),
            player_index < old(self).balances().len() && hand_index < old(self).bets()[
                player_index as int].len() && amount > old(self).balances()[player_index as int]
                ==> result == Result::<(), PlayerBalanceError>::Err(
                PlayerBalanceError::BalanceCannotBeNegative,
            ) && *final(self) == *old(self),
            set_bet_ok(*old(self), player_index as int, hand_index as int, amount) ==> {
                &&& result is Ok
                &&& final(self).balances() == old(self).balances().update(
                    player_index as int,
                    (old(self).balances()[player_index as int] - amount) as u64,
                )
                &&& final(self).bets() == old(self).bets().update(
                    player_index as int,
                    reset_slot(
                        old(self).bets()[player_index as int],
                        (old(self).balances()[player_index as int] - amount) as u64,
                    ).update(hand_index as int, amount),
                )
            },
    {
        if player_index >= self.player_balances.len() {
            return Err(PlayerBalanceError::PlayerDoesNotExist);
        }
        if hand_index >= self.player_bets[player_index].len() {
            return Err(PlayerBalanceError::HandDoesNotExist);
        }
        let bal = self.player_balances[player_index];
        if amount > bal {
            return Err(PlayerBalanceError::BalanceCannotBeNegative);
        }
        self.player_balances[player_index] = bal - amount;
        self.reset_bet(player_index);
        proof {
            assert(set_bet_ok(*old(self), player_index as int, hand_index as int, amount));
            assert(self.bets().len() == old(self).bets().len());
            assert(self.bets()[player_index as int] == reset_slot(
                old(self).bets()[player_index as int],
                (old(self).balances()[player_index as int] - amount) as u64,
            ));
            assert(hand_index < self.bets()[player_index as int].len());
        }
        let ghost raw1 = self.player_bets@;
        let ghost view1 = self.bets();
        let mut row = self.player_bets.remove(player_index);
        row[hand_index] = amount;
        proof {
            assert(row@ == view1[player_index as int].update(hand_index as int, amount));
        }
        self.player_bets.insert(player_index, row);
        proof {
            let p = player_index as int;
            assert(self.player_bets@ =~= raw1.update(p, self.player_bets@[p]));
            assert forall|q: int| 0 <= q < self.bets().len() && q != p implies self.bets()[q]
                == view1[q] by {
                assert(self.bets()[q] == self.player_bets@[q]@);
                assert(self.player_bets@[q] == raw1[q]);
                assert(view1[q] == raw1[q]@);
            }
            assert(self.bets()[p] == self.player_bets@[p]@);
            assert(self.bets()[p] == view1[p].update(hand_index as int, amount));
            let target = old(self).bets().update(
                p,
                reset_slot(
                    old(self).bets()[p],
                    (old(self).balances()[p] - amount) as u64,
                ).update(hand_index as int, amount),
            );
            assert_seqs_equal!(self.bets() == target, q => {
                if q == p {
                    assert(view1[p] == reset_slot(
                        old(self).bets()[p],
                        (old(self).balances()[p] - amount) as u64,
                    ));
                } else {
                    assert(self.bets()[q] == view1[q]);
                    assert(view1[q] == old(self).bets()[q]);
                }
            });
        }
        Ok(())
    }

    /// Stage one more bet for a player, debiting it from the balance at
    /// once; a bet the balance cannot cover is rejected.
    pub fn add_bet(&mut self, player_index: usize, amount: u64) -> (result: Result<
        (),
        PlayerBalanceError,
    >)
        requires
            old(self).wf(),
        ensures
            final(self).wf(),
            player_index >= old(self).balances().len() ==> result == Result::<
                (),
                PlayerBalanceError,
            >::Err(PlayerBalanceError::PlayerDoesNotExist) && *final(self) == *old(self),
            player_index < old(self).balances().len() && amount > old(self).balances()[
                player_index as int] ==> result == Result::<(), PlayerBalanceError>::Err(
                PlayerBalanceError::BalanceCannotBeNegative,
            ) && *final(self) == *old(self),
            player_index < old(self).balances().len() && amount <= old(self).balances()[
                player_index as int] ==> {
                &&& result is Ok
                &&& final(self).balances() == old(self).balances().update(
                    player_index as int,
                    (old(self).balances()[player_index as int] - amount) as u64,
                )
                &&& final(self).bets() == old(self).bets().update(
                    player_index as int,
                    reset_slot(
                        old(self).bets()[player_index as int],
                        (old(self).balances()[player_index as int] - amount) as u64,
                    ).push(amount),
                )
            },
    {
        if player_index >= self.player_balances.len() {
            return Err(PlayerBalanceError::PlayerDoesNotExist);
        }
        let bal = self.player_balances[player_index];
        if amount > bal {
            return Err(PlayerBalanceError::BalanceCannotBeNegative);
        }
        self.player_balances[player_index] = bal - amount;
        self.reset_bet(player_index);
        proof {
            assert(self.bets().len() == old(self).bets().len());
        }
        let ghost raw1 = self.player_bets@;
        let ghost view1 = self.bets();
        let mut row = self.player_bets.remove(player_index);
        row.push(amount);
        proof {
            assert(row@ == view1[player_index as int].push(amount));
        }
        self.player_bets.insert(player_index, row);
        proof {
            let p = player_index as int;
            assert(self.player_bets@ =~= raw1.update(p, self.player_bets@[p]));
            assert forall|q: int| 0 <= q < self.bets().len() && q != p implies self.bets()[q]
                == view1[q] by {
                assert(self.bets()[q] == self.player_bets@[q]@);
                assert(self.player_bets@[q] == raw1[q]);
                assert(view1[q] == raw1[q]@);
            }
            assert(self.bets()[p] == self.player_bets@[p]@);
            assert(self.bets()[p] == view1[p].push(amount));
            let target = old(self).bets().update(
                p,
                reset_slot(
                    old(self).bets()[p],
                    (old(self).balances()[p] - amount) as u64,
                ).push(amount),
            );
            assert_seqs_equal!(self.bets() == target, q => {
                if q == p {
                    assert(view1[p] == reset_slot(
                        old(self).bets()[p],
                        (old(self).balances()[p] - amount) as u64,
                    ));
                } else {
                    assert(self.bets()[q] == view1[q]);
                    assert(view1[q] == old(self).bets()[q]);
                }
            });
        }
        Ok(())
    }
}

/// What every hand of a fresh deal looks like: two cards, no split yet,
/// and a status of blackjack exactly on a two-card 21.
pub open spec fn fresh_hand(h: PlayerHand) -> bool {
    &&& h.hand.cards@.len() == 2
    &&& !h.split
    &&& h.hand.value <= 21
    &&& h.hand.status == (if hand_value(h.hand.cards@) == 21 {
        HandStatus::Blackjack
    } else {
        HandStatus::Value
    })
}

/// The pair a dealt hand contributes to the deal order.
pub open spec fn hand_pair(h: PlayerHand) -> (int, u64) {
    (h.player_index as int, h.bet_amount)
}

proof fn lemma_num_hands_take_step(bets: Seq<Seq<u64>>, i: int)
    requires
        0 <= i < bets.len(),
    ensures
        num_hands(bets.take(i + 1)) == num_hands(bets.take(i)) + bets[i].len(),
        bets_total(bets.take(i + 1)) == bets_total(bets.take(i)) + bets_sum(bets[i]),
        flat_bets(bets.take(i + 1)) == flat_bets(bets.take(i)) + row_pairs(bets[i], i),
{
    assert(bets.take(i + 1).drop_last() =~= bets.take(i));
    assert(bets.take(i + 1).last() == bets[i]);
}

proof fn lemma_num_hands_take_le(bets: Seq<Seq<u64>>, i: int)
    requires
        0 <= i <= bets.len(),
    ensures
        0 <= num_hands(bets.take(i)) <= num_hands(bets),
    decreases bets.len() - i,
{
    if i == bets.len() {
        assert(bets.take(i) =~= bets);
        lemma_num_hands_nonneg(bets);
    } else {
        lemma_num_hands_take_step(bets, i);
        lemma_num_hands_take_le(bets, i + 1);
        lemma_num_hands_nonneg(bets.take(i));
    }
}

proof fn lemma_num_hands_nonneg(bets: Seq<Seq<u64>>)
    ensures
        num_hands(bets) >= 0,
    decreases bets.len(),
{
    if bets.len() > 0 {
        lemma_num_hands_nonneg(bets.drop_last());
    }
}

impl Game {
    /// Deal two cards to a fresh hand for every staged bet, in slot
    /// order, each hand drawing from its player's balance slot.
    fn create_player_hands<S: Shoe>(&self, shoe: &mut S) -> (hands: Vec<PlayerHand>)
        requires
            self.wf(),
            self.bets().len() == self.balances().len(),
            old(shoe).inv(),
            old(shoe).avail() >= 2 * num_hands(self.bets()),
        ensures
            final(shoe).inv(),
            final(shoe).avail() + 2 * num_hands(self.bets()) >= old(shoe).avail(),
            hands@.len() == num_hands(self.bets()),
            hands@.map_values(|h: PlayerHand| hand_pair(h)) == flat_bets(self.bets()),
            round_bets(hands@) == bets_total(self.bets()),
            hands_wf(hands@, self.balances()),
            forall|k: int| 0 <= k < hands@.len() ==> fresh_hand(#[trigger] hands@[k]),
    {
        let ghost bets_view = self.bets();
        let mut hands: Vec<PlayerHand> = Vec::new();
        let np = self.player_bets.len();
        let mut i: usize = 0;
        proof {
            assert(bets_view.take(0) =~= Seq::<Seq<u64>>::empty());
            assert(hands@.map_values(|h: PlayerHand| hand_pair(h)) =~= flat_bets(
                bets_view.take(0),
            ));
        }
        while i < np
            invariant
                0 <= i <= np,
                np == bets_view.len(),
                bets_view == self.bets(),
                self.wf(),
                self.bets().len() == self.balances().len(),
                shoe.inv(),
                shoe.avail() + 2 * num_hands(bets_view.take(i as int)) >= old(shoe).avail(),
                old(shoe).avail() >= 2 * num_hands(bets_view),
                hands@.len() == num_hands(bets_view.take(i as int)),
                hands@.map_values(|h: PlayerHand| hand_pair(h)) == flat_bets(
                    bets_view.take(i as int),
                ),
                round_bets(hands@) == bets_total(bets_view.take(i as int)),
                hands_wf(hands@, self.balances()),
                forall|k: int| 0 <= k < hands@.len() ==> fresh_hand(#[trigger] hands@[k]),
            decreases np - i,
        {
            let row_len = self.player_bets[i].len();
            let ghost row = bets_view[i as int];
            let mut j: usize = 0;
            proof {
                lemma_num_hands_take_step(bets_view, i as int);
                lemma_num_hands_take_le(bets_view, i + 1);
                assert(row.take(0) =~= Seq::<u64>::empty());
                assert(row_pairs(row.take(0), i as int) =~= Seq::<(int, u64)>::empty());
            }
            while j < row_len
                invariant
                    0 <= j <= row_len,
                    i < np,
                    np == bets_view.len(),
                    bets_view == self.bets(),
                    row == bets_view[i as int],
                    row_len == row.len(),
                    self.wf(),
                    self.bets().len() == self.balances().len(),
                    shoe.inv(),
                    shoe.avail() + 2 * (num_hands(bets_view.take(i as int)) + j) >= old(
                        shoe,
                    ).avail(),
                    old(shoe).avail() >= 2 * num_hands(bets_view),
                    num_hands(bets_view.take(i as int)) + row.len() <= num_hands(bets_view),
                    num_hands(bets_view.take(i as int)) >= 0,
                    hands@.len() == num_hands(bets_view.take(i as int)) + j,
                    hands@.map_values(|h: PlayerHand| hand_pair(h)) == flat_bets(
                        bets_view.take(i as int),
                    ) + row_pairs(row.take(j as int), i as int),
                    round_bets(hands@) == bets_total(bets_view.take(i as int)) + bets_sum(
                        row.take(j as int),
                    ),
                    hands_wf(hands@, self.balances()),
                    forall|k: int| 0 <= k < hands@.len() ==> fresh_hand(#[trigger] hands@[k]),
                decreases row_len - j,
            {
                let bet = self.player_bets[i][j];
                let hand = Hand::new(shoe);
                let ph = PlayerHand { hand, bet_amount: bet, player_index: i, split: false };
                let ghost prev = hands@;
                hands.push(ph);
                j = j + 1;
                proof {
                    lemma_bets_sum_take_step(row, j - 1);
                    assert(hands@.drop_last() =~= prev);
                    assert(row_pairs(row.take(j as int), i as int) =~= row_pairs(
                        row.take(j - 1),
                        i as int,
                    ).push((i as int, row[j - 1])));
                    assert(hands@.map_values(|h: PlayerHand| hand_pair(h)) =~= prev.map_values(
                        |h: PlayerHand| hand_pair(h),
                    ).push(hand_pair(hands@.last())));
                }
            }
            i = i + 1;
            proof {
                lemma_num_hands_take_step(bets_view, i - 1);
                assert(row.take(row.len() as int) =~= row);
            }
        }
        proof {
            assert(bets_view.take(np as int) =~= bets_view);
        }
        hands
    }

    /// Deal a fresh round from the staged bets: one hand per staged bet,
    /// then the dealer's two cards, with the cursor at the first hand.
    /// No money moves; the opening blackjack resolution is a separate
    /// step.
    pub fn begin_round<S: Shoe>(&self, shoe: &mut S) -> (round: Round)
        requires
            self.wf(),
            self.bets().len() == self.balances().len(),
            old(shoe).inv(),
            old(shoe).avail() >= 2 * num_hands(self.bets()) + 2,
        ensures
            final(shoe).inv(),
            round.active_hand_index == 0,
            round.dealer.wf(),
            round.dealer.cards@.len() == 2,
            round.dealer.value <= 21,
            round.dealer.status == (if hand_value(round.dealer.cards@) == 21 {
                HandStatus::Blackjack
            } else {
                HandStatus::Value
            }),
            round.player_hands@.len() == num_hands(self.bets()),
            round.player_hands@.map_values(|h: PlayerHand| hand_pair(h)) == flat_bets(
                self.bets(),
            ),
            round_bets(round.player_hands@) == bets_total(self.bets()),
            hands_wf(round.player_hands@, self.balances()),
            forall|k: int|
                0 <= k < round.player_hands@.len() ==> fresh_hand(
                    #[trigger] round.player_hands@[k],
                ),
    {
        let player_hands = self.create_player_hands(shoe);
        let dealer = Hand::new(shoe);
        Round { player_hands, active_hand_index: 0, dealer }
    }

    /// Run the opening blackjack resolution of a round against this
    /// session's balances.
    pub fn start_round(&mut self, round: &mut Round)
        requires
            old(self).wf(),
            hands_wf(old(round).player_hands@, old(self).balances()),
            credits_fit(old(round).player_hands@, old(self).balances()),
            forall|i: int|
                0 <= i < old(round).player_hands@.len() ==> (#[trigger] old(round).player_hands@[i]).hand.value <= 21,
        ensures
            final(self).wf(),
            final(self).bets() == old(self).bets(),
            final(self).balances().len() == old(self).balances().len(),
            final(round).active_hand_index == old(round).active_hand_index,
            final(round).player_hands@.len() == old(round).player_hands@.len(),
            hands_wf(final(round).player_hands@, final(self).balances()),
            forall|i: int|
                0 <= i < old(round).player_hands@.len() ==> final(round).player_hands@[i]
                    == with_status(
                    #[trigger] old(round).player_hands@[i],
                    start_status(
                        old(round).player_hands@[i].hand.status,
                        old(round).dealer.status == HandStatus::Blackjack,
                    ),
                ),
            forall|p: int|
                0 <= p < old(self).balances().len() ==> final(self).balances()[p] == old(self).balances()[p] + start_credits(
                    old(round).player_hands@,
                    old(round).dealer.status == HandStatus::Blackjack,
                    p,
                ),
            final(round).dealer == (Hand {
                status: if old(round).dealer.status == HandStatus::Blackjack && (exists|i: int|
                    0 <= i < old(round).player_hands@.len() && (#[trigger] old(round).player_hands@[i]).hand.status == HandStatus::Blackjack) {
                    HandStatus::Push
                } else {
                    old(round).dealer.status
                },
                ..old(round).dealer
            }),
    {
        round.start(&mut self.player_balances);
    }

    /// Apply one offered action to a round's active hand against this
    /// session's balances.
    pub fn apply_round_action<S: Shoe>(&mut self, round: &mut Round, action: Action, shoe: &mut S)
        requires
            old(self).wf(),
            old(round).active_hand_index < old(round).player_hands@.len(),
            hands_wf(old(round).player_hands@, old(self).balances()),
            old(round).player_hands@[old(round).active_hand_index as int].action_offered(
                old(round).player_hands@[old(round).active_hand_index as int].balance_of(
                    old(self).balances(),
                ),
                action,
            ),
            old(shoe).inv(),
            old(shoe).avail() >= 2,
            action == Action::Double ==> old(round).player_hands@[old(round).active_hand_index as int].bet_amount <= u64::MAX / 2,
            action == Action::Surrender ==> old(round).player_hands@[old(round).active_hand_index as int].balance_of(old(self).balances()) + old(round).player_hands@[old(round).active_hand_index as int].bet_amount / 2 <= u64::MAX,
        ensures
            final(shoe).inv(),
            final(self).wf(),
            final(self).bets() == old(self).bets(),
            final(self).balances().len() == old(self).balances().len(),
            final(round).dealer == old(round).dealer,
            final(round).active_hand_index == old(round).active_hand_index,
            hands_wf(final(round).player_hands@, final(self).balances()),
            action != Action::Split ==> {
                &&& final(round).player_hands@ == old(round).player_hands@.update(
                    old(round).active_hand_index as int,
                    final(round).player_hands@[old(round).active_hand_index as int],
                )
                &&& action_post(
                    old(round).player_hands@[old(round).active_hand_index as int],
                    old(self).balances(),
                    action,
                    final(round).player_hands@[old(round).active_hand_index as int],
                    final(self).balances(),
                    None::<PlayerHand>,
                )
            },
            action == Action::Split ==> {
                &&& final(round).player_hands@ == old(round).player_hands@.update(
                    old(round).active_hand_index as int,
                    final(round).player_hands@[old(round).active_hand_index as int],
                ).insert(
                    old(round).active_hand_index + 1,
                    final(round).player_hands@[old(round).active_hand_index + 1],
                )
                &&& action_post(
                    old(round).player_hands@[old(round).active_hand_index as int],
                    old(self).balances(),
                    action,
                    final(round).player_hands@[old(round).active_hand_index as int],
                    final(self).balances(),
                    Some(final(round).player_hands@[old(round).active_hand_index + 1]),
                )
            },
    {
        round.apply_action(action, shoe, &mut self.player_balances);
    }

    /// Close a round against this session's balances: run the dealer and
    /// settle, unless every hand already busted or surrendered.
    pub fn finish_round<S: Shoe>(&mut self, round: &mut Round, shoe: &mut S)
        requires
            old(self).wf(),
            hands_wf(old(round).player_hands@, old(self).balances()),
            credits_fit(old(round).player_hands@, old(self).balances()),
            old(round).dealer.wf(),
            old(round).dealer.value <= 21,
            old(shoe).inv(),
            old(shoe).avail() >= 17,
        ensures
            final(shoe).inv(),
            final(self).wf(),
            final(self).bets() == old(self).bets(),
            final(self).balances().len() == old(self).balances().len(),
            final(round).player_hands@.len() == old(round).player_hands@.len(),
            final(round).active_hand_index == old(round).active_hand_index,
            hands_wf(final(round).player_hands@, final(self).balances()),
            all_done(old(round).player_hands@) ==> *final(round) == *old(round) && final(self).balances() == old(self).balances(),
            !all_done(old(round).player_hands@) ==> {
                &&& final(round).dealer.wf()
                &&& 17 <= final(round).dealer.value <= 26
                &&& (old(round).dealer.value >= 17 ==> final(round).dealer == old(round).dealer)
                &&& (forall|i: int|
                    0 <= i < old(round).player_hands@.len() ==> final(round).player_hands@[i]
                        == with_status(
                        #[trigger] old(round).player_hands@[i],
                        end_status(old(round).player_hands@[i], final(round).dealer.value),
                    ))
                &&& (forall|p: int|
                    0 <= p < old(self).balances().len() ==> final(self).balances()[p] == old(self).balances()[p] + end_credits(
                        old(round).player_hands@,
                        final(round).dealer.value,
                        p,
                    ))
            },
    {
        round.finish(shoe, &mut self.player_balances);
    }
}


/// The inputs on which staging a bet for an existing hand succeeds: the
/// slot and hand exist and the balance covers the amount.
pub open spec fn set_bet_ok(game: Game, player_index: int, hand_index: int, amount: u64) -> bool {
    &&& 0 <= player_index < game.balances().len()
    &&& 0 <= hand_index < game.bets()[player_index].len()
    &&& amount <= game.balances()[player_index]
}

} // verus!
