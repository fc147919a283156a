//! A player's hand: a hand plus the wager riding on it and the slot of the
//! balance it draws from. Split hands share one balance slot, so every
//! debit and credit is visible to all hands of that player.

use vstd::prelude::*;
use crate::action::Action;
use crate::action::PossibleAction;
use crate::hand::Hand;
use crate::hand::HandStatus;
use crate::hand::card_ranks_valid;
use crate::hand::hand_value;
use crate::hand::lemma_raw_sum_bound;
use crate::hand::status_after;
use crate::shoe::Shoe;

verus! {

pub struct PlayerHand {
    pub hand: Hand,
    pub bet_amount: u64,
    pub player_index: usize,
    pub split: bool,
}

impl PlayerHand {
    /// The hand is well formed and its balance slot exists in the table.
    pub open spec fn wf_in(&self, balances: Seq<u64>) -> bool {
        &&& self.hand.wf()
        &&& self.player_index < balances.len()
    }

    /// The balance this hand draws from.
    pub open spec fn balance_of(&self, balances: Seq<u64>) -> u64 {
        balances[self.player_index as int]
    }

    /// Whether an action is offered for this hand at the given balance:
    /// hit and stand while the hand may still act, double on any two-card
    /// hand the balance can cover, split additionally needs a pair, and
    /// surrender needs a two-card hand that did not itself come from a
    /// split.
    pub open spec fn action_offered(&self, balance: u64, action: Action) -> bool {
        match action {
            Action::Hit => self.hand.status == HandStatus::Value,
            Action::Stand => self.hand.status == HandStatus::Value,
            Action::Double => self.hand.cards@.len() == 2 && self.bet_amount <= balance,
            Action::Split => self.hand.cards@.len() == 2 && self.hand.cards@[0]
                == self.hand.cards@[1] && self.bet_amount <= balance,
            Action::Surrender => self.hand.cards@.len() == 2 && !self.split,
        }
    }

    /// The exact sequence of actions offered, in the order they are shown.
    pub open spec fn possible_actions_spec(&self, balance: u64) -> Seq<Action> {
        (if self.action_offered(balance, Action::Hit) {
            seq![Action::Hit]
        } else {
            Seq::<Action>::empty()
        }) + (if self.action_offered(balance, Action::Stand) {
            seq![Action::Stand]
        } else {
            Seq::<Action>::empty()
        }) + (if self.action_offered(balance, Action::Double) {
            seq![Action::Double]
        } else {
            Seq::<Action>::empty()
        }) + (if self.action_offered(balance, Action::Split) {
            seq![Action::Split]
        } else {
            Seq::<Action>::empty()
        }) + (if self.action_offered(balance, Action::Surrender) {
            seq![Action::Surrender]
        } else {
            Seq::<Action>::empty()
        })
    }

    /// The set of legal actions for this hand, reflecting every
    /// precondition of the action table, including balance sufficiency
    /// for double and split.
    pub fn get_possible_actions(&self, balances: &Vec<u64>) -> (actions: Vec<PossibleAction>)
        requires
            self.player_index < balances@.len(),
        ensures
            actions@.map_values(|pa: PossibleAction| pa.0) == self.possible_actions_spec(
                balances@[self.player_index as int],
            ),
    {
        let balance = balances[self.player_index];
        let mut actions: Vec<PossibleAction> = Vec::new();

        let may_act = matches!(self.hand.status, HandStatus::Value);
        let two_cards = self.hand.cards.len() == 2;
        let pair = two_cards && self.hand.cards[0] == self.hand.cards[1];
        let covered = self.bet_amount <= balance;

        if may_act {
            actions.push(PossibleAction(Action::Hit));
            actions.push(PossibleAction(Action::Stand));
        }
        if two_cards && covered {
            actions.push(PossibleAction(Action::Double));
        }
        if pair && covered {
            actions.push(PossibleAction(Action::Split));
        }
        if two_cards && !self.split {
            actions.push(PossibleAction(Action::Surrender));
        }
        proof {
            assert(actions@.map_values(|pa: PossibleAction| pa.0) =~= self.possible_actions_spec(
                balance,
            ));
        }
        actions
    }

    /// Apply one offered action. A split returns the new sibling hand,
    /// which the round inserts right after this one; every other action
    /// returns nothing.
    pub fn take_action<S: Shoe>(
        &mut self,
        action: Action,
        shoe: &mut S,
        balances: &mut Vec<u64>,
    ) -> (new_hand: Option<PlayerHand>)
        requires
            old(self).wf_in(old(balances)@),
            old(self).action_offered(old(self).balance_of(old(balances)@), action),
            old(shoe).inv(),
            old(shoe).avail() >= 2,
            action == Action::Double ==> old(self).bet_amount <= u64::MAX / 2,
            action == Action::Surrender ==> old(self).balance_of(old(balances)@) + old(self).bet_amount / 2 <= u64::MAX,
        ensures
            final(shoe).inv(),
            action_post(*old(self), old(balances)@, action, *final(self), final(balances)@,
                new_hand),
    {
        match action {
            Action::Stand => {
                self.hand.status = HandStatus::Stood;
                None
            },
            Action::Hit => {
                proof {
                    lemma_raw_sum_bound(self.hand.cards@);
                }
                self.hand.deal_card(shoe);
                None
            },
            Action::Double => {
                self.double(shoe, balances);
                None
            },
            Action::Split => Some(self.split(shoe, balances)),
            Action::Surrender => {
                self.surrender(balances);
                None
            },
        }
    }

    /// Double down: debit one more bet from the balance, double the wager,
    /// deal exactly one card, and complete the hand whatever its value.
    pub fn double<S: Shoe>(&mut self, shoe: &mut S, balances: &mut Vec<u64>)
        requires
            old(self).wf_in(old(balances)@),
            old(self).hand.cards@.len() == 2,
            old(self).bet_amount <= old(self).balance_of(old(balances)@),
            old(self).bet_amount <= u64::MAX / 2,
            old(shoe).inv(),
            old(shoe).avail() >= 1,
        ensures
            final(shoe).inv(),
            final(self).wf_in(final(balances)@),
            final(balances)@ == old(balances)@.update(
                old(self).player_index as int,
                (old(self).balance_of(old(balances)@) - old(self).bet_amount) as u64,
            ),
            final(self).bet_amount == old(self).bet_amount * 2,
            final(self).player_index == old(self).player_index,
            final(self).split == old(self).split,
            exists|c: u8|
                1 <= c <= 10 && final(self).hand.cards@ == old(self).hand.cards@.push(c),
            final(self).hand.value == hand_value(final(self).hand.cards@),
            final(self).hand.status == (if final(self).hand.value > 21 {
                HandStatus::Bust
            } else {
                HandStatus::Stood
            }),
    {
        let idx = self.player_index;
        let bal = balances[idx];
        balances[idx] = bal - self.bet_amount;
        self.bet_amount = self.bet_amount * 2;
        proof {
            lemma_raw_sum_bound(self.hand.cards@);
        }
        self.hand.deal_card(shoe);
        if self.hand.value <= 21 {
            self.hand.status = HandStatus::Stood;
        }
    }

    /// Split a two-card hand: debit one more bet, move the second card
    /// into a fresh sibling hand with the same wager and balance slot,
    /// and deal one card to each of the two hands. Both hands are marked
    /// as split products.
    pub fn split<S: Shoe>(&mut self, shoe: &mut S, balances: &mut Vec<u64>) -> (new_hand:
        PlayerHand)
        requires
            old(self).wf_in(old(balances)@),
            old(self).hand.cards@.len() == 2,
            old(self).bet_amount <= old(self).balance_of(old(balances)@),
            old(shoe).inv(),
            old(shoe).avail() >= 2,
        ensures
            final(shoe).inv(),
            split_post(*old(self), old(balances)@, *final(self), final(balances)@, new_hand),
    {
        let popped = match self.hand.cards.pop() {
            Some(c) => c,
            None => 1,
        };
        let mut new_hand = PlayerHand {
            hand: Hand {
                cards: vec![popped],
                status: HandStatus::Value,
                value: 0,
                soft: false,
            },
            bet_amount: self.bet_amount,
            player_index: self.player_index,
            split: true,
        };
        let idx = self.player_index;
        let bal = balances[idx];
        balances[idx] = bal - self.bet_amount;
        self.split = true;
        proof {
            assert(card_ranks_valid(self.hand.cards@));
            lemma_raw_sum_bound(self.hand.cards@);
            assert(card_ranks_valid(new_hand.hand.cards@));
            lemma_raw_sum_bound(new_hand.hand.cards@);
        }
        self.hand.deal_card(shoe);
        new_hand.hand.deal_card(shoe);
        new_hand
    }

    /// Surrender a two-card, un-split hand: half the wager comes back to
    /// the balance and the hand is finished.
    pub fn surrender(&mut self, balances: &mut Vec<u64>)
        requires
            old(self).wf_in(old(balances)@),
            old(self).hand.cards@.len() == 2,
            old(self).balance_of(old(balances)@) + old(self).bet_amount / 2 <= u64::MAX,
        ensures
            final(self).wf_in(final(balances)@),
            final(balances)@ == old(balances)@.update(
                old(self).player_index as int,
                (old(self).balance_of(old(balances)@) + old(self).bet_amount / 2) as u64,
            ),
            *final(self) == (PlayerHand {
                hand: Hand { status: HandStatus::Surrender, ..old(self).hand },
                ..*old(self)
            }),
    {
        let idx = self.player_index;
        let bal = balances[idx];
        balances[idx] = bal + self.bet_amount / 2;
        proof {
            lemma_raw_sum_bound(self.hand.cards@);
        }
        self.hand.status = HandStatus::Surrender;
    }

    /// The balance available to this hand.
    pub fn balance(&self, balances: &Vec<u64>) -> (balance: u64)
        requires
            self.player_index < balances@.len(),
        ensures
            balance == self.balance_of(balances@),
    {
        balances[self.player_index]
    }
}

/// A hand with only its status replaced.
pub open spec fn with_status(h: PlayerHand, status: HandStatus) -> PlayerHand {
    PlayerHand { hand: Hand { status, ..h.hand }, ..h }
}

/// What applying an action to a hand leaves behind: the relation between
/// the hand, the balance table and the returned sibling hand before and
/// after the action.
pub open spec fn action_post(
    pre: PlayerHand,
    pre_balances: Seq<u64>,
    action: Action,
    post: PlayerHand,
    post_balances: Seq<u64>,
    new_hand: Option<PlayerHand>,
) -> bool {
    &&& post.wf_in(post_balances)
    &&& post_balances.len() == pre_balances.len()
    &&& post.player_index == pre.player_index
    &&& match action {
        Action::Stand => {
            &&& new_hand is None
            &&& post_balances == pre_balances
            &&& post == with_status(pre, HandStatus::Stood)
        },
        Action::Hit => {
            &&& new_hand is None
            &&& post_balances == pre_balances
            &&& post.bet_amount == pre.bet_amount
            &&& post.split == pre.split
            &&& (exists|c: u8| 1 <= c <= 10 && post.hand.cards@ == pre.hand.cards@.push(c))
            &&& post.hand.value == hand_value(post.hand.cards@)
            &&& post.hand.status == status_after(pre.hand.status, post.hand.cards@)
        },
        Action::Double => {
            &&& new_hand is None
            &&& post_balances == pre_balances.update(
                pre.player_index as int,
                (pre.balance_of(pre_balances) - pre.bet_amount) as u64,
            )
            &&& post.bet_amount == pre.bet_amount * 2
            &&& post.split == pre.split
            &&& (exists|c: u8| 1 <= c <= 10 && post.hand.cards@ == pre.hand.cards@.push(c))
            &&& post.hand.value == hand_value(post.hand.cards@)
            &&& post.hand.status == (if post.hand.value > 21 {
                HandStatus::Bust
            } else {
                HandStatus::Stood
            })
        },
        Action::Split => {
            &&& new_hand is Some
            &&& split_post(pre, pre_balances, post, post_balances, new_hand.unwrap())
        },
        Action::Surrender => {
            &&& new_hand is None
            &&& post_balances == pre_balances.update(
                pre.player_index as int,
                (pre.balance_of(pre_balances) + pre.bet_amount / 2) as u64,
            )
            &&& post == with_status(pre, HandStatus::Surrender)
        },
    }
}

/// What a split leaves behind: both hands hold exactly two cards, keep the
/// original wager and balance slot, are marked as split products, and the
/// balance has been debited by exactly one wager.
pub open spec fn split_post(
    pre: PlayerHand,
    pre_balances: Seq<u64>,
    post: PlayerHand,
    post_balances: Seq<u64>,
    new_hand: PlayerHand,
) -> bool {
    &&& post_balances == pre_balances.update(
        pre.player_index as int,
        (pre.balance_of(pre_balances) - pre.bet_amount) as u64,
    )
    &&& post.wf_in(post_balances)
    &&& new_hand.wf_in(post_balances)
    &&& post.hand.cards@.len() == 2
    &&& new_hand.hand.cards@.len() == 2
    &&& post.hand.cards@[0] == pre.hand.cards@[0]
    &&& new_hand.hand.cards@[0] == pre.hand.cards@[1]
    &&& post.bet_amount == pre.bet_amount
    &&& new_hand.bet_amount == pre.bet_amount
    &&& post.player_index == pre.player_index
    &&& new_hand.player_index == pre.player_index
    &&& post.split
    &&& new_hand.split
    &&& post.hand.status == status_after(pre.hand.status, post.hand.cards@)
    &&& new_hand.hand.status == status_after(HandStatus::Value, new_hand.hand.cards@)
}

/// Surrender is never offered on a hand produced by a split, and never
/// offered once a hand holds more than two cards.
pub proof fn lemma_surrender_not_offered(ph: PlayerHand, balance: u64)
    requires
        ph.split || ph.hand.cards@.len() != 2,
    ensures
        !ph.possible_actions_spec(balance).contains(Action::Surrender),
{
    lemma_possible_actions_exact(ph, balance, Action::Surrender);
}

/// Double is never offered when the balance cannot cover the wager, and
/// neither is split.
pub proof fn lemma_double_not_offered_uncovered(ph: PlayerHand, balance: u64)
    requires
        balance < ph.bet_amount,
    ensures
        !ph.possible_actions_spec(balance).contains(Action::Double),
        !ph.possible_actions_spec(balance).contains(Action::Split),
{
    lemma_possible_actions_exact(ph, balance, Action::Double);
    lemma_possible_actions_exact(ph, balance, Action::Split);
}

/// An action appears among the offered actions exactly when its
/// precondition holds.
pub proof fn lemma_possible_actions_exact(ph: PlayerHand, balance: u64, action: Action)
    ensures
        ph.possible_actions_spec(balance).contains(action) <==> ph.action_offered(
            balance,
            action,
        ),
{
    let s = ph.possible_actions_spec(balance);
    if ph.action_offered(balance, action) {
        assert(s.contains(action)) by {
            let i = index_of_action(ph, balance, action);
            assert(s[i] == action);
        }
    }
    if s.contains(action) {
        let i = choose|i: int| 0 <= i < s.len() && s[i] == action;
        assert(ph.action_offered(balance, s[i]));
    }
}

/// The position an offered action occupies in the offered sequence.
spec fn index_of_action(ph: PlayerHand, balance: u64, action: Action) -> int {
    let h = if ph.action_offered(balance, Action::Hit) {
        1int
    } else {
        0int
    };
    let st = if ph.action_offered(balance, Action::Stand) {
        1int
    } else {
        0int
    };
    let d = if ph.action_offered(balance, Action::Double) {
        1int
    } else {
        0int
    };
    let sp = if ph.action_offered(balance, Action::Split) {
        1int
    } else {
        0int
    };
    match action {
        Action::Hit => 0,
        Action::Stand => h,
        Action::Double => h + st,
        Action::Split => h + st + d,
        Action::Surrender => h + st + d + sp,
    }
}

/// The offered actions are a pure function of the hand and the balance:
/// querying twice without an intervening mutation yields the identical
/// sequence.
pub proof fn lemma_possible_actions_idempotent(
    ph: PlayerHand,
    balance: u64,
    first: Seq<Action>,
    second: Seq<Action>,
)
    requires
        first == ph.possible_actions_spec(balance),
        second == ph.possible_actions_spec(balance),
    ensures
        first == second,
{
}

} // verus!
