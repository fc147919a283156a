use vingt_et_un::hand::{Hand, HandStatus};
use vingt_et_un::player_hand::PlayerHand;
use vingt_et_un::shoe::{CustomShoe, Shoe, StandardShoe};
use vingt_et_un::{Action, PossibleAction};

fn test_player_hand<S: Shoe>(shoe: &mut S, bet_amount: u64) -> PlayerHand {
    PlayerHand { hand: Hand::new(shoe), bet_amount, player_index: 0, split: false }
}

#[test]
fn double_possible_action() {
    let mut shoe = StandardShoe::new(1);
    let mut balances = vec![100u64];

    let mut player_hand = test_player_hand(&mut shoe, 60);
    assert!(player_hand
        .get_possible_actions(&balances)
        .contains(&PossibleAction(Action::Double)));

    player_hand.double(&mut shoe, &mut balances);
    assert!(!player_hand
        .get_possible_actions(&balances)
        .contains(&PossibleAction(Action::Double)));
}

#[test]
fn surrender_possible_action() {
    let mut shoe = StandardShoe::new(1);
    let mut balances = vec![100u64];

    let mut player_hand = test_player_hand(&mut shoe, 0);
    assert!(player_hand
        .get_possible_actions(&balances)
        .contains(&PossibleAction(Action::Surrender)));

    let player_hand2 = player_hand.split(&mut shoe, &mut balances);
    assert!(!player_hand
        .get_possible_actions(&balances)
        .contains(&PossibleAction(Action::Surrender)));
    assert!(!player_hand2
        .get_possible_actions(&balances)
        .contains(&PossibleAction(Action::Surrender)));
}

#[test]
fn split_possible_action() {
    let mut shoe = CustomShoe::new(vec![2, 2, 8, 8, 8, 8]);
    let mut balances = vec![100u64];
    let mut player_hand = test_player_hand(&mut shoe, 40);
    assert!(player_hand
        .get_possible_actions(&balances)
        .contains(&PossibleAction(Action::Split)));

    let player_hand2 = player_hand.split(&mut shoe, &mut balances);
    assert!(player_hand
        .get_possible_actions(&balances)
        .contains(&PossibleAction(Action::Split)));
    assert!(player_hand2
        .get_possible_actions(&balances)
        .contains(&PossibleAction(Action::Split)));

    let player_hand3 = player_hand.split(&mut shoe, &mut balances);
    assert!(!player_hand
        .get_possible_actions(&balances)
        .contains(&PossibleAction(Action::Split)));
    assert!(!player_hand2
        .get_possible_actions(&balances)
        .contains(&PossibleAction(Action::Split)));
    assert!(!player_hand3
        .get_possible_actions(&balances)
        .contains(&PossibleAction(Action::Split)));
}

#[test]
fn split_debits_balance_once_and_keeps_bet() {
    let mut shoe = CustomShoe::new(vec![3, 2, 8, 8]);
    let mut balances = vec![100u64];
    let mut player_hand = test_player_hand(&mut shoe, 25);
    assert_eq!(player_hand.hand.cards, vec![8, 8]);

    let player_hand2 = player_hand.split(&mut shoe, &mut balances);

    assert_eq!(balances[0], 75);
    assert_eq!(player_hand.hand.cards.len(), 2);
    assert_eq!(player_hand2.hand.cards.len(), 2);
    assert_eq!(player_hand.bet_amount, 25);
    assert_eq!(player_hand2.bet_amount, 25);
    assert!(player_hand.split);
    assert!(player_hand2.split);
}

#[test]
fn double_debits_balance_and_doubles_bet() {
    let mut shoe = CustomShoe::new(vec![4, 6, 5]);
    let mut balances = vec![100u64];
    let mut player_hand = test_player_hand(&mut shoe, 30);
    assert_eq!(player_hand.hand.cards, vec![5, 6]);

    player_hand.double(&mut shoe, &mut balances);

    assert_eq!(balances[0], 70);
    assert_eq!(player_hand.bet_amount, 60);
    assert_eq!(player_hand.hand.cards, vec![5, 6, 4]);
    assert_eq!(player_hand.hand.status, HandStatus::Stood);
}

#[test]
fn double_not_offered_when_balance_is_short() {
    let mut shoe = CustomShoe::new(vec![4, 6, 5]);
    let balances = vec![20u64];
    let player_hand = test_player_hand(&mut shoe, 30);

    let actions = player_hand.get_possible_actions(&balances);
    assert!(!actions.contains(&PossibleAction(Action::Double)));
    assert!(!actions.contains(&PossibleAction(Action::Split)));
}

#[test]
fn surrender_refunds_half_the_bet() {
    let mut shoe = CustomShoe::new(vec![9, 5]);
    let mut balances = vec![50u64];
    let mut player_hand = test_player_hand(&mut shoe, 25);

    player_hand.surrender(&mut balances);

    assert_eq!(balances[0], 62);
    assert_eq!(player_hand.hand.status, HandStatus::Surrender);
}

#[test]
fn surrender_not_offered_after_a_hit() {
    let mut shoe = CustomShoe::new(vec![2, 9, 5]);
    let mut balances = vec![50u64];
    let mut player_hand = test_player_hand(&mut shoe, 10);
    assert!(player_hand
        .get_possible_actions(&balances)
        .contains(&PossibleAction(Action::Surrender)));

    player_hand.take_action(Action::Hit, &mut shoe, &mut balances);
    assert!(!player_hand
        .get_possible_actions(&balances)
        .contains(&PossibleAction(Action::Surrender)));
}

#[test]
fn possible_actions_query_is_idempotent() {
    let mut shoe = CustomShoe::new(vec![8, 8]);
    let balances = vec![100u64];
    let player_hand = test_player_hand(&mut shoe, 40);

    let first = player_hand.get_possible_actions(&balances);
    let second = player_hand.get_possible_actions(&balances);
    assert_eq!(first, second);
}
