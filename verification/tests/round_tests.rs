use vingt_et_un::hand::{Hand, HandStatus};
use vingt_et_un::player_hand::PlayerHand;
use vingt_et_un::round::Round;
use vingt_et_un::shoe::{CustomShoe, Shoe};

fn test_round<S: Shoe>(shoe: &mut S) -> Round {
    Round {
        player_hands: vec![
            PlayerHand {
                hand: Hand::new(shoe),
                bet_amount: 4,
                player_index: 0,
                split: false,
            },
            PlayerHand {
                hand: Hand::new(shoe),
                bet_amount: 4,
                player_index: 1,
                split: false,
            },
        ],
        active_hand_index: 0,
        dealer: Hand::new(shoe),
    }
}

#[test]
fn test_round_start_dealer_blackjack() {
    let mut shoe = CustomShoe::new(vec![10, 1, 1, 10, 8, 8]);
    let mut balances = vec![10u64, 10];
    let mut round = test_round(&mut shoe);
    round.start(&mut balances);
    assert_eq!(HandStatus::Lose, round.player_hands[0].hand.status);
    assert_eq!(balances[0], 10);

    assert_eq!(HandStatus::Push, round.player_hands[1].hand.status);
    assert_eq!(balances[1], 14);
}

#[test]
fn test_round_start_no_dealer_blackjack() {
    let mut shoe = CustomShoe::new(vec![8, 8, 1, 10, 8, 8]);
    let mut balances = vec![10u64, 10];
    let mut round = test_round(&mut shoe);
    round.start(&mut balances);

    assert_eq!(HandStatus::Value, round.player_hands[0].hand.status);
    assert_eq!(balances[0], 10);

    assert_eq!(HandStatus::Blackjack, round.player_hands[1].hand.status);
    assert_eq!(balances[1], 20);
}

#[test]
fn test_round_update_second_active() {
    let mut shoe = CustomShoe::new(vec![7, 8, 8, 8, 8, 7, 7]);
    let mut round = test_round(&mut shoe);
    round.player_hands[0].hand.deal_card(&mut shoe);

    assert!(round.update_active_hand_index());
    assert_eq!(round.active_hand_index, 1);

    round.player_hands[1].hand.status = HandStatus::Stood;
    assert!(!round.update_active_hand_index());
}

#[test]
fn test_round_end() {
    let mut shoe = CustomShoe::new(vec![1, 5, 8, 10, 8, 8, 7, 7]);
    let mut balances = vec![10u64, 10];
    let mut round = test_round(&mut shoe);
    round.player_hands[0].hand.deal_card(&mut shoe);
    round.player_hands[1].hand.deal_card(&mut shoe);
    round.player_hands[0].hand.status = HandStatus::Stood;
    round.player_hands[1].hand.status = HandStatus::Stood;

    round.end(&mut balances);

    assert_eq!(HandStatus::Win, round.player_hands[0].hand.status);
    assert_eq!(balances[0], 18);

    assert_eq!(HandStatus::Lose, round.player_hands[1].hand.status);
    assert_eq!(balances[1], 10);
}

#[test]
fn round_end_pushes_equal_totals() {
    let mut shoe = CustomShoe::new(vec![9, 9, 10, 7, 9, 9]);
    let mut balances = vec![20u64, 20];
    let mut round = test_round(&mut shoe);
    round.player_hands[0].hand.status = HandStatus::Stood;
    round.player_hands[1].hand.status = HandStatus::Stood;

    round.end(&mut balances);

    assert_eq!(HandStatus::Push, round.player_hands[0].hand.status);
    assert_eq!(balances[0], 24);
    assert_eq!(HandStatus::Lose, round.player_hands[1].hand.status);
    assert_eq!(balances[1], 20);
}

#[test]
fn round_finish_skips_dealer_when_all_busted_or_surrendered() {
    let mut shoe = CustomShoe::new(vec![6, 6, 9, 9, 9, 9]);
    let mut balances = vec![10u64, 10];
    let mut round = test_round(&mut shoe);
    round.player_hands[0].hand.status = HandStatus::Bust;
    round.player_hands[1].hand.status = HandStatus::Surrender;

    let dealer_cards = round.dealer.cards.clone();
    round.finish(&mut shoe, &mut balances);

    assert_eq!(round.dealer.cards, dealer_cards);
    assert_eq!(balances, vec![10, 10]);
}

#[test]
fn round_split_inserts_new_hand_after_active() {
    let mut shoe = CustomShoe::new(vec![5, 3, 9, 9, 6, 6, 7, 7]);
    let mut balances = vec![40u64, 40];
    let mut round = test_round(&mut shoe);
    assert_eq!(round.player_hands[0].hand.cards, vec![7, 7]);

    round.apply_action(vingt_et_un::Action::Split, &mut shoe, &mut balances);

    assert_eq!(round.player_hands.len(), 3);
    assert_eq!(balances[0], 36);
    assert_eq!(round.player_hands[0].hand.cards[0], 7);
    assert_eq!(round.player_hands[1].hand.cards[0], 7);
    assert_eq!(round.player_hands[1].player_index, 0);
    assert_eq!(round.player_hands[2].player_index, 1);
}
