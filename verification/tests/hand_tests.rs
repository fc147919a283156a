use vingt_et_un::hand::{hand_message, Hand, HandStatus};
use vingt_et_un::shoe::CustomShoe;

#[test]
fn hand_value_calculation() {
    let mut shoe = CustomShoe::new(vec![7, 7, 7, 7]);

    let mut hand = Hand { cards: vec![], status: HandStatus::Value, value: 0, soft: false };

    assert_eq!(hand.deal_card(&mut shoe), 7);
    assert_eq!(hand.status, HandStatus::Value);

    assert_eq!(hand.deal_card(&mut shoe), 14);
    assert_eq!(hand.status, HandStatus::Value);

    assert_eq!(hand.deal_card(&mut shoe), 21);
    assert_eq!(hand.status, HandStatus::Stood);

    assert_eq!(hand.deal_card(&mut shoe), 28);
    assert_eq!(hand.status, HandStatus::Bust);
}

#[test]
fn soft_hand_value_calculation() {
    let mut shoe = CustomShoe::new(vec![1, 9, 1, 1, 7]);

    let mut hand = Hand { cards: vec![], status: HandStatus::Value, value: 0, soft: false };

    assert_eq!(hand.deal_card(&mut shoe), 7);
    assert!(!hand.soft);

    assert_eq!(hand.deal_card(&mut shoe), 18);
    assert!(hand.soft);

    assert_eq!(hand.deal_card(&mut shoe), 19);
    assert!(hand.soft);

    assert_eq!(hand.deal_card(&mut shoe), 18);
    assert!(!hand.soft);

    assert_eq!(hand.deal_card(&mut shoe), 19);
    assert!(!hand.soft);
}

#[test]
fn new_hand_blackjack() {
    let mut shoe = CustomShoe::new(vec![10, 1]);

    let hand = Hand::new(&mut shoe);
    assert_eq!(hand.status, HandStatus::Blackjack);
}

#[test]
fn hand_hit_twenty_one() {
    let mut shoe = CustomShoe::new(vec![8, 8, 5]);

    let mut hand = Hand::new(&mut shoe);
    hand.deal_card(&mut shoe);
    assert_eq!(hand.status, HandStatus::Stood);
}

#[test]
fn dealer_turn_draws_to_seventeen() {
    let mut shoe = CustomShoe::new(vec![9, 9, 9, 5, 2, 10]);
    let mut hand = Hand::new(&mut shoe);
    assert_eq!(hand.value, 12);
    hand.dealer_turn(&mut shoe);
    assert_eq!(hand.value, 17);
    assert_eq!(hand.cards, vec![10, 2, 5]);
}

#[test]
fn dealer_turn_stands_on_soft_seventeen() {
    let mut shoe = CustomShoe::new(vec![9, 9, 6, 1]);
    let mut hand = Hand::new(&mut shoe);
    assert_eq!(hand.value, 17);
    assert!(hand.soft);
    hand.dealer_turn(&mut shoe);
    assert_eq!(hand.value, 17);
    assert_eq!(hand.cards.len(), 2);
}

#[test]
fn hand_message_text() {
    assert_eq!(hand_message(HandStatus::Win), "Win");
    assert_eq!(hand_message(HandStatus::Lose), "Lost");
    assert_eq!(hand_message(HandStatus::Push), "Push");
    assert_eq!(hand_message(HandStatus::Blackjack), "Blackjack");
    assert_eq!(hand_message(HandStatus::Bust), "Bust");
    assert_eq!(hand_message(HandStatus::Surrender), "Surrender");
    assert_eq!(hand_message(HandStatus::Value), "");
    assert_eq!(hand_message(HandStatus::Stood), "");
}
