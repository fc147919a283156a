use vingt_et_un::hand::HandStatus;
use vingt_et_un::shoe::CustomShoe;
use vingt_et_un::{Action, Game};

#[test]
fn dealer_blackjack_concludes_the_round_immediately() {
    let mut game = Game::new();
    game.set_player_balances(vec![100]).unwrap();
    game.set_bet(0, 0, 4).unwrap();
    assert_eq!(game.get_player_balance(0).unwrap(), 96);

    // Deals from the back: player draws 8, 8; the dealer draws 10, 1.
    let mut padding = vec![9u8; 17];
    padding.extend([1, 10, 8, 8]);
    let mut shoe = CustomShoe::new(padding);

    let mut round = game.begin_round(&mut shoe);
    assert_eq!(round.player_hands[0].hand.cards, vec![8, 8]);
    assert_eq!(round.dealer.status, HandStatus::Blackjack);

    game.start_round(&mut round);
    assert_eq!(round.player_hands[0].hand.status, HandStatus::Lose);
    assert_eq!(game.get_player_balance(0).unwrap(), 96);

    assert!(!round.update_active_hand_index());

    let cards_left = shoe.deck.len();
    game.finish_round(&mut round, &mut shoe);
    assert_eq!(round.player_hands[0].hand.status, HandStatus::Lose);
    assert_eq!(round.player_hands[0].hand.cards.len(), 2);
    assert_eq!(shoe.deck.len(), cards_left);
    assert_eq!(game.get_player_balance(0).unwrap(), 96);
}

#[test]
fn dealer_bust_pays_twice_the_bet() {
    let mut game = Game::new();
    game.set_player_balances(vec![10]).unwrap();
    game.set_bet(0, 0, 4).unwrap();
    assert_eq!(game.get_player_balance(0).unwrap(), 6);

    // Deals from the back: player draws 10, 10 (value 20); the dealer
    // draws 10, 6 and then busts with another 10.
    let mut padding = vec![9u8; 16];
    padding.extend([10, 6, 10, 10, 10]);
    let mut shoe = CustomShoe::new(padding);

    let mut round = game.begin_round(&mut shoe);
    assert_eq!(round.player_hands[0].hand.value, 20);
    game.start_round(&mut round);

    assert!(round.update_active_hand_index());
    game.apply_round_action(&mut round, Action::Stand, &mut shoe);
    assert!(!round.update_active_hand_index());

    game.finish_round(&mut round, &mut shoe);
    assert_eq!(round.dealer.value, 26);
    assert_eq!(round.player_hands[0].hand.status, HandStatus::Win);
    assert_eq!(game.get_player_balance(0).unwrap(), 14);
}

#[test]
fn split_hands_share_one_balance() {
    let mut game = Game::new();
    game.set_player_balances(vec![100]).unwrap();
    game.set_bet(0, 0, 10).unwrap();
    assert_eq!(game.get_player_balance(0).unwrap(), 90);

    // Deals from the back: player draws 8, 8; the dealer draws 10, 9;
    // each split hand then draws one card.
    let mut padding = vec![9u8; 17];
    padding.extend([3, 2, 9, 10, 8, 8]);
    let mut shoe = CustomShoe::new(padding);

    let mut round = game.begin_round(&mut shoe);
    game.start_round(&mut round);
    assert!(round.update_active_hand_index());

    game.apply_round_action(&mut round, Action::Split, &mut shoe);
    assert_eq!(round.player_hands.len(), 2);
    assert_eq!(game.get_player_balance(0).unwrap(), 80);
    assert_eq!(round.player_hands[0].bet_amount, 10);
    assert_eq!(round.player_hands[1].bet_amount, 10);
    assert_eq!(round.player_hands[0].hand.cards, vec![8, 2]);
    assert_eq!(round.player_hands[1].hand.cards, vec![8, 3]);
}
