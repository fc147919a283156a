use vingt_et_un::{Game, PlayerBalanceError};

#[test]
fn it_works() {
    let result = 2 + 2;
    assert_eq!(result, 4);
}

#[test]
fn balances_round_trip() {
    let mut game = Game::new();
    assert!(game.get_player_balances().is_empty());
    game.set_player_balances(vec![1000, 500]).unwrap();
    assert_eq!(game.get_player_balances(), vec![1000, 500]);
    assert_eq!(game.get_player_balance(0).unwrap(), 1000);
    assert_eq!(game.get_player_balance(1).unwrap(), 500);
}

#[test]
fn unknown_player_is_reported() {
    let mut game = Game::new();
    game.set_player_balances(vec![100]).unwrap();
    assert!(matches!(
        game.get_player_balance(3),
        Err(PlayerBalanceError::PlayerDoesNotExist)
    ));
    assert!(matches!(
        game.set_player_balance(3, 10),
        Err(PlayerBalanceError::PlayerDoesNotExist)
    ));
    assert!(matches!(
        game.modify_player_balance(3, 10),
        Err(PlayerBalanceError::PlayerDoesNotExist)
    ));
    assert!(matches!(
        game.add_bet(3, 10),
        Err(PlayerBalanceError::PlayerDoesNotExist)
    ));
    assert!(matches!(
        game.get_bet(3, 0),
        Err(PlayerBalanceError::PlayerDoesNotExist)
    ));
}

#[test]
fn unknown_hand_is_reported() {
    let mut game = Game::new();
    game.set_player_balances(vec![100]).unwrap();
    assert!(matches!(
        game.get_bet(0, 5),
        Err(PlayerBalanceError::HandDoesNotExist)
    ));
    assert!(matches!(
        game.set_bet(0, 5, 10),
        Err(PlayerBalanceError::HandDoesNotExist)
    ));
}

#[test]
fn negative_balance_is_rejected() {
    let mut game = Game::new();
    game.set_player_balances(vec![100]).unwrap();
    assert!(matches!(
        game.modify_player_balance(0, -101),
        Err(PlayerBalanceError::BalanceCannotBeNegative)
    ));
    assert_eq!(game.get_player_balance(0).unwrap(), 100);
    assert!(matches!(
        game.set_bet(0, 0, 101),
        Err(PlayerBalanceError::BalanceCannotBeNegative)
    ));
    assert!(matches!(
        game.add_bet(0, 101),
        Err(PlayerBalanceError::BalanceCannotBeNegative)
    ));
    assert_eq!(game.get_player_balance(0).unwrap(), 100);
}

#[test]
fn set_bet_debits_the_balance_at_once() {
    let mut game = Game::new();
    game.set_player_balances(vec![100]).unwrap();
    game.set_bet(0, 0, 40).unwrap();
    assert_eq!(game.get_player_balance(0).unwrap(), 60);
    assert_eq!(game.get_bet(0, 0).unwrap(), 40);
}

#[test]
fn add_bet_stages_a_second_hand() {
    let mut game = Game::new();
    game.set_player_balances(vec![100]).unwrap();
    game.set_bet(0, 0, 30).unwrap();
    game.add_bet(0, 20).unwrap();
    assert_eq!(game.get_player_balance(0).unwrap(), 50);
    assert_eq!(game.get_bet(0, 0).unwrap(), 30);
    assert_eq!(game.get_bet(0, 1).unwrap(), 20);
}

#[test]
fn uncovered_bets_reset_when_the_balance_drops() {
    let mut game = Game::new();
    game.set_player_balances(vec![100]).unwrap();
    game.set_bet(0, 0, 40).unwrap();
    game.set_player_balance(0, 10).unwrap();
    assert_eq!(game.get_bet(0, 0).unwrap(), 0);
    assert!(matches!(
        game.get_bet(0, 1),
        Err(PlayerBalanceError::HandDoesNotExist)
    ));
}

#[test]
fn modify_balance_applies_signed_amounts() {
    let mut game = Game::new();
    game.set_player_balances(vec![100]).unwrap();
    game.modify_player_balance(0, 25).unwrap();
    assert_eq!(game.get_player_balance(0).unwrap(), 125);
    game.modify_player_balance(0, -125).unwrap();
    assert_eq!(game.get_player_balance(0).unwrap(), 0);
}
