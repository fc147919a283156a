use vingt_et_un::shoe::{CustomShoe, Shoe, StandardShoe};

#[test]
fn standard_shoe_creation() {
    let shoe = StandardShoe::new(8);
    assert_eq!(shoe.deck.iter().filter(|x| **x == 10).count(), 128);
    assert_eq!(shoe.deck.iter().filter(|x| **x == 3).count(), 32);
}

#[test]
fn standard_shoe_no_cards() {
    let mut shoe = StandardShoe::new(1);
    shoe.deck.clear();
    shoe.deal();
}

#[test]
fn standard_shoe_reshuffles_when_low() {
    let mut shoe = StandardShoe::new(1);
    shoe.deck.truncate(5);
    shoe.on_new_round();
    assert_eq!(shoe.deck.len(), 52);
}

#[test]
fn custom_shoe_deals_from_the_back() {
    let mut shoe = CustomShoe::new(vec![4, 9, 2]);
    assert_eq!(shoe.deal(), 2);
    assert_eq!(shoe.deal(), 9);
    assert_eq!(shoe.deal(), 4);
}
