use chesspoker::cardstructs::{Card, CardEffect, CardSuit, CardValue, CardsInterface};

#[test]
fn root_cards() {
    let c = Card::new(CardValue::queen, CardSuit::clubs, CardEffect::noeffect);
    assert_eq!(c.blackjackvalue(), 10);
    assert_eq!(c.numbervalue(), 12);
    assert_eq!(c.suitvalue(), 0);
    assert!(!c.is_ace());
    let jokers = vec![CardEffect::backtobackturns, CardEffect::halvetimeleft, CardEffect::makepoolgame];
    for _ in 0..30 {
        assert!(jokers.contains(&CardsInterface::get_joker_card_effect()));
        assert!(jokers.contains(&Card::new_random_joker_card().effect));
        let e = Card::new_random_card().effect;
        assert!(jokers.contains(&e) || e == CardEffect::raisesquare || e == CardEffect::dropsquare);
    }
}
