use chesspoker::chesspoker::cardstructs::{Card, CardValue, CardsInterface};
use std::collections::HashSet;

/// The card as rs_poker takes it.
fn rs_card(c: &Card) -> rs_poker::core::Card {
    let value = if c.is_ace() { 12 } else { (c.numbervalue() - 2) as u8 };
    let suit = match c.suitvalue() {
        0 => 1, // clubs
        1 => 3, // diamonds
        2 => 2, // hearts
        _ => 0, // spades
    };
    rs_poker::core::Card { value: rs_poker::core::Value::from_u8(value), suit: rs_poker::core::Suit::from_u8(suit) }
}

#[test]
fn random_cards_vary() {
    let mut values = HashSet::new();
    let mut suits = HashSet::new();
    for _ in 0..200 {
        let c = Card::new_random_card();
        values.insert(c.numbervalue());
        suits.insert(c.suitvalue());
    }
    assert!(values.len() > 1);
    assert!(suits.len() > 1);
    assert!(values.iter().all(|v| (1..=13).contains(v)));
}

#[test]
fn showdown_goes_by_rs_poker_ranks() {
    for _ in 0..20 {
        let mut c = CardsInterface::new_two_player();
        c.start_poker_game(1, 2);
        for _ in 0..4 {
            c.player_checks();
            c.player_checks();
            if c.pokergame_options(1).is_none() {
                break;
            }
            assert_eq!(c.tick(), None);
        }
        let mut hand1 = Vec::new();
        let mut hand2 = Vec::new();
        let mut river = Vec::new();
        for id in c.get_all_card_ids() {
            let card = rs_card(&c.get_card_unsafe(id));
            match c.where_is_card(id).0 {
                3 => hand1.push(card),
                4 => hand2.push(card),
                _ => river.push(card),
            }
        }
        assert_eq!((hand1.len(), hand2.len(), river.len()), (2, 2, 5));
        hand1.extend(river.iter().cloned());
        hand2.extend(river.iter().cloned());
        // rs_poker ranks no hand with five cards of one value.
        let too_many = |h: &Vec<rs_poker::core::Card>| h.iter().any(|a| h.iter().filter(|b| b.value == a.value).count() > 4);
        assert_eq!(c.is_showdown_rankable(), !(too_many(&hand1) || too_many(&hand2)));
        if !c.is_showdown_rankable() {
            continue;
        }
        let rank1 = rs_poker::core::Rankable::rank(&hand1);
        let rank2 = rs_poker::core::Rankable::rank(&hand2);
        let expected = if rank1 >= rank2 { 1 } else { 2 };
        assert_eq!(c.tick(), Some(expected));
    }
}

#[test]
fn aces_count_as_the_highest_poker_value() {
    let ace = Card::new(CardValue::ace, chesspoker::chesspoker::cardstructs::CardSuit::spades,
        chesspoker::chesspoker::cardstructs::CardEffect::pokergame);
    assert_eq!(rs_card(&ace).value, rs_poker::core::Value::Ace);
}
