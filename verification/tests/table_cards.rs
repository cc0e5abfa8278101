use chesspoker::chesspoker::cardstructs::{card_suit_from_index, card_value_from_index, Card, CardSuit, CardValue, CardsInterface};

#[test]
fn table_cards() {
    assert_eq!(card_value_from_index(0), CardValue::ace);
    assert_eq!(card_value_from_index(12), CardValue::king);
    assert_eq!(card_suit_from_index(2), CardSuit::hearts);
    let c = Card::new_random_card();
    assert!(c.numbervalue() >= 1 && c.numbervalue() <= 13);
    assert!(c.suitvalue() <= 3);
}

#[test]
fn drawing_and_removing_cards() {
    let mut c = CardsInterface::new_two_player();
    assert!(c.get_all_card_ids().is_empty());
    let id = c.draw_card(1);
    assert_eq!(id, 0);
    assert!(c.does_card_exist(0));
    assert!(c.does_player_own_card(1, 0));
    assert!(!c.does_player_own_card(2, 0));
    assert_eq!(c.where_is_card(0), (1, 1, 1));
    let id2 = c.draw_card(1);
    assert_eq!(id2, 1);
    assert_eq!(c.where_is_card(1), (1, 2, 2));
    assert_eq!(c.get_all_card_ids().len(), 2);
    c.remove_card_from_game(1, 0);
    assert!(!c.does_card_exist(0));
    assert!(!c.does_player_own_card(1, 0));
    assert_eq!(c.tick(), None);
    assert!(c.does_card_exist(1));
}

#[test]
fn joker_cards_vanish_unless_kept() {
    let mut c = CardsInterface::new_two_player();
    let id = c.get_joker_card();
    assert!(c.does_card_exist(id));
    let _ = c.get_card_unsafe(id);
    assert_eq!(c.tick(), None);
    assert!(!c.does_card_exist(id));
}

#[test]
fn poker_game_runs_four_rounds() {
    let mut c = CardsInterface::new_two_player();
    assert!(!c.is_pokergame_ongoing());
    assert!(c.is_showdown_rankable());
    assert_eq!(c.pool_debt_of_player(&1), 0);
    c.start_poker_game(1, 2);
    assert!(c.is_showdown_rankable());
    assert!(c.is_pokergame_ongoing());
    assert_eq!(c.pool_debt_of_player(&1), 1);
    assert_eq!(c.pool_debt_of_player(&2), 2);
    assert_eq!(c.pokergame_options(1), Some(1));
    assert_eq!(c.pokergame_options(2), None);
    assert_eq!(c.get_all_card_ids().len(), 9);
    c.player_checks();
    assert_eq!(c.pool_debt_of_player(&1), 2);
    assert_eq!(c.pokergame_options(2), Some(0));
    c.player_raises(3);
    assert_eq!(c.pool_debt_of_player(&2), 5);
    assert_eq!(c.pokergame_options(1), Some(3));
    for _ in 0..3 {
        assert_eq!(c.tick(), None);
        c.player_checks();
        c.player_checks();
    }
    assert_eq!(c.pokergame_options(1), None);
    if !c.is_showdown_rankable() {
        return;
    }
    let winner = c.tick();
    assert!(winner == Some(1) || winner == Some(2));
    assert!(!c.is_pokergame_ongoing());
    assert!(c.get_all_card_ids().is_empty());
}

#[test]
fn folding_ends_the_poker_game() {
    let mut c = CardsInterface::new_two_player();
    c.start_poker_game(1, 2);
    c.player_folds();
    assert_eq!(c.pokergame_options(1), None);
    assert!(c.is_pokergame_ongoing());
}

#[test]
fn showdown_goes_to_the_higher_rank() {
    use_showdown();
}

fn use_showdown() {
    use_winner((8, 9), (0, 341), 1);
    use_winner((1, 5), (1, 7), 2);
    use_winner((3, 4), (3, 4), 1);
    use_winner((2, 100), (5, 0), 2);
}

fn use_winner(a: (u8, u32), b: (u8, u32), expected: u8) {
    assert_eq!(chesspoker::chesspoker::cardstructs::showdown_winner(a, b), expected);
}


#[test]
fn the_player_who_folds_loses() {
    for _ in 0..20 {
        let mut c = CardsInterface::new_two_player();
        c.start_poker_game(1, 2);
        c.player_folds();
        assert!(c.is_showdown_rankable());
        assert_eq!(c.tick(), Some(2));
        assert!(!c.is_pokergame_ongoing());
    }
    let mut c = CardsInterface::new_two_player();
    c.start_poker_game(1, 2);
    c.player_checks();
    c.player_folds();
    assert_eq!(c.tick(), Some(1));
    assert!(!c.is_pokergame_ongoing());
}
