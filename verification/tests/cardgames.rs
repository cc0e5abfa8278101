use chesspoker::chesspoker::maingame::datastructs::{Card, CardEffect, CardSuit, CardValue};
use chesspoker::chesspoker::maingame::CardGame;

fn card(v: CardValue) -> Card {
    Card::new(v, CardSuit::hearts, CardEffect::dropsquare)
}

fn river() -> Vec<Card> {
    vec![card(CardValue::two), card(CardValue::three), card(CardValue::four), card(CardValue::five), card(CardValue::six)]
}

#[test]
fn blackjack_game_ends_with_two_cards_each() {
    let mut g = CardGame::new_blackjack();
    assert!(!g.is_game_over());
    assert!(g.must_player_play_card(1));
    assert!(g.is_player_allowed_to_play_card(1));
    g.play_card(1, card(CardValue::king));
    g.play_card(1, card(CardValue::ace));
    assert!(!g.must_player_play_card(1));
    assert!(!g.is_game_over());
    g.play_card(2, card(CardValue::two));
    assert!(!g.is_game_over());
    g.play_card(2, card(CardValue::three));
    assert!(g.is_game_over());
    assert!(!g.is_player_allowed_to_play_card(1));
    assert_eq!(g.get_cards_in_hand(2, 1), vec![card(CardValue::king), card(CardValue::ace)]);
    assert!(g.get_cards_in_river_appearance().is_empty());
}

#[test]
fn blackjack_hand_limit_is_four() {
    let mut g = CardGame::new_blackjack();
    for _ in 0..3 {
        g.play_card(1, card(CardValue::two));
    }
    assert!(g.is_player_allowed_to_play_card(1));
    g.play_card(1, card(CardValue::two));
    assert!(!g.is_player_allowed_to_play_card(1));
}

#[test]
fn poker_river_is_revealed_as_hands_fill() {
    let mut g = CardGame::new_poker(river());
    let shown = g.get_cards_in_river_appearance();
    let hidden = Card::new_unknown_card();
    assert_eq!(shown, vec![card(CardValue::two), card(CardValue::three), card(CardValue::four), hidden, hidden]);
    g.play_card(1, card(CardValue::ace));
    assert_eq!(g.get_cards_in_river_appearance()[3], hidden);
    g.play_card(2, card(CardValue::king));
    assert_eq!(g.get_cards_in_river_appearance()[3], card(CardValue::five));
    assert_eq!(g.get_cards_in_river_appearance()[4], hidden);
    assert!(g.is_player_allowed_to_play_card(2));
    g.play_card(1, card(CardValue::queen));
    assert!(!g.is_player_allowed_to_play_card(1));
    assert!(!g.is_game_over());
    g.play_card(2, card(CardValue::jack));
    assert!(g.is_game_over());
    assert_eq!(g.get_cards_in_river_appearance(), river());
}

#[test]
fn passing_stops_play() {
    let mut g = CardGame::new_blackjack();
    g.player_passes(1);
    assert!(!g.is_player_allowed_to_play_card(1));
    assert!(g.is_player_allowed_to_play_card(2));
    g.player_passes(7);
    assert!(!g.is_player_allowed_to_play_card(7));
}

#[test]
fn game_cards() {
    let king = card(CardValue::king);
    assert_eq!(king.blackjackvalue(), 10);
    assert_eq!(card(CardValue::seven).blackjackvalue(), 7);
    assert_eq!(king.numbervalue(), 13);
    assert_eq!(card(CardValue::ace).numbervalue(), 1);
    assert!(card(CardValue::ace).is_ace());
    assert!(!king.is_ace());
    assert_eq!(king.suitvalue(), 3);
    assert_eq!(Card::new(CardValue::two, CardSuit::diamonds, CardEffect::pokergame).suitvalue(), 1);
    let r = Card::new_random_card();
    assert_eq!(r, Card::new(CardValue::ace, CardSuit::spades, CardEffect::dropsquare));
    assert_ne!(Card::new_unknown_card(), Card::new(CardValue::ace, CardSuit::spades, CardEffect::raisesquare));
}
