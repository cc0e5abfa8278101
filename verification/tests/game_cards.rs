use chesspoker::game::cards::{CardEffect, Cards};
use chesspoker::game::gameeffect::{draw, get_card_effect_textures, get_card_effects, set_card_effect};
use chesspoker::game::turnmanager::TurnManager;

#[test]
fn piles_start_as_dealt() {
    let cards = Cards::new();
    let textures = cards.get_card_pile_textures();
    assert_eq!(textures[0], "addsquares.png");
    assert_eq!(textures[1], "knight.png");
    assert_eq!(textures[2], "droppedsquares.png");
    assert_eq!(textures[3], "slower.png");
    assert_eq!(cards.get_last_effect_texture(), None);
    assert!(cards.has_effect_been_used(&CardEffect::Knight));
    assert!(!cards.has_effect_been_used(&CardEffect::HalveTimeLeft));
}

#[test]
fn drawing_plays_and_refills_the_pile() {
    let mut cards = Cards::new();
    let mut tm = TurnManager::new_two_player(1, 2, 500, 2);
    cards.draw_card_from_pile(&1, vec![&mut tm]);
    assert_eq!(cards.get_last_effect_texture(), Some("knight.png".to_string()));
    let refills = vec![
        "slower.png".to_string(),
        "halvetimeleft.png".to_string(),
        "intoflick.png".to_string(),
        "turnstimed.png".to_string(),
        "droppedsquares.png".to_string(),
        "addsquares.png".to_string(),
        "backtoback.png".to_string(),
    ];
    let pile = cards.get_card_pile_textures()[1].clone();
    assert!(refills.contains(&pile));
    assert_ne!(pile, "knight.png");
    assert!(cards.has_effect_been_used(&CardEffect::Knight));
    assert_eq!(tm.get_ticks_left_for_players_turn(1), Some(100));
}

#[test]
fn playing_an_effect_reaches_the_turns() {
    let mut cards = Cards::new();
    let mut tm = TurnManager::new_two_player(1, 2, 500, 2);
    cards.set_card_effect(CardEffect::TurnsTimed(7), vec![&mut tm]);
    assert_eq!(cards.get_last_effect_texture(), Some("turnstimed.png".to_string()));
    assert_eq!(tm.get_ticks_left_for_players_turn(1), Some(7));
    assert_eq!(
        Cards::get_active_card_effect_textures(vec![&tm]),
        vec!["turnstimed.png".to_string(), "pawnspromoted.png".to_string()]
    );
    cards.set_random_card_effect(vec![&mut tm]);
    assert_eq!(cards.get_last_effect_texture(), Some("droppedsquares.png".to_string()));
}

#[test]
fn effects_of_parts_in_order() {
    let mut tm = TurnManager::new_two_player(1, 2, 500, 2);
    let mut other = TurnManager::new_two_player(1, 2, 500, 2);
    assert_eq!(set_card_effect(CardEffect::BackToBackTurns, vec![&mut tm]), "backtoback.png");
    assert_eq!(draw(vec![&mut other]), "droppedsquares.png");
    assert_eq!(
        get_card_effects(vec![&tm, &other]),
        vec![
            CardEffect::TurnsTimed(100),
            CardEffect::BackToBackTurns,
            CardEffect::PawnsPromoted(true),
            CardEffect::TurnsTimed(100),
            CardEffect::PawnsPromoted(true),
        ]
    );
    assert_eq!(get_card_effect_textures(vec![&other]), vec!["turnstimed.png".to_string(), "pawnspromoted.png".to_string()]);
    assert_eq!(CardEffect::TurnsUntilDrawAvailable(3).get_card_texture_location(), "3turnsuntildraw.png");
    assert_eq!(CardEffect::LevelPieces.get_card_texture_location(), "XX.png");
}

#[test]
fn playing_an_effect_reaches_every_part() {
    let mut cards = Cards::new();
    let mut first = TurnManager::new_two_player(1, 2, 500, 2);
    let mut second = TurnManager::new_two_player(1, 2, 300, 2);
    cards.set_card_effect(CardEffect::HalveTimeLeft, vec![&mut first, &mut second]);
    assert_eq!(first.get_players_total_ticks_left(1), 250);
    assert_eq!(second.get_players_total_ticks_left(2), 150);
    set_card_effect(CardEffect::TurnsTimed(9), vec![&mut first, &mut second]);
    assert_eq!(first.get_ticks_left_for_players_turn(1), Some(9));
    assert_eq!(second.get_ticks_left_for_players_turn(1), Some(9));
}
