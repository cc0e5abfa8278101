use chesspoker::datastructs::{CardEffect, GameEffects};

fn names(g: &GameEffects) -> Vec<String> {
    g.get_game_effect_names()
}

#[test]
fn effect_textures() {
    assert_eq!(CardEffect::TurnsUntilDrawAvailable(12).get_card_texture_location(), "12turnsuntildraw.png");
    assert_eq!(CardEffect::TurnsUntilDrawAvailable(0).get_card_texture_location(), "0turnsuntildraw.png");
    assert_eq!(
        CardEffect::TurnsUntilDrawAvailable(4294967295).get_card_texture_location(),
        "4294967295turnsuntildraw.png"
    );
    assert_eq!(CardEffect::RaiseSquares(5).get_card_texture_location(), "raisedsquares.png");
    assert_eq!(CardEffect::RemoveSquares(5).get_card_texture_location(), "droppedsquares.png");
    assert_eq!(CardEffect::MakePoolGame.get_card_texture_location(), "poolgame.png");
    assert_eq!(CardEffect::BackToBackTurns.get_card_texture_location(), "backtoback.png");
    assert_eq!(CardEffect::Chessify.get_card_texture_location(), "chessify.png");
}

#[test]
fn joker_effects_come_from_the_list() {
    let jokers = vec![
        CardEffect::BackToBackTurns,
        CardEffect::HalveTimeLeft,
        CardEffect::TurnsTimed(60),
        CardEffect::RaiseSquares(11),
        CardEffect::RemoveSquares(11),
        CardEffect::SplitPieceIntoPawns,
        CardEffect::Checkerify,
        CardEffect::Chessify,
        CardEffect::Knight,
    ];
    for _ in 0..100 {
        assert!(jokers.contains(&CardEffect::get_joker_card_effect()));
    }
}

#[test]
fn square_effects_add_up() {
    let mut g = GameEffects::new();
    assert!(names(&g).is_empty());
    g.set_card_effect(CardEffect::RaiseSquares(3));
    g.set_card_effect(CardEffect::RaiseSquares(4));
    assert_eq!(g.get_raised_squares(), 7);
    assert_eq!(names(&g), vec!["raisedsquares.png".to_string()]);
    g.set_card_effect(CardEffect::RemoveSquares(2));
    g.set_card_effect(CardEffect::RemoveSquares(5));
    assert_eq!(g.get_dropped_squares(), 7);
    assert_eq!(names(&g).len(), 2);
}

#[test]
fn merged_effect_moves_to_the_end() {
    let mut g = GameEffects::new();
    g.set_card_effect(CardEffect::RaiseSquares(1));
    g.set_card_effect(CardEffect::Knight);
    g.set_card_effect(CardEffect::RaiseSquares(2));
    assert_eq!(names(&g), vec!["knight.png".to_string(), "raisedsquares.png".to_string()]);
    assert_eq!(g.get_raised_squares(), 3);
}

#[test]
fn timed_turns_keep_the_shorter() {
    let mut g = GameEffects::new();
    assert_eq!(g.get_turn_length(), None);
    g.set_card_effect(CardEffect::TurnsTimed(60));
    g.set_card_effect(CardEffect::TurnsTimed(30));
    assert_eq!(g.get_turn_length(), Some(30));
    g.set_card_effect(CardEffect::TurnsTimed(45));
    assert_eq!(g.get_turn_length(), Some(30));
    assert_eq!(names(&g), vec!["turnstimed.png".to_string()]);
}

#[test]
fn same_effect_is_played_once() {
    let mut g = GameEffects::new();
    g.set_card_effect(CardEffect::Knight);
    g.set_card_effect(CardEffect::Knight);
    assert_eq!(names(&g).len(), 1);
    assert!(g.get_knightified());
    g.remove_card_effect(CardEffect::Knight);
    assert!(!g.get_knightified());
    assert!(names(&g).is_empty());
}

#[test]
fn draw_wait_counts_down() {
    let mut g = GameEffects::new();
    assert_eq!(g.get_turns_until_draw_available(), None);
    assert!(!g.is_draw_available());
    g.set_card_effect(CardEffect::TurnsUntilDrawAvailable(2));
    assert_eq!(g.get_turns_until_draw_available(), Some(2));
    assert!(!g.is_draw_available());
    g.decrement_turns_until_draw_available();
    g.decrement_turns_until_draw_available();
    assert_eq!(g.get_turns_until_draw_available(), Some(0));
    assert!(g.is_draw_available());
    g.decrement_turns_until_draw_available();
    assert_eq!(g.get_turns_until_draw_available(), Some(0));
    g.set_card_effect(CardEffect::TurnsUntilDrawAvailable(3));
    assert_eq!(g.get_turns_until_draw_available(), Some(3));
    assert_eq!(names(&g), vec!["3turnsuntildraw.png".to_string()]);
}

#[test]
fn square_counts_count_down_to_zero() {
    let mut g = GameEffects::new();
    g.set_card_effect(CardEffect::RaiseSquares(1));
    g.set_card_effect(CardEffect::RemoveSquares(0));
    g.decrement_raised_and_dropped_squares();
    assert_eq!(g.get_raised_squares(), 0);
    assert_eq!(g.get_dropped_squares(), 0);
    g.decrement_raised_and_dropped_squares();
    assert_eq!(g.get_raised_squares(), 0);
}

#[test]
fn rule_effects_are_reported() {
    let mut g = GameEffects::new();
    assert!(!g.get_are_pawns_promoted());
    assert!(!g.get_are_kings_replaced());
    assert!(!g.get_loss_without_king());
    assert!(!g.get_double_turns());
    g.set_card_effect(CardEffect::PawnsPromoted);
    g.set_card_effect(CardEffect::KingsReplaced);
    g.set_card_effect(CardEffect::LossWithoutKing);
    g.set_card_effect(CardEffect::BackToBackTurns);
    assert!(g.get_are_pawns_promoted());
    assert!(g.get_are_kings_replaced());
    assert!(g.get_loss_without_king());
    assert!(g.get_double_turns());
}

#[test]
fn random_effect_is_new_or_the_fallback() {
    let mut g = GameEffects::new();
    g.set_card_effect(CardEffect::Knight);
    g.set_card_effect(CardEffect::Chessify);
    for _ in 0..50 {
        let e = g.get_random_card_effect();
        assert!(e == CardEffect::RaiseSquares(2) || (e != CardEffect::Knight && e != CardEffect::Chessify));
    }
}

#[test]
fn random_effect_with_no_joker_in_play_is_a_joker_effect() {
    let jokers = [
        CardEffect::BackToBackTurns,
        CardEffect::HalveTimeLeft,
        CardEffect::TurnsTimed(60),
        CardEffect::RaiseSquares(11),
        CardEffect::RemoveSquares(11),
        CardEffect::SplitPieceIntoPawns,
        CardEffect::Checkerify,
        CardEffect::Chessify,
        CardEffect::Knight,
    ];
    let mut g = GameEffects::new();
    g.set_card_effect(CardEffect::PawnsPromoted);
    for _ in 0..50 {
        let e = g.get_random_card_effect();
        assert!(jokers.contains(&e));
        assert_ne!(e, CardEffect::RaiseSquares(2));
    }
}
