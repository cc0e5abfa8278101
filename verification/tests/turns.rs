use chesspoker::game::cards::{CardEffect, EffectTrait};
use std::collections::HashSet;

fn set_of(ids: &[u8]) -> HashSet<u8> {
    ids.iter().cloned().collect()
}

#[test]
fn timed_turns_start_with_player_one() {
    let tm = chesspoker::chesspoker::datastructs::TurnManager::new_two_player(1, 2);
    assert!(tm.is_active_turns());
    assert_eq!(tm.get_current_players(), set_of(&[1]));
    assert_eq!(tm.get_ticks_left_for_players_turn(1), Some(30));
    assert_eq!(tm.get_ticks_left_for_players_turn(2), None);
    assert_eq!(tm.get_players_total_ticks_left(1), 9000);
    assert_eq!(tm.get_players_total_ticks_left(2), 9000);
    assert!(!tm.is_it_this_players_turns_last_tick(1));
}

#[test]
fn timed_turns_tick_costs_the_player_on_turn() {
    let mut tm = chesspoker::chesspoker::datastructs::TurnManager::new_two_player(1, 2);
    tm.tick();
    assert_eq!(tm.get_ticks_left_for_players_turn(1), Some(29));
    assert_eq!(tm.get_players_total_ticks_left(1), 8999);
    assert_eq!(tm.get_players_total_ticks_left(2), 9000);
    for _ in 0..28 {
        tm.tick();
    }
    assert_eq!(tm.get_ticks_left_for_players_turn(1), Some(1));
    assert!(tm.is_it_this_players_turns_last_tick(1));
    tm.tick();
    assert_eq!(tm.get_current_players(), set_of(&[2]));
    assert_eq!(tm.get_ticks_left_for_players_turn(2), Some(1800));
    assert_eq!(tm.get_players_total_ticks_left(1), 8971);
    assert_eq!(tm.get_players_total_ticks_left(2), 8999);
}

#[test]
fn timed_turns_action_passes_the_turn() {
    let mut tm = chesspoker::chesspoker::datastructs::TurnManager::new_two_player(1, 2);
    tm.player_took_action(1);
    assert_eq!(tm.get_current_players(), set_of(&[2]));
    assert_eq!(tm.get_players_total_ticks_left(1), 9001);
    assert_eq!(tm.get_players_total_ticks_left(2), 8999);
    tm.player_took_action(1);
    assert_eq!(tm.get_current_players(), set_of(&[2]));
    tm.player_took_action(2);
    assert_eq!(tm.get_current_players(), set_of(&[1]));
    assert_eq!(tm.get_players_total_ticks_left(2), 9000);
    tm.timeless_upkeep();
    assert_eq!(tm.get_current_players(), set_of(&[1]));
}

#[test]
fn timed_turns_scenario_runs() {
    chesspoker::chesspoker::datastructs::test_turn_manager();
    let s = chesspoker::chesspoker::datastructs::GameSettings::new();
    let _ = s;
}

#[test]
fn short_turns_cycle_every_forty_ticks() {
    let mut tm = chesspoker::chesspoker::maingame::datastructs::TurnManager::new_two_player(1, 2);
    assert!(tm.is_active_turns());
    assert_eq!(tm.get_current_players(), set_of(&[1]));
    for _ in 0..9 {
        tm.tick();
    }
    assert_eq!(tm.get_current_players(), set_of(&[1]));
    tm.tick();
    assert_eq!(tm.get_current_players(), set_of(&[2]));
    for _ in 0..29 {
        tm.tick();
    }
    assert_eq!(tm.get_current_players(), set_of(&[2]));
    tm.tick();
    assert_eq!(tm.get_current_players(), set_of(&[1]));
}

#[test]
fn short_turns_action_passes_the_turn() {
    let mut tm = chesspoker::chesspoker::maingame::datastructs::TurnManager::new_two_player(1, 2);
    tm.player_took_action(2);
    assert_eq!(tm.get_current_players(), set_of(&[1]));
    tm.player_took_action(1);
    assert_eq!(tm.get_current_players(), set_of(&[2]));
    tm.player_took_action(2);
    assert_eq!(tm.get_current_players(), set_of(&[1]));
    tm.timeless_upkeep();
    assert_eq!(tm.get_current_players(), set_of(&[1]));
    chesspoker::chesspoker::maingame::datastructs::test_turn_manager();
}

#[test]
fn turn_table_starts_untimed() {
    let tm = chesspoker::datastructs::TurnManager::new_two_player(1, 2);
    assert_eq!(tm.get_current_players(), set_of(&[1]));
    assert!(tm.did_turn_change());
    assert_eq!(tm.get_turn_number(), 0);
    assert_eq!(tm.get_ticks_left_for_players_turn(1), 99998);
    assert_eq!(tm.get_ticks_left_for_players_turn(2), 0);
    assert_eq!(tm.get_players_total_ticks_left(1), 10000);
}

#[test]
fn turn_table_timed_turns_change() {
    let mut tm = chesspoker::datastructs::TurnManager::new_two_player(1, 2);
    tm.tick(false, Some(3));
    assert!(!tm.did_turn_change());
    assert_eq!(tm.get_ticks_left_for_players_turn(1), 0);
    assert_eq!(tm.get_players_total_ticks_left(1), 9999);
    tm.tick(false, Some(3));
    assert!(tm.did_turn_change());
    assert_eq!(tm.get_turn_number(), 1);
    assert_eq!(tm.get_current_players(), set_of(&[2]));
    assert_eq!(tm.get_players_total_ticks_left(1), 9998);
    assert_eq!(tm.get_ticks_left_for_players_turn(2), 3);
    tm.player_took_action(2);
    tm.tick(false, Some(3));
    assert!(tm.did_turn_change());
    assert_eq!(tm.get_turn_number(), 2);
    assert_eq!(tm.get_current_players(), set_of(&[1]));
    assert_eq!(tm.get_players_total_ticks_left(2), 9999);
}

#[test]
fn turn_table_double_turns() {
    let mut tm = chesspoker::datastructs::TurnManager::new_two_player(1, 2);
    tm.tick(true, Some(0));
    assert!(tm.did_turn_change());
    assert_eq!(tm.get_current_players(), set_of(&[1]));
    tm.tick(true, Some(0));
    assert_eq!(tm.get_current_players(), set_of(&[2]));
    tm.tick(true, Some(0));
    assert_eq!(tm.get_current_players(), set_of(&[2]));
    tm.tick(true, Some(0));
    assert_eq!(tm.get_current_players(), set_of(&[1]));
    tm.tick(false, Some(0));
    assert_eq!(tm.get_current_players(), set_of(&[2]));
    assert_eq!(tm.get_turn_number(), 5);
}

#[test]
fn turn_table_halves_time_toward_zero() {
    let mut tm = chesspoker::datastructs::TurnManager::new_two_player(1, 2);
    tm.tick(false, None);
    tm.halve_time_left();
    assert_eq!(tm.get_players_total_ticks_left(1), 4999);
    assert_eq!(tm.get_players_total_ticks_left(2), 5000);
}

#[test]
fn alternating_turns_start_with_player_one() {
    let tm = chesspoker::game::turnmanager::TurnManager::new_two_player(1, 2, 500, 2);
    assert_eq!(tm.get_current_players(), set_of(&[1]));
    assert_eq!(tm.get_ticks_left_for_players_turn(1), Some(100));
    assert_eq!(tm.get_ticks_left_for_players_turn(2), None);
    assert_eq!(tm.get_players_total_ticks_left(2), 500);
    assert_eq!(tm.turns_until_draw(), Some(2));
    assert!(!tm.can_player_draw(&1));
}

#[test]
fn alternating_turns_draw_wait() {
    let mut tm = chesspoker::game::turnmanager::TurnManager::new_two_player(1, 2, 500, 2);
    tm.player_took_action(1);
    assert_eq!(tm.get_current_players(), set_of(&[2]));
    assert_eq!(tm.turns_until_draw(), Some(1));
    tm.player_took_action(2);
    assert_eq!(tm.get_current_players(), set_of(&[1]));
    assert_eq!(tm.turns_until_draw(), Some(0));
    assert!(tm.can_player_draw(&1));
    tm.player_took_action(1);
    assert_eq!(tm.turns_until_draw(), Some(0));
    tm.player_drew();
    assert_eq!(tm.turns_until_draw(), Some(3));
}

#[test]
fn alternating_turns_time_runs_out() {
    let mut tm = chesspoker::game::turnmanager::TurnManager::new_two_player(1, 2, 500, 2);
    for _ in 0..100 {
        tm.tick();
    }
    assert_eq!(tm.get_current_players(), set_of(&[1]));
    assert_eq!(tm.get_ticks_left_for_players_turn(1), Some(0));
    assert_eq!(tm.get_players_total_ticks_left(1), 400);
    tm.tick();
    assert_eq!(tm.get_current_players(), set_of(&[2]));
    assert_eq!(tm.get_players_total_ticks_left(1), 400);
    assert_eq!(tm.get_players_total_ticks_left(2), 499);
}

#[test]
fn alternating_turns_take_effects() {
    let mut tm = chesspoker::game::turnmanager::TurnManager::new_two_player(1, 2, 501, 2);
    assert_eq!(tm.get_effects(), vec![CardEffect::TurnsTimed(100), CardEffect::PawnsPromoted(true)]);
    tm.apply_effect(CardEffect::BackToBackTurns);
    assert_eq!(
        tm.get_effects(),
        vec![CardEffect::TurnsTimed(100), CardEffect::BackToBackTurns, CardEffect::PawnsPromoted(true)]
    );
    tm.player_took_action(1);
    assert_eq!(tm.get_current_players(), set_of(&[1]));
    tm.player_took_action(1);
    assert_eq!(tm.get_current_players(), set_of(&[2]));
    tm.apply_effect(CardEffect::HalveTimeLeft);
    assert_eq!(tm.get_players_total_ticks_left(1), 250);
    tm.apply_effect(CardEffect::TurnsTimed(5));
    assert_eq!(tm.get_ticks_left_for_players_turn(2), Some(5));
    tm.apply_effect(CardEffect::TurnsUntilDrawAvailable(7));
    assert_eq!(tm.turns_until_draw(), Some(7));
    tm.apply_effect(CardEffect::Knight);
    assert_eq!(tm.turns_until_draw(), Some(7));
}

#[test]
fn upkeep_leaves_a_running_cycle_unchanged() {
    let mut tm = chesspoker::chesspoker::datastructs::TurnManager::new_two_player(1, 2);
    for _ in 0..31 {
        tm.tick();
    }
    assert_eq!(tm.get_current_players(), set_of(&[2]));
    assert_eq!(tm.get_ticks_left_for_players_turn(2), Some(1799));
    tm.timeless_upkeep();
    assert!(tm.is_active_turns());
    assert_eq!(tm.get_current_players(), set_of(&[2]));
    assert_eq!(tm.get_ticks_left_for_players_turn(2), Some(1799));
    assert_eq!(tm.get_players_total_ticks_left(1), 8971);
    assert_eq!(tm.get_players_total_ticks_left(2), 8998);

    let mut short = chesspoker::chesspoker::maingame::datastructs::TurnManager::new_two_player(1, 2);
    for _ in 0..30 {
        short.tick();
    }
    assert_eq!(short.get_current_players(), set_of(&[2]));
    short.timeless_upkeep();
    short.timeless_upkeep();
    assert!(short.is_active_turns());
    assert_eq!(short.get_current_players(), set_of(&[2]));
}

#[test]
fn turn_table_action_then_double_turns() {
    let mut tm = chesspoker::datastructs::TurnManager::new_two_player(1, 2);
    tm.tick(true, None);
    tm.player_took_action(1);
    assert_eq!(tm.get_ticks_left_for_players_turn(1), 0);
    tm.tick(true, None);
    assert!(tm.did_turn_change());
    assert_eq!(tm.get_turn_number(), 1);
    assert_eq!(tm.get_current_players(), set_of(&[1]));
}

#[test]
fn turn_table_action_then_single_turns() {
    let mut tm = chesspoker::datastructs::TurnManager::new_two_player(1, 2);
    assert_eq!(tm.get_turn_number(), 0);
    tm.player_took_action(1);
    tm.tick(false, None);
    assert_eq!(tm.get_turn_number(), 1);
    assert_eq!(tm.get_current_players(), set_of(&[2]));
    assert!(tm.did_turn_change());
}

#[test]
fn turn_table_halving_keeps_the_turns() {
    let mut tm = chesspoker::datastructs::TurnManager::new_two_player(1, 2);
    tm.halve_time_left();
    assert_eq!(tm.get_players_total_ticks_left(1), 5000);
    assert_eq!(tm.get_players_total_ticks_left(2), 5000);
    assert_eq!(tm.get_current_players(), set_of(&[1]));
    assert_eq!(tm.get_turn_number(), 0);
    assert!(tm.did_turn_change());
}
