use chesspoker::chesspoker::maingame::boardmoves::BoardMove;
use chesspoker::chesspoker::maingame::datastructs::Card;
use chesspoker::chesspoker::maingame::game::{MainGame, PhysicalAction};
use chesspoker::chesspoker::maingame::rules::{initialize_pieces, PlayerInput};
use std::collections::HashMap;

fn start_squares() -> HashMap<u32, (u32, u32)> {
    let mut squares = HashMap::new();
    for (i, (_, pos, _)) in initialize_pieces().iter().enumerate() {
        squares.insert(i as u32, *pos);
    }
    squares
}

fn sorted<T: Ord>(mut v: Vec<T>) -> Vec<T> {
    v.sort();
    v
}

/// Plays the two rounds of the poker game that a new game starts with.
fn finish_poker(g: &mut MainGame, squares: &HashMap<u32, (u32, u32)>) {
    for (player, card) in [(1u8, 0u16), (2, 4), (1, 1), (2, 5)] {
        assert!(g.receive_input(player, PlayerInput::playcardonboard(card), squares));
        assert!(g.tick(squares).is_empty());
    }
}

#[test]
fn new_game_deals_cards_and_pieces() {
    let g = MainGame::new_two_player();
    assert_eq!(sorted(g.get_all_piece_ids()), (0..32).collect::<Vec<u32>>());
    assert_eq!(sorted(g.get_all_card_ids()), (0..8).collect::<Vec<u16>>());
    assert_eq!(g.get_owner_of_card(5), 2);
    assert_eq!(g.get_owner_of_card(3), 1);
    assert_eq!(g.get_position_of_card_in_hand(6), 2);
    assert_eq!(g.get_card(2, 1), Some(Card::new_random_card()));
    assert_eq!(g.get_card(2, 2), None);
    let (hand1, river, hand2) = g.get_cards_in_game().unwrap();
    assert!(hand1.is_empty() && hand2.is_empty());
    assert_eq!(river.len(), 5);
    assert_eq!(g.get_all_board_square_ids().len(), 64);
    assert!(g.get_if_piece_can_be_flicked(3));
}

#[test]
fn square_cards_of_a_new_game_act_on_every_square() {
    let g = MainGame::new_two_player();
    let (pieces, squares) = g.get_pieces_and_squares_actable_by_card(0);
    assert!(pieces.is_empty());
    assert_eq!(squares.len(), 64);
    let (_, squares) = g.get_pieces_and_squares_actable_by_card(99);
    assert!(squares.is_empty());
}

#[test]
fn poker_game_asks_for_a_card_first() {
    let mut g = MainGame::new_two_player();
    let squares = start_squares();
    assert!(!g.receive_input(1, PlayerInput::pieceaction(0, BoardMove::slide(0, 1)), &squares));
    assert!(!g.receive_input(1, PlayerInput::playcardonsquare(0, (3, 3)), &squares));
    assert!(!g.receive_input(1, PlayerInput::playcardonpiece(0, 0), &squares));
    assert!(!g.receive_input(1, PlayerInput::playcardonboard(4), &squares));
    assert!(g.receive_input(1, PlayerInput::playcardonboard(0), &squares));
}

#[test]
fn tick_plays_the_queued_card_and_passes_the_turn() {
    let mut g = MainGame::new_two_player();
    let squares = start_squares();
    assert!(g.receive_input(1, PlayerInput::playcardonboard(0), &squares));
    assert!(g.tick(&squares).is_empty());
    assert_eq!(sorted(g.get_all_card_ids()), vec![1, 2, 3, 4, 5, 6, 7]);
    let (hand1, _, hand2) = g.get_cards_in_game().unwrap();
    assert_eq!(hand1, vec![Card::new_random_card()]);
    assert!(hand2.is_empty());
    assert_eq!(g.get_position_of_card_in_hand(3), 2);
    // Player 2 is on turn now: their card goes in, player 1's does not.
    assert!(g.receive_input(1, PlayerInput::playcardonboard(1), &squares));
    assert!(g.receive_input(2, PlayerInput::playcardonboard(4), &squares));
    assert!(g.tick(&squares).is_empty());
    let (hand1, _, hand2) = g.get_cards_in_game().unwrap();
    assert_eq!(hand1.len(), 1);
    assert_eq!(hand2.len(), 1);
}

#[test]
fn piece_moves_once_the_card_game_is_over() {
    let mut g = MainGame::new_two_player();
    let squares = start_squares();
    finish_poker(&mut g, &squares);
    let (hand1, river, hand2) = g.get_cards_in_game().unwrap();
    assert_eq!((hand1.len(), river.len(), hand2.len()), (2, 5, 2));
    assert!(!g.receive_input(1, PlayerInput::playcardonboard(2), &squares));
    assert!(!g.receive_input(1, PlayerInput::pieceaction(1, BoardMove::slide(4, 1)), &squares));
    assert!(!g.receive_input(1, PlayerInput::pieceaction(0, BoardMove::slide(0, 3)), &squares));
    assert!(g.receive_input(1, PlayerInput::pieceaction(0, BoardMove::slide(0, 1)), &squares));
    let actions = g.tick(&squares);
    assert_eq!(actions.len(), 1);
    assert!(matches!(actions[0], PhysicalAction::slide(0, (0, 1), 1)));
    assert!(g.receive_input(2, PlayerInput::pieceaction(1, BoardMove::slide(4, 2)), &squares));
    let actions = g.tick(&squares);
    assert!(matches!(actions[0], PhysicalAction::slide(1, (0, -1), 2)));
}

#[test]
fn square_card_drops_the_square() {
    let mut g = MainGame::new_two_player();
    let squares = start_squares();
    finish_poker(&mut g, &squares);
    assert!(g.receive_input(1, PlayerInput::playcardonsquare(2, (4, 4)), &squares));
    let actions = g.tick(&squares);
    assert_eq!(actions.len(), 1);
    assert!(matches!(actions[0], PhysicalAction::longdrop((4, 4), 50)));
    assert_eq!(g.get_owner_of_card(2), 1);
}

#[test]
fn knight_jumps_over_pieces() {
    let g = MainGame::new_two_player();
    let squares = start_squares();
    assert_eq!(sorted(g.get_board_squares_reachable_by_piece(0, &squares)), vec![(0, 2), (0, 3)]);
    assert_eq!(sorted(g.get_board_squares_reachable_by_piece(20, &squares)), vec![(0, 2), (2, 2)]);
    let moves = g.get_slide_and_lift_actions_allowed_for_piece(20, &squares);
    assert_eq!(moves.len(), 2);
    assert!(moves.iter().all(|m| matches!(m, BoardMove::liftandmove(_))));
    assert_eq!(g.get_square_that_action_takes_piece(20, BoardMove::liftandmove((1, 2)), &squares), (2, 2));
    let mut off_board = squares.clone();
    off_board.remove(&20);
    assert!(g.get_board_squares_reachable_by_piece(20, &off_board).is_empty());
}
