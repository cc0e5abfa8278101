use chesspoker::chesspoker::gameengine::{init_chess_game, is_boardsquare_white};
use chesspoker::chesspoker::gameengine::datastructs::PieceKind;
use chesspoker::board::squareorder::boardsquareorder;
use chesspoker::chesspoker::gameengine::datastructs::{PieceAction, PieceData};
use chesspoker::chesspoker::gameengine::get_square_pos_that_action_takes_piece_at_pos;
use chesspoker::chesspoker::gameengine::get_actions_allowed_by_piece;
use chesspoker::chesspoker::maingame::boardmoves::SquareOccupancy;
use std::collections::HashSet;

fn slides_of(actions: &Vec<PieceAction>) -> Vec<(u8, u8)> {
    let mut r: Vec<(u8, u8)> = actions
        .iter()
        .filter_map(|a| match a {
            PieceAction::slide(d, k) => Some((*d, *k)),
            _ => None,
        })
        .collect();
    r.sort();
    r.dedup();
    r
}

fn lifts_of(actions: &Vec<PieceAction>) -> Vec<(i8, i8)> {
    let mut r: Vec<(i8, i8)> = actions
        .iter()
        .filter_map(|a| match a {
            PieceAction::liftandmove(p) => Some(*p),
            _ => None,
        })
        .collect();
    r.sort();
    r.dedup();
    r
}

fn captures_of(actions: &Vec<PieceAction>) -> Vec<u8> {
    let mut r: Vec<u8> = actions
        .iter()
        .filter_map(|a| match a {
            PieceAction::checkerscapture(d) => Some(*d),
            _ => None,
        })
        .collect();
    r.sort();
    r.dedup();
    r
}

#[test]
fn new_piece_has_no_moves() {
    let d = PieceData::new();
    assert_eq!(d.get_value(), 0);
    assert!(d.canflick());
    assert_eq!(d.get_type_name(), "none");
    assert!(d.get_piece_actions(0).is_empty());
}

#[test]
fn pawn_moves_and_values() {
    let mut d = PieceData::new();
    d.set_pawn();
    assert_eq!(d.get_value(), 1);
    assert_eq!(d.get_type_name(), "pawn");
    let a = d.get_piece_actions(0);
    assert_eq!(slides_of(&a), vec![(0, 1), (0, 2), (1, 1), (7, 1)]);
    assert!(d.is_action_allowed(PieceAction::slide(0, 2), 0));
    assert!(!d.is_action_allowed(PieceAction::slide(0, 3), 0));
    assert!(d.is_action_allowed(PieceAction::slide(4, 2), 4));
    assert_eq!(d.get_capture_type_of_slide(1, 1, 0), (true, true));
    assert_eq!(d.get_capture_type_of_slide(0, 2, 0), (false, false));
    d.moved_piece();
    assert!(!d.is_action_allowed(PieceAction::slide(0, 2), 0));
    assert!(d.is_action_allowed(PieceAction::slide(0, 1), 0));
}

#[test]
fn other_kinds() {
    let mut d = PieceData::new();
    d.set_knight();
    assert_eq!(d.get_value(), 2);
    let a = d.get_piece_actions(0);
    assert_eq!(lifts_of(&a).len(), 8);
    assert!(d.is_action_allowed(PieceAction::liftandmove((2, -1)), 0));
    assert!(!d.is_action_allowed(PieceAction::liftandmove((2, 2)), 0));
    assert_eq!(d.get_capture_type_of_lift_and_move((-1, 2), 0), (false, true));
    d.set_rook();
    assert_eq!(d.get_value(), 3);
    assert_eq!(d.get_type_name(), "rook");
    assert_eq!(slides_of(&d.get_piece_actions(0)).len(), 28);
    d.set_queen();
    assert_eq!(d.get_value(), 4);
    assert_eq!(slides_of(&d.get_piece_actions(2)).len(), 56);
    d.set_bishop();
    assert_eq!(d.get_value(), 2);
    d.set_king();
    assert_eq!(d.get_value(), 0);
    assert_eq!(slides_of(&d.get_piece_actions(0)).len(), 8);
    d.set_pool_ball();
    assert_eq!(d.get_type_name(), "poolball");
    assert!(d.get_piece_actions(0).is_empty());
    assert!(d.canflick());
}

#[test]
fn checkers_moves() {
    let mut d = PieceData::new();
    d.set_checkers();
    assert_eq!(d.get_value(), 2);
    assert_eq!(d.get_type_name(), "checkers");
    let a = d.get_piece_actions(4);
    assert_eq!(slides_of(&a), vec![(1, 1), (3, 1), (5, 1), (7, 1)]);
    assert_eq!(captures_of(&a), vec![1, 3, 5, 7]);
    assert_eq!(a.len(), 8);
}

#[test]
fn where_engine_moves_take_a_piece() {
    assert_eq!(PieceAction::slide(1, 3).get_relative_position_action_takes_piece(), (3, 3));
    assert_eq!(PieceAction::slide(6, 2).get_relative_position_action_takes_piece(), (-2, 0));
    assert_eq!(PieceAction::slide(0, 2).get_square_posid_that_action_takes_piece_at_posid((3, 6)), None);
    assert_eq!(PieceAction::slide(0, 1).get_square_posid_that_action_takes_piece_at_posid((3, 6)), Some((3, 7)));
    assert_eq!(PieceAction::liftandmove((-1, 2)).get_square_posid_that_action_takes_piece_at_posid((0, 0)), None);
    assert_eq!(get_square_pos_that_action_takes_piece_at_pos((2, 2), PieceAction::liftandmove((1, 2))), Some((3, 4)));
    assert_eq!(get_square_pos_that_action_takes_piece_at_pos((2, 2), PieceAction::checkerscapture(1)), None);
}

#[test]
fn board_squares_in_rings() {
    let order = boardsquareorder();
    assert_eq!(order.len(), 64 + 100 + 144 + 256 + 576);
    let first: HashSet<(i8, i8)> = order[0..64].iter().cloned().collect();
    assert_eq!(first.len(), 64);
    assert!(first.iter().all(|p| 0 <= p.0 && p.0 < 8 && 0 <= p.1 && p.1 < 8));
    let last: HashSet<(i8, i8)> = order[564..].iter().cloned().collect();
    assert_eq!(last.len(), 576);
    assert!(last.contains(&(-8, 15)));
}

#[test]
fn board_squares_alternate_colours() {
    assert!(is_boardsquare_white((0, 0)));
    assert!(!is_boardsquare_white((0, 1)));
    assert!(!is_boardsquare_white((3, 4)));
    assert!(is_boardsquare_white((7, 7)));
}

#[test]
fn chess_game_starts_with_pawns_then_back_rows() {
    let layout = init_chess_game();
    assert_eq!(layout.len(), 32);
    assert_eq!(layout[0], (1, (0, 1), PieceKind::Pawn));
    assert_eq!(layout[7], (1, (7, 1), PieceKind::Pawn));
    assert_eq!(layout[8], (1, (0, 0), PieceKind::Rook));
    assert_eq!(layout[11], (1, (3, 0), PieceKind::Queen));
    assert_eq!(layout[12], (1, (4, 0), PieceKind::King));
    assert_eq!(layout[16], (2, (0, 6), PieceKind::Pawn));
    assert_eq!(layout[28], (2, (4, 7), PieceKind::King));
    assert_eq!(layout[31], (2, (7, 7), PieceKind::Rook));
}

fn board_with(cells: &[((u8, u8), SquareOccupancy)]) -> Vec<SquareOccupancy> {
    let mut board = vec![SquareOccupancy::Empty; 64];
    for ((x, y), occ) in cells {
        board[(*x as usize) * 8 + *y as usize] = *occ;
    }
    board
}

#[test]
fn allowed_actions_of_a_piece_off_the_board() {
    let mut rook = PieceData::new();
    rook.set_rook();
    let (canflick, actions) = get_actions_allowed_by_piece(&rook, 0, None, &board_with(&[]));
    assert!(!canflick);
    assert!(actions.is_empty());
}

#[test]
fn allowed_actions_of_a_rook_stop_at_pieces() {
    let mut rook = PieceData::new();
    rook.set_rook();
    let board = board_with(&[
        ((0, 0), SquareOccupancy::Friendly),
        ((0, 3), SquareOccupancy::Opponents),
        ((4, 0), SquareOccupancy::Friendly),
    ]);
    let (canflick, actions) = get_actions_allowed_by_piece(&rook, 0, Some((0, 0)), &board);
    assert_eq!(canflick, rook.canflick());
    assert_eq!(slides_of(&actions), vec![(0, 1), (0, 2), (0, 3), (2, 1), (2, 2), (2, 3)]);
    assert!(actions.iter().all(|a| matches!(a, PieceAction::slide(_, _))));
}

#[test]
fn allowed_actions_of_a_knight_land_on_the_board() {
    let mut knight = PieceData::new();
    knight.set_knight();
    let board = board_with(&[
        ((0, 0), SquareOccupancy::Friendly),
        ((1, 2), SquareOccupancy::Friendly),
        ((2, 1), SquareOccupancy::Opponents),
    ]);
    let (_, actions) = get_actions_allowed_by_piece(&knight, 0, Some((0, 0)), &board);
    let mut lifts: Vec<(i8, i8)> = actions
        .iter()
        .filter_map(|a| match a {
            PieceAction::liftandmove(p) => Some(*p),
            _ => None,
        })
        .collect();
    lifts.sort();
    lifts.dedup();
    assert_eq!(lifts, vec![(2, 1)]);
}
