use chesspoker::board::conditions::{are_conditions_met, SquareState};
use chesspoker::board::piecetype::PieceType;
use chesspoker::board::squarecondition::SquareCondition;
use chesspoker::boardobject::piece::Piece;
use chesspoker::boardobject::square::Square;
use chesspoker::boardobject::BoardObject;
use chesspoker::chesspoker::messages::{ConnectedToGame, GameToConnectTo};
use chesspoker::game::boardengine::relativesquare::RelativeSquare as GameRelativeSquare;
use chesspoker::chesspoker::maingame::boardmoves::{
    get_slide_and_lift_actions_allowed_for_piece, get_square_that_action_takes_piece, BoardMove, SquareOccupancy,
};
use chesspoker::chesspoker::maingame::datastructs::{
    direction_change_to_slide_id_from_objective_perspective, players_perspective_to_objective_perspective_lift,
    players_perspective_to_objective_perspective_slide, slide_id_to_direction_change_from_objective_perspective,
    PieceTypeData,
};

fn empty_board() -> Vec<SquareOccupancy> {
    vec![SquareOccupancy::Empty; 64]
}

fn put(board: &mut Vec<SquareOccupancy>, x: usize, y: usize, o: SquareOccupancy) {
    board[x * 8 + y] = o;
}

fn slides(moves: &Vec<BoardMove>) -> Vec<(u8, u8)> {
    let mut r: Vec<(u8, u8)> = moves
        .iter()
        .filter_map(|m| match m {
            BoardMove::slide(d, s) => Some((*d, *s)),
            _ => None,
        })
        .collect();
    r.sort();
    r.dedup();
    r
}

fn lifts(moves: &Vec<BoardMove>) -> Vec<(i32, i32)> {
    let mut r: Vec<(i32, i32)> = moves
        .iter()
        .filter_map(|m| match m {
            BoardMove::liftandmove(p) => Some(*p),
            _ => None,
        })
        .collect();
    r.sort();
    r.dedup();
    r
}

#[test]
fn piece_values_and_pictures() {
    assert_eq!(PieceType::Nothing.value(), 0);
    assert_eq!(PieceType::Pawn.value(), 1);
    assert_eq!(PieceType::Knight.value(), 2);
    assert_eq!(PieceType::Bishop.value(), 3);
    assert_eq!(PieceType::Rook.value(), 4);
    assert_eq!(PieceType::Queen.value(), 5);
    assert_eq!(PieceType::King.value(), 12);
    assert_eq!(PieceType::Checker.value(), 2);
    assert_eq!(PieceType::Nothing.image_file(), "none.png");
    assert_eq!(PieceType::Queen.image_file(), "queen.png");
    assert_eq!(PieceType::Checker.image_file(), "checker.png");
}

#[test]
fn random_piece_is_never_a_king() {
    for _ in 0..50 {
        let t = PieceType::get_random();
        assert!(t != PieceType::King && t != PieceType::Nothing);
    }
}

#[test]
fn relative_squares() {
    let r = chesspoker::board::relativesquare::RelativeSquare::new((-9, 20));
    assert_eq!(r.get_relative_pos(), (-9, 20));
    assert_eq!(GameRelativeSquare::new((-7, 7)).map(|s| s.get_relative_pos()), Some((-7, 7)));
    assert!(GameRelativeSquare::new((8, 0)).is_none());
    assert!(GameRelativeSquare::new((0, -8)).is_none());
}

#[test]
fn square_conditions() {
    let free = || Some(SquareState { onmission: false, owners: vec![] });
    let mine = || Some(SquareState { onmission: false, owners: vec![2, 1] });
    let moving = || Some(SquareState { onmission: true, owners: vec![] });
    assert!(are_conditions_met(&vec![]));
    assert!(are_conditions_met(&vec![(free(), SquareCondition::NeedsEmpty), (mine(), SquareCondition::NeedsPlayerPiece(1))]));
    assert!(!are_conditions_met(&vec![(mine(), SquareCondition::NeedsEmpty)]));
    assert!(!are_conditions_met(&vec![(mine(), SquareCondition::NeedsNoPlayerPiece(2))]));
    assert!(are_conditions_met(&vec![(mine(), SquareCondition::NeedsNoPlayerPiece(3))]));
    assert!(!are_conditions_met(&vec![(free(), SquareCondition::NeedsPlayerPiece(1))]));
    assert!(!are_conditions_met(&vec![(moving(), SquareCondition::NeedsNothing)]));
    assert!(!are_conditions_met(&vec![(None, SquareCondition::NeedsNothing)]));
    assert!(are_conditions_met(&vec![(free(), SquareCondition::NeedsNothing)]));
}

#[test]
fn board_objects() {
    let p = Piece::new(4).as_boardobject();
    let s = Square::new(9).as_boardobject();
    assert_eq!(p, BoardObject::Piece(Piece::new(4)));
    assert_eq!(p.id(), 4);
    assert_eq!(s.id(), 9);
    assert_eq!(p.as_piece(), Some(Piece::new(4)));
    assert_eq!(p.as_square(), None);
    assert_eq!(s.as_square(), Some(Square::new(9)));
    assert_eq!(s.as_piece(), None);
}

#[test]
fn connection_messages() {
    assert_eq!(ConnectedToGame::new(5).playerid(), 5);
    assert_ne!(GameToConnectTo::joinprivategame(3), GameToConnectTo::joinpublicgame);
}

#[test]
fn directions_seen_from_the_board() {
    assert_eq!(players_perspective_to_objective_perspective_slide(&3, &6), 1);
    assert_eq!(players_perspective_to_objective_perspective_slide(&4, &0), 4);
    assert_eq!(players_perspective_to_objective_perspective_lift(&0, &(1, 2)), Some((1, 2)));
    assert_eq!(players_perspective_to_objective_perspective_lift(&2, &(1, 2)), Some((-2, 1)));
    assert_eq!(players_perspective_to_objective_perspective_lift(&4, &(1, 2)), Some((-1, -2)));
    assert_eq!(players_perspective_to_objective_perspective_lift(&1, &(1, 2)), Some((-1, 3)));
    assert_eq!(players_perspective_to_objective_perspective_lift(&1, &(100, -100)), None);
    assert_eq!(slide_id_to_direction_change_from_objective_perspective(3), (1, -1));
    assert_eq!(slide_id_to_direction_change_from_objective_perspective(6), (-1, 0));
    assert_eq!(slide_id_to_direction_change_from_objective_perspective(9), (0, 0));
    assert_eq!(direction_change_to_slide_id_from_objective_perspective((-1, 0)), 6);
    assert_eq!(direction_change_to_slide_id_from_objective_perspective((0, 1)), 0);
    assert_eq!(direction_change_to_slide_id_from_objective_perspective((-1, 1)), 7);
}

#[test]
fn piece_type_moves() {
    let mut d = PieceTypeData::new();
    let mut s = d.get_allowed_slide_actions(&0);
    s.sort();
    assert_eq!(s, vec![(0, 2, false, false), (1, 1, true, true), (7, 1, true, true)]);
    let mut s = d.get_allowed_slide_actions(&4);
    s.sort();
    assert_eq!(s, vec![(3, 1, true, true), (4, 2, false, false), (5, 1, true, true)]);
    assert!(d.get_allowed_lift_and_move(&0).is_empty());
    d.set_knight();
    assert!(d.get_allowed_slide_actions(&0).is_empty());
    assert_eq!(d.get_allowed_lift_and_move(&0).len(), 8);
    d.set_queen();
    assert_eq!(d.get_allowed_slide_actions(&2).len(), 8);
    d.set_king();
    assert!(d.get_allowed_slide_actions(&0).iter().all(|a| a.1 == 1));
    d.set_rook();
    d.set_bishop();
    d.set_pawn();
    assert_eq!(d.get_allowed_slide_actions(&0).len(), 3);
    d.get_if_castle_allowed();
}

#[test]
fn pawn_moves_on_the_board() {
    let d = PieceTypeData::new();
    let mut board = empty_board();
    let moves = get_slide_and_lift_actions_allowed_for_piece(&d, 0, Some((1, 1)), &board);
    assert_eq!(slides(&moves), vec![(0, 1), (0, 2)]);
    assert!(lifts(&moves).is_empty());
    put(&mut board, 2, 2, SquareOccupancy::Opponents);
    put(&mut board, 0, 2, SquareOccupancy::Friendly);
    let moves = get_slide_and_lift_actions_allowed_for_piece(&d, 0, Some((1, 1)), &board);
    assert_eq!(slides(&moves), vec![(0, 1), (0, 2), (1, 1)]);
    put(&mut board, 1, 2, SquareOccupancy::Opponents);
    let moves = get_slide_and_lift_actions_allowed_for_piece(&d, 0, Some((1, 1)), &board);
    assert_eq!(slides(&moves), vec![(1, 1)]);
    assert!(get_slide_and_lift_actions_allowed_for_piece(&d, 0, None, &board).is_empty());
}

#[test]
fn knight_and_rook_moves_on_the_board() {
    let mut d = PieceTypeData::new();
    d.set_knight();
    let mut board = empty_board();
    let moves = get_slide_and_lift_actions_allowed_for_piece(&d, 0, Some((0, 0)), &board);
    assert_eq!(lifts(&moves), vec![(1, 2), (2, 1)]);
    put(&mut board, 1, 2, SquareOccupancy::Friendly);
    put(&mut board, 2, 1, SquareOccupancy::Opponents);
    let moves = get_slide_and_lift_actions_allowed_for_piece(&d, 0, Some((0, 0)), &board);
    assert_eq!(lifts(&moves), vec![(2, 1)]);
    let mut r = PieceTypeData::new();
    r.set_rook();
    let mut board = empty_board();
    put(&mut board, 0, 3, SquareOccupancy::Friendly);
    put(&mut board, 4, 0, SquareOccupancy::Opponents);
    let moves = get_slide_and_lift_actions_allowed_for_piece(&r, 0, Some((0, 0)), &board);
    assert_eq!(slides(&moves), vec![(0, 1), (0, 2), (2, 1), (2, 2), (2, 3), (2, 4)]);
}

#[test]
fn where_moves_take_a_piece() {
    assert_eq!(get_square_that_action_takes_piece((1, 1), BoardMove::slide(0, 2)), (1, 3));
    assert_eq!(get_square_that_action_takes_piece((3, 3), BoardMove::slide(5, 3)), (0, 0));
    assert_eq!(get_square_that_action_takes_piece((0, 0), BoardMove::liftandmove((2, 1))), (2, 1));
}
