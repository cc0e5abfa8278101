use chesspoker::board::piecedata::{does_king_exist, does_player_own_piece, PieceData, PieceDatas};
use chesspoker::boardobject::piece::Piece;
use chesspoker::board::piecetype::PieceType;
use std::collections::HashSet;

#[test]
fn piece_image_marks_the_second_player() {
    let mut mine = PieceData::new(&1);
    assert_eq!(mine.get_image_location(), "none.png");
    mine.set_piecetype(&PieceType::Queen);
    assert_eq!(mine.get_image_location(), "queen.png");
    assert_eq!(mine.get_value(), 5);
    assert!(mine.is_this_piecetype(&PieceType::Queen));
    assert!(!mine.is_this_piecetype(&PieceType::King));
    let mut theirs = PieceData::new(&2);
    theirs.set_piecetype(&PieceType::Pawn);
    assert_eq!(theirs.get_image_location(), "b_pawn.png");
}

#[test]
fn opponent_is_the_other_player() {
    assert_eq!(PieceData::new(&1).opponent(), 2);
    assert_eq!(PieceData::new(&2).opponent(), 1);
}

#[test]
fn pieces_are_numbered_and_found_by_owner() {
    let mut datas = PieceDatas::new();
    assert_eq!(datas.add_piece(PieceData::new(&1)), 0);
    assert_eq!(datas.add_piece(PieceData::new(&2)), 1);
    assert_eq!(datas.add_piece(PieceData::new(&1)), 2);
    let expected: HashSet<u16> = [0u16, 2].into_iter().collect();
    assert_eq!(datas.get_players_pieces(1), expected);
    assert_eq!(datas.get(&1).unwrap().get_owner(), 2);
    datas.set_moved(&1);
    datas.set_moved(&7);
    datas.augment_knight();
    datas.remove(&1);
    assert!(datas.get(&1).is_none());
    assert_eq!(datas.get_all().len(), 2);
    assert_eq!(datas.add_piece(PieceData::new(&2)), 3);
    assert!(datas.get_players_pieces(3).is_empty());
}

#[test]
fn kings_and_owners_are_looked_up() {
    let mut datas = PieceDatas::new();
    let mut king = PieceData::new(&2);
    king.set_piecetype(&PieceType::King);
    let pawn = PieceData::new(&1);
    let k = datas.add_piece(king);
    let p = datas.add_piece(pawn);
    assert!(does_king_exist(&datas, &2));
    assert!(!does_king_exist(&datas, &1));
    assert!(does_player_own_piece(&datas, &1, &Piece::new(p)));
    assert!(!does_player_own_piece(&datas, &1, &Piece::new(k)));
    assert!(!does_player_own_piece(&datas, &1, &Piece::new(40)));
    datas.remove(&k);
    assert!(!does_king_exist(&datas, &2));
}
