pub mod datastructs;

use vstd::prelude::*;
use crate::chesspoker::gameengine::datastructs::{
    action_offset, board_lift_set, board_slide_set, checkers_moves, lift_moves, slide_id_to_direction_change_from_objective_perspective,
    slide_moves, valid_square, PieceAction, PieceData, PieceKind,
};
use crate::chesspoker::maingame::boardmoves::{
    lemma_next_step, lift_allowed, occupancy_at, on_board, slide_allowed, step_pos, SquareOccupancy,
};
use crate::chesspoker::maingame::datastructs::{objective_lift, objective_slide, slide_step, LiftAction, SlideAction};

verus! {

/// The square a slide or lift-and-move takes a piece to from `piecepos`, if
/// it is on the board; none for a checkers capture.
pub fn get_square_pos_that_action_takes_piece_at_pos(piecepos: (u8, u8), action: PieceAction) -> (r: Option<(u8, u8)>)
    requires
        piecepos.0 <= 127 && piecepos.1 <= 127,
        action matches PieceAction::slide(_, distance) ==> distance <= 127,
        -128 <= piecepos.0 + action_offset(action).0 <= 127,
        -128 <= piecepos.1 + action_offset(action).1 <= 127,
    ensures
        action is checkerscapture ==> r is None,
        !(action is checkerscapture) ==> r == valid_square(
            (piecepos.0 + action_offset(action).0, piecepos.1 + action_offset(action).1),
        ),
{
    match action {
        PieceAction::checkerscapture(_) => None,
        _ => action.get_square_posid_that_action_takes_piece_at_posid(piecepos),
    }
}

/// Whether the board square at this position is white: the sum of its
/// coordinates is even.
pub fn is_boardsquare_white(bspos: (u8, u8)) -> (b: bool)
    requires
        bspos.0 + bspos.1 <= u8::MAX,
    ensures
        b == ((bspos.0 + bspos.1) % 2 == 0),
{
    let bstotal = bspos.0 + bspos.1;
    let evenness = bstotal % 2;
    evenness == 0
}

/// The kind of the piece that starts a chess game on column `x` of a back
/// row: rook, knight, bishop, queen, king, bishop, knight, rook.
pub open spec fn back_row_kind(x: int) -> PieceKind {
    if x == 0 || x == 7 {
        PieceKind::Rook
    } else if x == 1 || x == 6 {
        PieceKind::Knight
    } else if x == 2 || x == 5 {
        PieceKind::Bishop
    } else if x == 3 {
        PieceKind::Queen
    } else {
        PieceKind::King
    }
}

/// The pieces of a chess game, in the order they are made, as `(owner,
/// position, kind)`: for player 1 and then player 2, a row of pawns (row 1,
/// row 6) and then the back row (row 0, row 7) from column 0 to 7.
pub open spec fn chess_layout() -> Seq<(u8, (u8, u8), PieceKind)> {
    Seq::new(
        32,
        |i: int|
            {
                let owner: u8 = if i < 16 { 1 } else { 2 };
                let j = i % 16;
                if j < 8 {
                    (owner, (j as u8, if owner == 1 { 1u8 } else { 6u8 }), PieceKind::Pawn)
                } else {
                    (owner, ((j - 8) as u8, if owner == 1 { 0u8 } else { 7u8 }), back_row_kind(j - 8))
                }
            },
    )
}

/// The pieces a chess game starts with, in the order they are made (see
/// `chess_layout`).
pub fn init_chess_game() -> (r: Vec<(u8, (u8, u8), PieceKind)>)
    ensures
        r@ == chess_layout(),
{
    let mut toreturn: Vec<(u8, (u8, u8), PieceKind)> = Vec::new();
    let mut playerx: u8 = 1;
    while playerx < 3
        invariant
            1 <= playerx <= 3,
            toreturn@ == chess_layout().take(16 * (playerx - 1)),
        decreases 3 - playerx,
    {
        let pawnrow: u8 = if playerx == 1 { 1 } else { 6 };
        let backrow: u8 = if playerx == 1 { 0 } else { 7 };
        let ghost start = toreturn@;
        let mut x: u8 = 0;
        while x < 8
            invariant
                1 <= playerx < 3,
                pawnrow == if playerx == 1 { 1u8 } else { 6u8 },
                x <= 8,
                toreturn@ == chess_layout().take(16 * (playerx - 1) + x),
            decreases 8 - x,
        {
            toreturn.push((playerx, (x, pawnrow), PieceKind::Pawn));
            x = x + 1;
            proof {
                let i = 16 * (playerx - 1) + x - 1;
                assert(i % 16 == x - 1) by (nonlinear_arith)
                    requires
                        i == 16 * (playerx - 1) + x - 1,
                        1 <= x <= 8,
                        1 <= playerx <= 2,
                ;
                assert(toreturn@ =~= chess_layout().take(16 * (playerx - 1) + x));
            }
        }
        toreturn.push((playerx, (0, backrow), PieceKind::Rook));
        toreturn.push((playerx, (1, backrow), PieceKind::Knight));
        toreturn.push((playerx, (2, backrow), PieceKind::Bishop));
        toreturn.push((playerx, (3, backrow), PieceKind::Queen));
        toreturn.push((playerx, (4, backrow), PieceKind::King));
        toreturn.push((playerx, (5, backrow), PieceKind::Bishop));
        toreturn.push((playerx, (6, backrow), PieceKind::Knight));
        toreturn.push((playerx, (7, backrow), PieceKind::Rook));
        proof {
            let base = 16 * (playerx - 1);
            assert forall|k: int| 8 <= k < 16 implies #[trigger] chess_layout()[base + k] == (
                playerx,
                ((k - 8) as u8, backrow),
                back_row_kind(k - 8),
            ) by {
                assert((base + k) % 16 == k) by (nonlinear_arith)
                    requires
                        base == 16 * (playerx - 1),
                        8 <= k < 16,
                        1 <= playerx <= 2,
                ;
            }
            assert(toreturn@ =~= chess_layout().take(base + 16));
        }
        playerx = playerx + 1;
    }
    assert(toreturn@ =~= chess_layout());
    toreturn
}


/// Every move of the piece for an owner facing `dir`: its lift-and-moves and
/// slides seen from the board, and its checkers moves.
pub open spec fn piece_moves(d: PieceData, dir: u8) -> Set<PieceAction> {
    lift_moves(d.lifts(), dir).union(slide_moves(d.slides(), dir)).union(checkers_moves(d.checkers()))
}

/// Whether a move of the piece carries these capture rules (must capture,
/// may capture): those of the first lift-and-move or slide in the piece's
/// list that gives the move; a checkers step that no slide gives lands on
/// empty squares only. A checkers capture carries none.
pub open spec fn move_flags(d: PieceData, dir: u8, a: PieceAction, f: (bool, bool)) -> bool {
    match a {
        PieceAction::liftandmove(rel) => exists|i: int|
            0 <= i < d.lifts().len() && objective_lift(dir, (#[trigger] d.lifts()[i]).0) == Some(rel) && f == (
                d.lifts()[i].1,
                d.lifts()[i].2,
            ) && forall|j: int| 0 <= j < i ==> objective_lift(dir, (#[trigger] d.lifts()[j]).0) != Some(rel),
        PieceAction::slide(sd, k) => if slide_moves(d.slides(), dir).contains(a) {
            exists|i: int|
                0 <= i < d.slides().len() && objective_slide(dir, (#[trigger] d.slides()[i]).0) == sd && k
                    <= d.slides()[i].1 && f == (d.slides()[i].2, d.slides()[i].3) && forall|j: int|
                    0 <= j < i ==> !(objective_slide(dir, (#[trigger] d.slides()[j]).0) == sd && k <= d.slides()[j].1)
        } else {
            f == (false, false)
        },
        PieceAction::checkerscapture(_) => false,
    }
}

/// A move of the piece carries one set of capture rules at most.
pub proof fn lemma_move_flags_unique(d: PieceData, dir: u8, a: PieceAction, f1: (bool, bool), f2: (bool, bool))
    requires
        move_flags(d, dir, a, f1),
        move_flags(d, dir, a, f2),
    ensures
        f1 == f2,
{
    match a {
        PieceAction::liftandmove(rel) => {
            let i1 = choose|i: int|
                0 <= i < d.lifts().len() && objective_lift(dir, (#[trigger] d.lifts()[i]).0) == Some(rel) && f1 == (
                    d.lifts()[i].1,
                    d.lifts()[i].2,
                ) && forall|j: int| 0 <= j < i ==> objective_lift(dir, (#[trigger] d.lifts()[j]).0) != Some(rel);
            let i2 = choose|i: int|
                0 <= i < d.lifts().len() && objective_lift(dir, (#[trigger] d.lifts()[i]).0) == Some(rel) && f2 == (
                    d.lifts()[i].1,
                    d.lifts()[i].2,
                ) && forall|j: int| 0 <= j < i ==> objective_lift(dir, (#[trigger] d.lifts()[j]).0) != Some(rel);
            if i1 < i2 {
                assert(objective_lift(dir, d.lifts()[i1].0) != Some(rel));
            } else if i2 < i1 {
                assert(objective_lift(dir, d.lifts()[i2].0) != Some(rel));
            }
        },
        PieceAction::slide(sd, k) => {
            if slide_moves(d.slides(), dir).contains(a) {
                let i1 = choose|i: int|
                    0 <= i < d.slides().len() && objective_slide(dir, (#[trigger] d.slides()[i]).0) == sd && k
                        <= d.slides()[i].1 && f1 == (d.slides()[i].2, d.slides()[i].3) && forall|j: int|
                        0 <= j < i ==> !(objective_slide(dir, (#[trigger] d.slides()[j]).0) == sd && k <= d.slides()[j].1);
                let i2 = choose|i: int|
                    0 <= i < d.slides().len() && objective_slide(dir, (#[trigger] d.slides()[i]).0) == sd && k
                        <= d.slides()[i].1 && f2 == (d.slides()[i].2, d.slides()[i].3) && forall|j: int|
                        0 <= j < i ==> !(objective_slide(dir, (#[trigger] d.slides()[j]).0) == sd && k <= d.slides()[j].1);
                if i1 < i2 {
                    assert(!(objective_slide(dir, d.slides()[i1].0) == sd && k <= d.slides()[i1].1));
                } else if i2 < i1 {
                    assert(!(objective_slide(dir, d.slides()[i2].0) == sd && k <= d.slides()[i2].1));
                }
            }
        },
        PieceAction::checkerscapture(_) => {},
    }
}

/// Whether the move, under these capture rules, may be made from square `sq`:
/// a lift-and-move lands on the board where it may; a slide passes empty
/// squares of the board and lands where it may; a checkers capture is not
/// made here.
pub open spec fn move_lands(board: Seq<SquareOccupancy>, sq: (int, int), a: PieceAction, f: (bool, bool)) -> bool {
    match a {
        PieceAction::liftandmove(rel) => lift_allowed(board, sq, (rel, f.0, f.1)),
        PieceAction::slide(sd, k) => slide_allowed(board, sq, (sd, k, f.0, f.1), k as int),
        PieceAction::checkerscapture(_) => false,
    }
}

/// Whether sliding `s` steps from `start` passes empty squares on the board
/// and ends where the slide may land.
fn slide_lands(board: &Vec<SquareOccupancy>, start: (u8, u8), sa: SlideAction) -> (b: bool)
    requires
        board@.len() == 64,
        start.0 < 8 && start.1 < 8,
    ensures
        b == slide_allowed(board@, (start.0 as int, start.1 as int), sa, sa.1 as int),
{
    let ghost st = (start.0 as int, start.1 as int);
    let (direction, distance, hastocapture, cancapture) = sa;
    if distance == 0 {
        return false;
    }
    let (xstep, zstep) = slide_id_to_direction_change_from_objective_perspective(direction);
    let mut cur: (i32, i32) = (start.0 as i32, start.1 as i32);
    let mut k: u8 = 1;
    assert(step_pos(st, direction, 0) == st);
    loop
        invariant
            board@.len() == 64,
            st == (start.0 as int, start.1 as int),
            sa == (direction, distance, hastocapture, cancapture),
            xstep == slide_step(direction).0 && zstep == slide_step(direction).1,
            1 <= k <= distance,
            (cur.0 as int, cur.1 as int) == step_pos(st, direction, k - 1),
            0 <= cur.0 <= 7 && 0 <= cur.1 <= 7,
            forall|j: int| 1 <= j < k ==> on_board(#[trigger] step_pos(st, direction, j)) && occupancy_at(
                board@,
                step_pos(st, direction, j),
            ) == SquareOccupancy::Empty,
        decreases distance - k,
    {
        proof {
            lemma_next_step(st, direction, k - 1);
        }
        cur = (cur.0 + xstep as i32, cur.1 + zstep as i32);
        let ghost p = step_pos(st, direction, k as int);
        assert((cur.0 as int, cur.1 as int) == p);
        if cur.0 < 0 || cur.0 > 7 || cur.1 < 0 || cur.1 > 7 {
            proof {
                if k < distance {
                    assert(!(on_board(step_pos(st, direction, k as int))));
                }
            }
            return false;
        }
        let occ = board[(cur.0 * 8 + cur.1) as usize];
        assert(occ == occupancy_at(board@, p));
        if k == distance {
            return match occ {
                SquareOccupancy::Empty => !hastocapture,
                SquareOccupancy::Opponents => cancapture,
                SquareOccupancy::Friendly => false,
            };
        }
        if occ != SquareOccupancy::Empty {
            return false;
        }
        k = k + 1;
    }
}

/// Whether the lift-and-move lands on the board where it may.
fn lift_lands(board: &Vec<SquareOccupancy>, start: (u8, u8), la: LiftAction) -> (b: bool)
    requires
        board@.len() == 64,
        start.0 < 8 && start.1 < 8,
    ensures
        b == lift_allowed(board@, (start.0 as int, start.1 as int), la),
{
    let (rel, hastocapture, cancapture) = la;
    let x: i32 = rel.0 as i32 + start.0 as i32;
    let y: i32 = rel.1 as i32 + start.1 as i32;
    if x < 0 || x > 7 || y < 0 || y > 7 {
        return false;
    }
    match board[(x * 8 + y) as usize] {
        SquareOccupancy::Empty => !hastocapture,
        SquareOccupancy::Opponents => cancapture,
        SquareOccupancy::Friendly => false,
    }
}

/// Whether the piece may be flicked, and the moves it may make from its
/// square, given what stands on each square of the board (listed column by
/// column, as its owner sees it). A lift-and-move lands on the board on an
/// empty square unless it must capture, or on one with only opponents' pieces
/// if it may capture; a slide passes empty squares on the way and lands the
/// same way; a checkers capture is not among them. Each move goes by the
/// capture rules of the first of the piece's moves that gives it (see
/// `move_flags`). A piece on no square may do nothing.
pub fn get_actions_allowed_by_piece(
    piecedata: &PieceData,
    ownerdirection: u8,
    square: Option<(u8, u8)>,
    board: &Vec<SquareOccupancy>,
) -> (r: (bool, Vec<PieceAction>))
    requires
        board@.len() == 64,
        square matches Some(sq) ==> sq.0 < 8 && sq.1 < 8,
    ensures
        square is None ==> !r.0 && r.1@.len() == 0,
        square is Some ==> r.0 == piecedata.spec_canflick(),
        square matches Some(sq) ==> forall|a: PieceAction| #[trigger] r.1@.contains(a) <==> {
            &&& piece_moves(*piecedata, ownerdirection).contains(a)
            &&& exists|f: (bool, bool)| #[trigger] move_flags(*piecedata, ownerdirection, a, f) && move_lands(
                board@,
                (sq.0 as int, sq.1 as int),
                a,
                f,
            )
        },
{
    match square {
        None => (false, Vec::new()),
        Some(sq) => {
            let ghost st = (sq.0 as int, sq.1 as int);
            let allactions = piecedata.get_piece_actions(ownerdirection);
            let mut allowedactions: Vec<PieceAction> = Vec::new();
            let ghost mut chosen: Seq<(bool, bool)> = Seq::empty();
            let mut i: usize = 0;
            while i < allactions.len()
                invariant
                    board@.len() == 64,
                    sq.0 < 8 && sq.1 < 8,
                    st == (sq.0 as int, sq.1 as int),
                    i <= allactions@.len(),
                    chosen.len() == i,
                    forall|a: PieceAction| #[trigger] allactions@.contains(a) <==> piece_moves(*piecedata, ownerdirection).contains(a),
                    forall|j: int| 0 <= j < i && !(allactions@[j] is checkerscapture) ==> #[trigger] move_flags(
                        *piecedata,
                        ownerdirection,
                        allactions@[j],
                        chosen[j],
                    ),
                    forall|a: PieceAction| #[trigger] allowedactions@.contains(a) <==> exists|j: int|
                        0 <= j < i && #[trigger] allactions@[j] == a && move_lands(board@, st, a, chosen[j]),
                decreases allactions.len() - i,
            {
                let action = allactions[i];
                let ghost mut f: (bool, bool) = (false, false);
                proof {
                    assert(allactions@.contains(action));
                }
                let lands = match action {
                    PieceAction::liftandmove(rel) => {
                        proof {
                            assert(lift_moves(piecedata.lifts(), ownerdirection).contains(action));
                            assert(board_lift_set(piecedata.lifts(), ownerdirection).contains(rel));
                        }
                        let flags = piecedata.get_capture_type_of_lift_and_move(rel, ownerdirection);
                        proof {
                            f = flags;
                        }
                        lift_lands(board, sq, (rel, flags.0, flags.1))
                    },
                    PieceAction::slide(sd, k) => {
                        let flags = if piecedata.is_action_allowed(action, ownerdirection) {
                            proof {
                                let dist = choose|dist: u8| #[trigger] board_slide_set(piecedata.slides(), ownerdirection).contains(
                                    (sd, dist),
                                ) && 1 <= k <= dist;
                                let j = choose|j: int| 0 <= j < piecedata.slides().len() && (sd, dist) == (
                                    objective_slide(ownerdirection, (#[trigger] piecedata.slides()[j]).0),
                                    piecedata.slides()[j].1,
                                );
                                assert(objective_slide(ownerdirection, piecedata.slides()[j].0) == sd && k
                                    <= piecedata.slides()[j].1);
                            }
                            piecedata.get_capture_type_of_slide(sd, k, ownerdirection)
                        } else {
                            (false, false)
                        };
                        proof {
                            f = flags;
                        }
                        slide_lands(board, sq, (sd, k, flags.0, flags.1))
                    },
                    PieceAction::checkerscapture(_) => false,
                };
                let ghost prev = allowedactions@;
                if lands {
                    allowedactions.push(action);
                }
                proof {
                    chosen = chosen.push(f);
                    assert(move_lands(board@, st, action, f) == lands);
                    assert forall|a: PieceAction| #[trigger] allowedactions@.contains(a) <==> exists|j: int|
                        0 <= j < i + 1 && #[trigger] allactions@[j] == a && move_lands(board@, st, a, chosen[j]) by {
                        if allowedactions@.contains(a) {
                            if lands && a == action {
                                assert(allactions@[i as int] == a);
                            } else {
                                let m = choose|m: int| 0 <= m < allowedactions@.len() && allowedactions@[m] == a;
                                assert(prev[m] == a);
                                assert(prev.contains(a));
                            }
                        }
                        if exists|j: int| 0 <= j < i + 1 && #[trigger] allactions@[j] == a && move_lands(board@, st, a, chosen[j]) {
                            let j = choose|j: int| 0 <= j < i + 1 && #[trigger] allactions@[j] == a && move_lands(board@, st, a, chosen[j]);
                            if j < i {
                                assert(prev.contains(a));
                                let m = choose|m: int| 0 <= m < prev.len() && prev[m] == a;
                                assert(allowedactions@[m] == a);
                            } else {
                                assert(allowedactions@[allowedactions@.len() - 1] == a);
                            }
                        }
                    }
                }
                i = i + 1;
            }
            proof {
                assert forall|a: PieceAction| #[trigger] allowedactions@.contains(a) implies {
                    &&& piece_moves(*piecedata, ownerdirection).contains(a)
                    &&& exists|f: (bool, bool)| #[trigger] move_flags(*piecedata, ownerdirection, a, f) && move_lands(board@, st, a, f)
                } by {
                    let j = choose|j: int| 0 <= j < i && #[trigger] allactions@[j] == a && move_lands(board@, st, a, chosen[j]);
                    assert(allactions@.contains(a));
                    assert(move_flags(*piecedata, ownerdirection, a, chosen[j]));
                }
                assert forall|a: PieceAction| #[trigger] piece_moves(*piecedata, ownerdirection).contains(a)
                    && (exists|f: (bool, bool)| #[trigger] move_flags(*piecedata, ownerdirection, a, f)
                    && move_lands(board@, st, a, f)) implies allowedactions@.contains(a) by {
                    let f = choose|f: (bool, bool)| #[trigger] move_flags(*piecedata, ownerdirection, a, f)
                        && move_lands(board@, st, a, f);
                    assert(allactions@.contains(a));
                    let j = choose|j: int| 0 <= j < allactions@.len() && allactions@[j] == a;
                    assert(move_flags(*piecedata, ownerdirection, allactions@[j], chosen[j]));
                    lemma_move_flags_unique(*piecedata, ownerdirection, a, f, chosen[j]);
                }
            }
            (piecedata.canflick(), allowedactions)
        },
    }
}

} // verus!
