use vstd::prelude::*;
use crate::chesspoker::maingame::datastructs::{
    objective_lift, objective_slide, slide_id_to_direction_change_from_objective_perspective, slide_step, LiftAction,
    PieceTypeData, SlideAction,
};

verus! {

/// What stands on a square of the board, as the owner of a moving piece sees
/// it.
#[derive(Clone, Copy, Debug, PartialEq, Eq, Structural)]
pub enum SquareOccupancy {
    /// No piece.
    Empty,
    /// Pieces, none of them the owner's.
    Opponents,
    /// At least one piece of the owner.
    Friendly,
}

/// A move of a piece across the board.
#[allow(non_camel_case_types)]
#[derive(Clone, Copy, Debug)]
pub enum BoardMove {
    /// Lifted and set down at this offset.
    liftandmove((i32, i32)),
    /// Slid in a direction (eighths of a turn from the board's forward) for a
    /// number of steps.
    slide(u8, u8),
}

/// Whether a position lies on the eight by eight board.
pub open spec fn on_board(p: (int, int)) -> bool {
    0 <= p.0 <= 7 && 0 <= p.1 <= 7
}

/// What stands on a position of the board, the board being listed column by
/// column: `x * 8 + y`.
pub open spec fn occupancy_at(board: Seq<SquareOccupancy>, p: (int, int)) -> SquareOccupancy {
    board[p.0 * 8 + p.1]
}

/// The position `s` steps from `start` in a slide direction.
pub open spec fn step_pos(start: (int, int), dir: u8, s: int) -> (int, int) {
    (start.0 + s * slide_step(dir).0, start.1 + s * slide_step(dir).1)
}

/// Whether a piece may end a move on a square: an empty one unless the move
/// must capture, one with only opponents if it may capture.
pub open spec fn may_land(occ: SquareOccupancy, mustcapture: bool, cancapture: bool) -> bool {
    (occ == SquareOccupancy::Empty && !mustcapture) || (occ == SquareOccupancy::Opponents && cancapture)
}

/// Whether sliding `s` steps with this slide is allowed from `start`: the
/// squares passed are on the board and empty, and the piece may land on the
/// last.
pub open spec fn slide_allowed(board: Seq<SquareOccupancy>, start: (int, int), sa: SlideAction, s: int) -> bool {
    &&& 1 <= s <= sa.1
    &&& forall|k: int| 1 <= k < s ==> on_board(#[trigger] step_pos(start, sa.0, k)) && occupancy_at(board, step_pos(start, sa.0, k)) == SquareOccupancy::Empty
    &&& on_board(step_pos(start, sa.0, s))
    &&& may_land(occupancy_at(board, step_pos(start, sa.0, s)), sa.2, sa.3)
}

/// Whether this lift-and-move is allowed from `start`: its square is on the
/// board and the piece may land there.
pub open spec fn lift_allowed(board: Seq<SquareOccupancy>, start: (int, int), la: LiftAction) -> bool {
    let t = (start.0 + la.0.0, start.1 + la.0.1);
    on_board(t) && may_land(occupancy_at(board, t), la.1, la.2)
}

/// Whether a move is one that this slide allows from `start`.
pub open spec fn slide_move(board: Seq<SquareOccupancy>, start: (int, int), sa: SlideAction, m: BoardMove) -> bool {
    m matches BoardMove::slide(d, s) && d == sa.0 && slide_allowed(board, start, sa, s as int)
}

/// Whether a move is the one this lift-and-move allows from `start`.
pub open spec fn lift_move(board: Seq<SquareOccupancy>, start: (int, int), la: LiftAction, m: BoardMove) -> bool {
    m matches BoardMove::liftandmove(rel) && rel == (la.0.0 as i32, la.0.1 as i32) && lift_allowed(board, start, la)
}

/// The piece's slides seen from the board by an owner facing `dir`.
pub open spec fn board_slides(d: PieceTypeData, dir: u8) -> Set<SlideAction> {
    Set::new(
        |e: SlideAction|
            exists|i: int|
                0 <= i < d.slides().len() && e == (
                    objective_slide(dir, (#[trigger] d.slides()[i]).0),
                    d.slides()[i].1,
                    d.slides()[i].2,
                    d.slides()[i].3,
                ),
    )
}

/// The piece's lift-and-moves seen from the board by an owner facing `dir`.
pub open spec fn board_lifts(d: PieceTypeData, dir: u8) -> Set<LiftAction> {
    Set::new(
        |e: LiftAction|
            exists|i: int|
                0 <= i < d.lifts().len() && objective_lift(dir, (#[trigger] d.lifts()[i]).0) == Some(e.0) && e.1
                    == d.lifts()[i].1 && e.2 == d.lifts()[i].2,
    )
}

/// Whether a piece with this data, whose owner faces `dir`, may make this
/// move from square `sq`: one of its slides or lift-and-moves, seen from the
/// board, allows it there.
pub open spec fn move_allowed(d: PieceTypeData, dir: u8, sq: (u32, u32), board: Seq<SquareOccupancy>, m: BoardMove) -> bool {
    ||| exists|sa: SlideAction| #[trigger] board_slides(d, dir).contains(sa) && slide_move(
        board,
        (sq.0 as int, sq.1 as int),
        sa,
        m,
    )
    ||| exists|la: LiftAction| #[trigger] board_lifts(d, dir).contains(la) && lift_move(
        board,
        (sq.0 as int, sq.1 as int),
        la,
        m,
    )
}

/// One step further along a slide adds the direction's step.
pub proof fn lemma_next_step(start: (int, int), dir: u8, k: int)
    ensures
        step_pos(start, dir, k + 1) == (step_pos(start, dir, k).0 + slide_step(dir).0, step_pos(start, dir, k).1
            + slide_step(dir).1),
{
    let d = slide_step(dir);
    assert((k + 1) * d.0 == k * d.0 + d.0) by (nonlinear_arith);
    assert((k + 1) * d.1 == k * d.1 + d.1) by (nonlinear_arith);
}

/// Adds the moves of one slide to `moves`: step by step from `start` while
/// the squares are on the board and empty, each step where the piece may land.
fn add_slide_moves(
    moves: &mut Vec<BoardMove>,
    board: &Vec<SquareOccupancy>,
    start: (u32, u32),
    sa: SlideAction,
)
    requires
        board@.len() == 64,
        start.0 < 8 && start.1 < 8,
    ensures
        forall|m: BoardMove| #[trigger] final(moves)@.contains(m) <==> (old(moves)@.contains(m) || slide_move(
            board@,
            (start.0 as int, start.1 as int),
            sa,
            m,
        )),
{
    let ghost st = (start.0 as int, start.1 as int);
    let (direction, maxdistance, hastocapture, cancapture) = sa;
    let (xstep, zstep) = slide_id_to_direction_change_from_objective_perspective(direction);
    let mut cur: (i32, i32) = (start.0 as i32, start.1 as i32);
    let mut stepnumber: u32 = 1;
    let mut stop = false;
    assert(step_pos(st, direction, 0) == st);
    while stepnumber <= maxdistance as u32 && !stop
        invariant
            board@.len() == 64,
            st == (start.0 as int, start.1 as int),
            start.0 < 8 && start.1 < 8,
            sa == (direction, maxdistance, hastocapture, cancapture),
            (xstep, zstep) == slide_step(direction),
            1 <= stepnumber <= 256,
            (cur.0 as int, cur.1 as int) == step_pos(st, direction, stepnumber - 1),
            !stop ==> forall|k: int| 1 <= k < stepnumber ==> on_board(#[trigger] step_pos(st, direction, k))
                && occupancy_at(board@, step_pos(st, direction, k)) == SquareOccupancy::Empty,
            stop ==> forall|s: int| stepnumber <= s ==> !#[trigger] slide_allowed(board@, st, sa, s),
            -9 <= cur.0 <= 16 && -9 <= cur.1 <= 16,
            forall|m: BoardMove| #[trigger] moves@.contains(m) <==> (old(moves)@.contains(m) || (m matches BoardMove::slide(
                d,
                s,
            ) && d == direction && s < stepnumber && slide_allowed(board@, st, sa, s as int))),
        decreases maxdistance as u32 + 1 - stepnumber,
    {
        let ghost k = stepnumber as int;
        proof {
            lemma_next_step(st, direction, k - 1);
        }
        cur = (cur.0 + xstep, cur.1 + zstep);
        let ghost p = step_pos(st, direction, k);
        assert((cur.0 as int, cur.1 as int) == p);
        let ghost before = moves@;
        if cur.0 < 0 || cur.0 > 7 || cur.1 < 0 || cur.1 > 7 {
            stop = true;
            proof {
                assert forall|s: int| k + 1 <= s implies !#[trigger] slide_allowed(board@, st, sa, s) by {
                    if slide_allowed(board@, st, sa, s) {
                        assert(on_board(step_pos(st, direction, k)));
                    }
                }
                assert forall|m: BoardMove| #[trigger] moves@.contains(m) <==> (old(moves)@.contains(m) || (m matches BoardMove::slide(
                    d,
                    s,
                ) && d == direction && s < k + 1 && slide_allowed(board@, st, sa, s as int))) by {
                    if let BoardMove::slide(d, s) = m {
                        if s == k && d == direction {
                            assert(!slide_allowed(board@, st, sa, s as int));
                        }
                    }
                }
            }
        } else {
            let occ = board[(cur.0 * 8 + cur.1) as usize];
            assert(occ == occupancy_at(board@, p));
            let m = BoardMove::slide(direction, stepnumber as u8);
            let land = match occ {
                SquareOccupancy::Empty => !hastocapture,
                SquareOccupancy::Opponents => cancapture,
                SquareOccupancy::Friendly => false,
            };
            if land {
                moves.push(m);
            }
            proof {
                assert(slide_allowed(board@, st, sa, k) == land);
                assert forall|mm: BoardMove| #[trigger] moves@.contains(mm) <==> (old(moves)@.contains(mm) || (mm matches BoardMove::slide(
                    d,
                    s,
                ) && d == direction && s < k + 1 && slide_allowed(board@, st, sa, s as int))) by {
                    if land && mm == m {
                        assert(moves@[moves@.len() - 1] == m);
                    }
                    if land && moves@.contains(mm) && mm != m {
                        let j = choose|j: int| 0 <= j < moves@.len() && moves@[j] == mm;
                        assert(before[j] == mm);
                    }
                    if before.contains(mm) {
                        let j = choose|j: int| 0 <= j < before.len() && before[j] == mm;
                        assert(moves@[j] == mm);
                    }
                }
            }
            if occ != SquareOccupancy::Empty {
                stop = true;
                proof {
                    assert forall|s: int| k + 1 <= s implies !#[trigger] slide_allowed(board@, st, sa, s) by {
                        if slide_allowed(board@, st, sa, s) {
                            assert(occupancy_at(board@, step_pos(st, direction, k)) == SquareOccupancy::Empty);
                        }
                    }
                }
            }
        }
        stepnumber = stepnumber + 1;
    }
    proof {
        assert forall|m: BoardMove| #[trigger] moves@.contains(m) <==> (old(moves)@.contains(m) || slide_move(board@, st, sa, m)) by {
            if let BoardMove::slide(d, s) = m {
                if d == direction && slide_allowed(board@, st, sa, s as int) && !(s < stepnumber) {
                    assert(stop);
                }
            }
        }
    }
}

/// Adds the move of one lift-and-move to `moves`, if it is allowed.
fn add_lift_move(moves: &mut Vec<BoardMove>, board: &Vec<SquareOccupancy>, start: (u32, u32), la: LiftAction)
    requires
        board@.len() == 64,
        start.0 < 8 && start.1 < 8,
    ensures
        forall|m: BoardMove| #[trigger] final(moves)@.contains(m) <==> (old(moves)@.contains(m) || lift_move(
            board@,
            (start.0 as int, start.1 as int),
            la,
            m,
        )),
{
    let (currelativeposition, hastocapture, cancapture) = la;
    let x: i32 = currelativeposition.0 as i32 + start.0 as i32;
    let y: i32 = currelativeposition.1 as i32 + start.1 as i32;
    let ghost before = moves@;
    if x < 0 || x > 7 || y < 0 || y > 7 {
    } else {
        let occ = board[(x * 8 + y) as usize];
        let m = BoardMove::liftandmove((currelativeposition.0 as i32, currelativeposition.1 as i32));
        let land = match occ {
            SquareOccupancy::Empty => !hastocapture,
            SquareOccupancy::Opponents => cancapture,
            SquareOccupancy::Friendly => false,
        };
        if land {
            moves.push(m);
        }
    }
    proof {
        assert forall|mm: BoardMove| #[trigger] moves@.contains(mm) <==> (before.contains(mm) || lift_move(
            board@,
            (start.0 as int, start.1 as int),
            la,
            mm,
        )) by {
            if moves@.len() > before.len() {
                if moves@.contains(mm) && mm != moves@[moves@.len() - 1] {
                    let j = choose|j: int| 0 <= j < moves@.len() && moves@[j] == mm;
                    assert(before[j] == mm);
                }
                if before.contains(mm) {
                    let j = choose|j: int| 0 <= j < before.len() && before[j] == mm;
                    assert(moves@[j] == mm);
                }
                if mm == moves@[moves@.len() - 1] {
                    assert(moves@.contains(mm));
                }
            }
        }
    }
}

/// The moves a piece may make from its square, given what stands on each
/// square of the board: each slide step by step while the squares are empty,
/// landing where it may; each lift-and-move whose square is on the board and
/// may be landed on. A piece on no square may make none. The order of the
/// moves is left open.
pub fn get_slide_and_lift_actions_allowed_for_piece(
    piecetypedata: &PieceTypeData,
    ownerdirection: u8,
    boardsquareid: Option<(u32, u32)>,
    board: &Vec<SquareOccupancy>,
) -> (r: Vec<BoardMove>)
    requires
        board@.len() == 64,
        boardsquareid matches Some(sq) ==> sq.0 < 8 && sq.1 < 8,
    ensures
        boardsquareid is None ==> r@.len() == 0,
        boardsquareid matches Some(sq) ==> forall|m: BoardMove| #[trigger] r@.contains(m) <==> move_allowed(
            *piecetypedata,
            ownerdirection,
            sq,
            board@,
            m,
        ),
{
    let mut toreturn: Vec<BoardMove> = Vec::new();
    if boardsquareid.is_none() {
        return toreturn;
    }
    let sq = boardsquareid.unwrap();
    let ghost st = (sq.0 as int, sq.1 as int);
    let slide_actions = piecetypedata.get_allowed_slide_actions(&ownerdirection);
    let lift_and_move_actions = piecetypedata.get_allowed_lift_and_move(&ownerdirection);
    let ghost slides = board_slides(*piecetypedata, ownerdirection);
    let ghost lifts = board_lifts(*piecetypedata, ownerdirection);
    assert forall|e: SlideAction| slides.contains(e) <==> slide_actions@.contains(e) by {}
    assert forall|e: LiftAction| lifts.contains(e) <==> lift_and_move_actions@.contains(e) by {}
    let mut i: usize = 0;
    while i < slide_actions.len()
        invariant
            board@.len() == 64,
            sq.0 < 8 && sq.1 < 8,
            st == (sq.0 as int, sq.1 as int),
            i <= slide_actions@.len(),
            forall|m: BoardMove| #[trigger] toreturn@.contains(m) <==> exists|j: int| 0 <= j < i && slide_move(
                board@,
                st,
                #[trigger] slide_actions@[j],
                m,
            ),
        decreases slide_actions.len() - i,
    {
        let ghost before = toreturn@;
        add_slide_moves(&mut toreturn, board, sq, slide_actions[i]);
        i = i + 1;
        proof {
            assert forall|m: BoardMove| #[trigger] toreturn@.contains(m) <==> exists|j: int| 0 <= j < i && slide_move(
                board@,
                st,
                #[trigger] slide_actions@[j],
                m,
            ) by {
                if slide_move(board@, st, slide_actions@[i - 1], m) {
                    assert(0 <= i - 1 < i);
                }
            }
        }
    }
    let mut i: usize = 0;
    while i < lift_and_move_actions.len()
        invariant
            board@.len() == 64,
            sq.0 < 8 && sq.1 < 8,
            st == (sq.0 as int, sq.1 as int),
            i <= lift_and_move_actions@.len(),
            forall|m: BoardMove| #[trigger] toreturn@.contains(m) <==> {
                ||| exists|j: int| 0 <= j < slide_actions@.len() && slide_move(board@, st, #[trigger] slide_actions@[j], m)
                ||| exists|j: int| 0 <= j < i && lift_move(board@, st, #[trigger] lift_and_move_actions@[j], m)
            },
        decreases lift_and_move_actions.len() - i,
    {
        add_lift_move(&mut toreturn, board, sq, lift_and_move_actions[i]);
        i = i + 1;
        proof {
            assert forall|m: BoardMove| #[trigger] toreturn@.contains(m) <==> {
                ||| exists|j: int| 0 <= j < slide_actions@.len() && slide_move(board@, st, #[trigger] slide_actions@[j], m)
                ||| exists|j: int| 0 <= j < i && lift_move(board@, st, #[trigger] lift_and_move_actions@[j], m)
            } by {
                if lift_move(board@, st, lift_and_move_actions@[i - 1], m) {
                    assert(0 <= i - 1 < i);
                }
            }
        }
    }
    proof {
        assert forall|m: BoardMove| #[trigger] toreturn@.contains(m) <==> {
            ||| exists|sa: SlideAction| #[trigger] slides.contains(sa) && slide_move(board@, st, sa, m)
            ||| exists|la: LiftAction| #[trigger] lifts.contains(la) && lift_move(board@, st, la, m)
        } by {
            if exists|sa: SlideAction| #[trigger] slides.contains(sa) && slide_move(board@, st, sa, m) {
                let sa = choose|sa: SlideAction| #[trigger] slides.contains(sa) && slide_move(board@, st, sa, m);
                assert(slide_actions@.contains(sa));
                let j = choose|j: int| 0 <= j < slide_actions@.len() && slide_actions@[j] == sa;
                assert(slide_move(board@, st, slide_actions@[j], m));
            }
            if exists|la: LiftAction| #[trigger] lifts.contains(la) && lift_move(board@, st, la, m) {
                let la = choose|la: LiftAction| #[trigger] lifts.contains(la) && lift_move(board@, st, la, m);
                assert(lift_and_move_actions@.contains(la));
                let j = choose|j: int| 0 <= j < lift_and_move_actions@.len() && lift_and_move_actions@[j] == la;
                assert(lift_move(board@, st, lift_and_move_actions@[j], m));
            }
            if exists|j: int| 0 <= j < slide_actions@.len() && slide_move(board@, st, #[trigger] slide_actions@[j], m) {
                let j = choose|j: int| 0 <= j < slide_actions@.len() && slide_move(board@, st, #[trigger] slide_actions@[j], m);
                assert(slide_actions@.contains(slide_actions@[j]));
                assert(slides.contains(slide_actions@[j]));
            }
            if exists|j: int| 0 <= j < lift_and_move_actions@.len() && lift_move(board@, st, #[trigger] lift_and_move_actions@[j], m) {
                let j = choose|j: int| 0 <= j < lift_and_move_actions@.len() && lift_move(board@, st, #[trigger] lift_and_move_actions@[j], m);
                assert(lift_and_move_actions@.contains(lift_and_move_actions@[j]));
                assert(lifts.contains(lift_and_move_actions@[j]));
            }
        }
    }
    toreturn
}

/// The square a move takes a piece to from its square.
pub open spec fn move_destination(sq: (u32, u32), m: BoardMove) -> (int, int) {
    match m {
        BoardMove::slide(direction, distance) => (
            sq.0 + slide_step(direction).0 * distance,
            sq.1 + slide_step(direction).1 * distance,
        ),
        BoardMove::liftandmove(rel) => (sq.0 + rel.0, sq.1 + rel.1),
    }
}

/// The square a move takes a piece to from its square, which must lie on the
/// board.
pub fn get_square_that_action_takes_piece(boardsquareid: (u32, u32), pieceaction: BoardMove) -> (r: (u32, u32))
    requires
        boardsquareid.0 < 8 && boardsquareid.1 < 8,
        on_board(move_destination(boardsquareid, pieceaction)),
    ensures
        (r.0 as int, r.1 as int) == move_destination(boardsquareid, pieceaction),
{
    let mut boardsquarepos: (i64, i64) = (boardsquareid.0 as i64, boardsquareid.1 as i64);
    match pieceaction {
        BoardMove::slide(direction, distance) => {
            let (xdiff, zdiff) = slide_id_to_direction_change_from_objective_perspective(direction);
            let distance = distance as i64;
            let xdiff = xdiff as i64 * distance;
            let zdiff = zdiff as i64 * distance;
            boardsquarepos = (boardsquarepos.0 + xdiff, boardsquarepos.1 + zdiff);
        },
        BoardMove::liftandmove((xdiff, zdiff)) => {
            boardsquarepos = (boardsquarepos.0 + xdiff as i64, boardsquarepos.1 + zdiff as i64);
        },
    }
    (boardsquarepos.0 as u32, boardsquarepos.1 as u32)
}

} // verus!
