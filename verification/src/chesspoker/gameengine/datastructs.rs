use vstd::prelude::*;
use crate::chesspoker::maingame::datastructs::{
    bishop_slides, king_slides, knight_lifts, moved_pawn_slides, objective_lift, objective_slide,
    players_perspective_to_objective_perspective_lift, players_perspective_to_objective_perspective_slide,
    queen_slides, rook_slides, slide_step, unmoved_pawn_slides, LiftAction, SlideAction,
};

verus! {

broadcast use vstd::string::group_string_axioms;

/// The square at a position, if the position lies on the eight by eight board.
pub open spec fn valid_square(pos: (int, int)) -> Option<(u8, u8)> {
    if 0 <= pos.0 <= 7 && 0 <= pos.1 <= 7 {
        Some((pos.0 as u8, pos.1 as u8))
    } else {
        None
    }
}

/// The square at a position, if the position lies on the board.
fn is_square_posid_valid(i8pos: (i8, i8)) -> (r: Option<(u8, u8)>)
    ensures
        r == valid_square((i8pos.0 as int, i8pos.1 as int)),
{
    if i8pos.0 >= 0 && i8pos.0 <= 7 {
        if i8pos.1 >= 0 && i8pos.1 <= 7 {
            return Some((i8pos.0 as u8, i8pos.1 as u8));
        }
    }
    None
}

/// The step on the board of a slide id, as `i8`s.
pub fn slide_id_to_direction_change_from_objective_perspective(slideid: u8) -> (r: (i8, i8))
    ensures
        r.0 == slide_step(slideid).0,
        r.1 == slide_step(slideid).1,
{
    if slideid == 0 {
        (0, 1)
    } else if slideid == 1 {
        (1, 1)
    } else if slideid == 2 {
        (1, 0)
    } else if slideid == 3 {
        (1, -1)
    } else if slideid == 4 {
        (0, -1)
    } else if slideid == 5 {
        (-1, -1)
    } else if slideid == 6 {
        (-1, 0)
    } else if slideid == 7 {
        (-1, 1)
    } else {
        (0, 0)
    }
}

/// A move of a piece on the board, other than a flick (which is given by
/// forces).
#[allow(non_camel_case_types)]
#[derive(Clone, Copy, Debug)]
pub enum PieceAction {
    /// Lifted and set down at this offset.
    liftandmove((i8, i8)),
    /// Slid in a direction for a number of steps.
    slide(u8, u8),
    /// A checkers capture in this direction.
    checkerscapture(u8),
}

/// The offset a move takes a piece by: the offset itself for a lift-and-move,
/// the direction's step times the distance for a slide.
pub open spec fn action_offset(a: PieceAction) -> (int, int) {
    match a {
        PieceAction::liftandmove(rel) => (rel.0 as int, rel.1 as int),
        PieceAction::slide(direction, distance) => (
            slide_step(direction).0 * distance,
            slide_step(direction).1 * distance,
        ),
        PieceAction::checkerscapture(_) => (0, 0),
    }
}

/// Whether two moves are the same.
fn same_action(a: &PieceAction, b: &PieceAction) -> (r: bool)
    ensures
        r == (*a == *b),
{
    match (a, b) {
        (PieceAction::liftandmove(p), PieceAction::liftandmove(q)) => p.0 == q.0 && p.1 == q.1,
        (PieceAction::slide(d, s), PieceAction::slide(e, t)) => *d == *e && *s == *t,
        (PieceAction::checkerscapture(d), PieceAction::checkerscapture(e)) => *d == *e,
        _ => false,
    }
}

/// Whether a list of moves holds this one.
fn actions_contain(v: &Vec<PieceAction>, a: &PieceAction) -> (b: bool)
    ensures
        b == v@.contains(*a),
{
    let mut i: usize = 0;
    while i < v.len()
        invariant
            i <= v.len(),
            forall|j: int| 0 <= j < i ==> v@[j] != *a,
        decreases v.len() - i,
    {
        if same_action(&v[i], a) {
            assert(v@[i as int] == *a);
            return true;
        }
        i = i + 1;
    }
    false
}

impl PieceAction {
    /// The square this move takes a piece to from `piecepos`, if that is on
    /// the board. A checkers capture has no such square here.
    pub fn get_square_posid_that_action_takes_piece_at_posid(&self, piecepos: (u8, u8)) -> (r: Option<(u8, u8)>)
        requires
            !(*self is checkerscapture),
            piecepos.0 <= 127 && piecepos.1 <= 127,
            *self matches PieceAction::slide(_, distance) ==> distance <= 127,
            -128 <= piecepos.0 + action_offset(*self).0 <= 127,
            -128 <= piecepos.1 + action_offset(*self).1 <= 127,
        ensures
            r == valid_square((piecepos.0 + action_offset(*self).0, piecepos.1 + action_offset(*self).1)),
    {
        let intpiecepos: (i8, i8) = (piecepos.0 as i8, piecepos.1 as i8);
        let relativepos = self.get_relative_position_action_takes_piece();
        let newpos: (i8, i8) = (intpiecepos.0 + relativepos.0, intpiecepos.1 + relativepos.1);
        is_square_posid_valid(newpos)
    }

    /// The offset this move takes a piece by.
    pub fn get_relative_position_action_takes_piece(&self) -> (r: (i8, i8))
        requires
            !(*self is checkerscapture),
            *self matches PieceAction::slide(_, distance) ==> distance <= 127,
        ensures
            (r.0 as int, r.1 as int) == action_offset(*self),
    {
        match self {
            PieceAction::liftandmove(relativepos) => *relativepos,
            PieceAction::slide(direction, distance) => {
                let (xstep, zstep) = slide_id_to_direction_change_from_objective_perspective(*direction);
                let d: i8 = *distance as i8;
                let x: i8 = if xstep == 1 { d } else if xstep == -1 { -d } else { 0 };
                let z: i8 = if zstep == 1 { d } else if zstep == -1 { -d } else { 0 };
                proof {
                    let (sx, sz) = slide_step(*direction);
                    let dd = *distance as int;
                    assert(sx == 1 || sx == -1 || sx == 0);
                    assert(sz == 1 || sz == -1 || sz == 0);
                    assert(sx * dd == x) by (nonlinear_arith)
                        requires
                            (sx == 1 && x == dd) || (sx == -1 && x == -dd) || (sx == 0 && x == 0),
                    ;
                    assert(sz * dd == z) by (nonlinear_arith)
                        requires
                            (sz == 1 && z == dd) || (sz == -1 && z == -dd) || (sz == 0 && z == 0),
                    ;
                }
                (x, z)
            },
            PieceAction::checkerscapture(_) => (0, 0),
        }
    }
}

} // verus!

verus! {

/// The directions of a checkers piece: the four diagonals.
pub open spec fn checkers_directions() -> Seq<u8> {
    seq![1u8, 3u8, 5u8, 7u8]
}

/// Adds `e` to `v` unless it is there already.
fn push_unique_pair(v: &mut Vec<(u8, u8)>, e: (u8, u8))
    ensures
        forall|x: (u8, u8)| final(v)@.contains(x) <==> (old(v)@.contains(x) || x == e),
        old(v)@.no_duplicates() ==> final(v)@.no_duplicates(),
{
    let mut i: usize = 0;
    while i < v.len()
        invariant
            i <= v.len(),
            forall|j: int| 0 <= j < i ==> v@[j] != e,
        decreases v.len() - i,
    {
        if v[i].0 == e.0 && v[i].1 == e.1 {
            assert(v@[i as int] == e);
            return;
        }
        i = i + 1;
    }
    v.push(e);
    assert(forall|x: (u8, u8)| v@.contains(x) <==> (old(v)@.contains(x) || x == e)) by {
        assert(forall|j: int| 0 <= j < old(v)@.len() ==> v@[j] == old(v)@[j]);
        assert(v@[v@.len() - 1] == e);
    }
}

/// Adds `e` to `v` unless it is there already.
fn push_unique_pos(v: &mut Vec<(i8, i8)>, e: (i8, i8))
    ensures
        forall|x: (i8, i8)| final(v)@.contains(x) <==> (old(v)@.contains(x) || x == e),
        old(v)@.no_duplicates() ==> final(v)@.no_duplicates(),
{
    let mut i: usize = 0;
    while i < v.len()
        invariant
            i <= v.len(),
            forall|j: int| 0 <= j < i ==> v@[j] != e,
        decreases v.len() - i,
    {
        if v[i].0 == e.0 && v[i].1 == e.1 {
            assert(v@[i as int] == e);
            return;
        }
        i = i + 1;
    }
    v.push(e);
    assert(forall|x: (i8, i8)| v@.contains(x) <==> (old(v)@.contains(x) || x == e)) by {
        assert(forall|j: int| 0 <= j < old(v)@.len() ==> v@[j] == old(v)@[j]);
        assert(v@[v@.len() - 1] == e);
    }
}

/// The slides of a piece seen from the board by an owner facing `dir`: each
/// direction with its greatest distance.
pub open spec fn board_slide_set(slides: Seq<SlideAction>, dir: u8) -> Set<(u8, u8)> {
    Set::new(
        |e: (u8, u8)| exists|i: int| 0 <= i < slides.len() && e == (objective_slide(dir, (#[trigger] slides[i]).0), slides[i].1),
    )
}

/// The lift-and-moves of a piece seen from the board by an owner facing
/// `dir`.
pub open spec fn board_lift_set(lifts: Seq<LiftAction>, dir: u8) -> Set<(i8, i8)> {
    Set::new(|e: (i8, i8)| exists|i: int| 0 <= i < lifts.len() && objective_lift(dir, (#[trigger] lifts[i]).0) == Some(e))
}

/// The slide moves: every distance from 1 up to a slide's greatest.
pub open spec fn slide_moves(slides: Seq<SlideAction>, dir: u8) -> Set<PieceAction> {
    Set::new(
        |a: PieceAction|
            a matches PieceAction::slide(d, k) && exists|dist: u8| #[trigger] board_slide_set(slides, dir).contains((d, dist)) && 1
                <= k <= dist,
    )
}

/// The lift-and-move moves.
pub open spec fn lift_moves(lifts: Seq<LiftAction>, dir: u8) -> Set<PieceAction> {
    Set::new(|a: PieceAction| a matches PieceAction::liftandmove(p) && board_lift_set(lifts, dir).contains(p))
}

/// The checkers moves: one step, and a capture, in each checkers direction.
pub open spec fn checkers_moves(checkers: Seq<u8>) -> Set<PieceAction> {
    Set::new(
        |a: PieceAction|
            (a matches PieceAction::slide(d, k) && k == 1 && checkers.contains(d)) || (a matches PieceAction::checkerscapture(
                d,
            ) && checkers.contains(d)),
    )
}

/// How a kind of piece moves; each move occurs once.
#[derive(Clone, Debug)]
struct AllowedActions {
    /// Slides: direction, greatest distance, must capture, may capture.
    slidedirection: Vec<SlideAction>,
    /// Lift-and-moves: offset, must capture, may capture.
    liftandmove: Vec<LiftAction>,
    /// The directions of checkers moves.
    checkersdirections: Vec<u8>,
}

impl AllowedActions {
    /// No moves at all.
    fn new_all_unallowed() -> (a: AllowedActions)
        ensures
            a.slidedirection@ == Seq::<SlideAction>::empty(),
            a.liftandmove@ == Seq::<LiftAction>::empty(),
            a.checkersdirections@ == Seq::<u8>::empty(),
    {
        AllowedActions { slidedirection: Vec::new(), liftandmove: Vec::new(), checkersdirections: Vec::new() }
    }

    /// The capture rules of the lift-and-move to this offset seen from the
    /// board: whether it must capture and whether it may, as the first of the
    /// moves that lead there gives them.
    fn get_capture_type_of_lift_and_move(&self, reqrelativepos: (i8, i8), ownerdirection: u8) -> (r: (bool, bool))
        requires
            exists|i: int| 0 <= i < self.liftandmove@.len() && objective_lift(ownerdirection, (#[trigger] self.liftandmove@[i]).0) == Some(reqrelativepos),
        ensures
            exists|i: int|
                0 <= i < self.liftandmove@.len() && objective_lift(ownerdirection, (#[trigger] self.liftandmove@[i]).0) == Some(
                    reqrelativepos,
                ) && r == (self.liftandmove@[i].1, self.liftandmove@[i].2) && forall|j: int|
                    0 <= j < i ==> objective_lift(ownerdirection, (#[trigger] self.liftandmove@[j]).0) != Some(reqrelativepos),
    {
        let mut i: usize = 0;
        while i < self.liftandmove.len()
            invariant
                i <= self.liftandmove@.len(),
                forall|j: int| 0 <= j < i ==> objective_lift(ownerdirection, (#[trigger] self.liftandmove@[j]).0) != Some(reqrelativepos),
                exists|j: int| 0 <= j < self.liftandmove@.len() && objective_lift(ownerdirection, (#[trigger] self.liftandmove@[j]).0) == Some(reqrelativepos),
            decreases self.liftandmove.len() - i,
        {
            let (relativepos, mustcapture, cancapture) = self.liftandmove[i];
            if let Some(p) = players_perspective_to_objective_perspective_lift(&ownerdirection, &relativepos) {
                if p.0 == reqrelativepos.0 && p.1 == reqrelativepos.1 {
                    assert(self.liftandmove@[i as int] == (relativepos, mustcapture, cancapture));
                    return (mustcapture, cancapture);
                }
            }
            i = i + 1;
        }
        proof {
            let j = choose|j: int| 0 <= j < self.liftandmove@.len() && objective_lift(ownerdirection, (#[trigger] self.liftandmove@[j]).0) == Some(reqrelativepos);
            assert(j < i);
        }
        (false, false)
    }

    /// The capture rules of sliding this far in this direction seen from the
    /// board: those of the first slide in that direction that reaches that far.
    fn get_capture_type_of_slide(&self, reqdirection: u8, reqdistance: u8, ownerdirection: u8) -> (r: (bool, bool))
        requires
            exists|i: int|
                0 <= i < self.slidedirection@.len() && objective_slide(ownerdirection, (#[trigger] self.slidedirection@[i]).0)
                    == reqdirection && reqdistance <= self.slidedirection@[i].1,
        ensures
            exists|i: int|
                0 <= i < self.slidedirection@.len() && objective_slide(ownerdirection, (#[trigger] self.slidedirection@[i]).0)
                    == reqdirection && reqdistance <= self.slidedirection@[i].1 && r == (
                    self.slidedirection@[i].2,
                    self.slidedirection@[i].3,
                ) && forall|j: int|
                    0 <= j < i ==> !(objective_slide(ownerdirection, (#[trigger] self.slidedirection@[j]).0) == reqdirection
                        && reqdistance <= self.slidedirection@[j].1),
    {
        let mut i: usize = 0;
        while i < self.slidedirection.len()
            invariant
                i <= self.slidedirection@.len(),
                forall|j: int| 0 <= j < i ==> !(objective_slide(ownerdirection, (#[trigger] self.slidedirection@[j]).0) == reqdirection
                    && reqdistance <= self.slidedirection@[j].1),
                exists|j: int|
                    0 <= j < self.slidedirection@.len() && objective_slide(ownerdirection, (#[trigger] self.slidedirection@[j]).0)
                        == reqdirection && reqdistance <= self.slidedirection@[j].1,
            decreases self.slidedirection.len() - i,
        {
            let (direction, distance, mustcapture, cancapture) = self.slidedirection[i];
            let d = players_perspective_to_objective_perspective_slide(&ownerdirection, &direction);
            if reqdirection == d && reqdistance <= distance {
                assert(self.slidedirection@[i as int] == (direction, distance, mustcapture, cancapture));
                return (mustcapture, cancapture);
            }
            i = i + 1;
        }
        proof {
            let j = choose|j: int|
                0 <= j < self.slidedirection@.len() && objective_slide(ownerdirection, (#[trigger] self.slidedirection@[j]).0)
                    == reqdirection && reqdistance <= self.slidedirection@[j].1;
            assert(j < i);
        }
        (false, false)
    }

    /// Each slide direction seen from the board with its greatest distance,
    /// each pair once.
    fn get_allowed_slide(&self, ownerdirection: u8) -> (r: Vec<(u8, u8)>)
        ensures
            r@.no_duplicates(),
            forall|e: (u8, u8)| r@.contains(e) <==> board_slide_set(self.slidedirection@, ownerdirection).contains(e),
    {
        let temp = &self.slidedirection;
        let mut toreturn: Vec<(u8, u8)> = Vec::new();
        let mut i: usize = 0;
        while i < temp.len()
            invariant
                i <= temp@.len(),
                toreturn@.no_duplicates(),
                forall|e: (u8, u8)| toreturn@.contains(e) <==> exists|j: int| 0 <= j < i && e == (objective_slide(ownerdirection, (#[trigger] temp@[j]).0), temp@[j].1),
            decreases temp.len() - i,
        {
            let (direction, a, _, _) = temp[i];
            let newdirection = players_perspective_to_objective_perspective_slide(&ownerdirection, &direction);
            push_unique_pair(&mut toreturn, (newdirection, a));
            i = i + 1;
            assert(forall|e: (u8, u8)| toreturn@.contains(e) <==> exists|j: int| 0 <= j < i && e == (objective_slide(ownerdirection, (#[trigger] temp@[j]).0), temp@[j].1)) by {
                assert(temp@[i - 1].0 == direction && temp@[i - 1].1 == a);
            }
        }
        toreturn
    }

    /// Each lift-and-move offset seen from the board, each once; one that no
    /// longer fits in `i8` is left out.
    fn get_allowed_lift_and_move(&self, ownerdirection: u8) -> (r: Vec<(i8, i8)>)
        ensures
            r@.no_duplicates(),
            forall|e: (i8, i8)| r@.contains(e) <==> board_lift_set(self.liftandmove@, ownerdirection).contains(e),
    {
        let temp = &self.liftandmove;
        let mut toreturn: Vec<(i8, i8)> = Vec::new();
        let mut i: usize = 0;
        while i < temp.len()
            invariant
                i <= temp@.len(),
                toreturn@.no_duplicates(),
                forall|e: (i8, i8)| toreturn@.contains(e) <==> exists|j: int| 0 <= j < i && objective_lift(ownerdirection, (#[trigger] temp@[j]).0) == Some(e),
            decreases temp.len() - i,
        {
            let (relativepos, _, _) = temp[i];
            if let Some(newrelativepos) = players_perspective_to_objective_perspective_lift(&ownerdirection, &relativepos) {
                push_unique_pos(&mut toreturn, newrelativepos);
            }
            i = i + 1;
            assert(forall|e: (i8, i8)| toreturn@.contains(e) <==> exists|j: int| 0 <= j < i && objective_lift(ownerdirection, (#[trigger] temp@[j]).0) == Some(e)) by {
                assert(temp@[i - 1].0 == relativepos);
            }
        }
        toreturn
    }

    /// Every slide move: each direction seen from the board, at every
    /// distance from 1 up to the greatest.
    fn get_allowed_slide_actions(&self, ownerdirection: u8) -> (r: Vec<PieceAction>)
        ensures
            forall|a: PieceAction| #[trigger] r@.contains(a) <==> slide_moves(self.slidedirection@, ownerdirection).contains(a),
    {
        let pairs = self.get_allowed_slide(ownerdirection);
        let ghost set = board_slide_set(self.slidedirection@, ownerdirection);
        let mut toreturn: Vec<PieceAction> = Vec::new();
        let mut i: usize = 0;
        while i < pairs.len()
            invariant
                i <= pairs@.len(),
                forall|e: (u8, u8)| pairs@.contains(e) <==> set.contains(e),
                set == board_slide_set(self.slidedirection@, ownerdirection),
                forall|a: PieceAction| #[trigger] toreturn@.contains(a) <==> (a matches PieceAction::slide(d, k) && exists|j: int| 0 <= j < i && (#[trigger] pairs@[j]).0 == d && 1 <= k <= pairs@[j].1),
            decreases pairs.len() - i,
        {
            let (direction, distance) = pairs[i];
            let ghost before = toreturn@;
            let mut curdistance: u16 = 1;
            while curdistance <= distance as u16
                invariant
                    1 <= curdistance <= 256,
                    curdistance <= distance as u16 + 1,
                    forall|a: PieceAction| #[trigger] toreturn@.contains(a) <==> (before.contains(a) || (a matches PieceAction::slide(d, k) && d == direction && 1 <= k < curdistance)),
                decreases distance as u16 + 1 - curdistance,
            {
                let ghost prev = toreturn@;
                toreturn.push(PieceAction::slide(direction, curdistance as u8));
                curdistance = curdistance + 1;
                proof {
                    assert forall|a: PieceAction| #[trigger] toreturn@.contains(a) <==> (before.contains(a) || (a matches PieceAction::slide(d, k) && d == direction && 1 <= k < curdistance)) by {
                        if toreturn@.contains(a) && a != toreturn@[toreturn@.len() - 1] {
                            let j = choose|j: int| 0 <= j < toreturn@.len() && toreturn@[j] == a;
                            assert(prev[j] == a);
                        }
                        if prev.contains(a) {
                            let j = choose|j: int| 0 <= j < prev.len() && prev[j] == a;
                            assert(toreturn@[j] == a);
                        }
                        if a == toreturn@[toreturn@.len() - 1] {
                            assert(toreturn@.contains(a));
                        }
                    }
                }
            }
            i = i + 1;
            proof {
                assert forall|a: PieceAction| #[trigger] toreturn@.contains(a) <==> (a matches PieceAction::slide(d, k) && exists|j: int| 0 <= j < i && (#[trigger] pairs@[j]).0 == d && 1 <= k <= pairs@[j].1) by {
                    if let PieceAction::slide(d, k) = a {
                        assert(pairs@[i - 1] == (direction, distance));
                        if d == direction && 1 <= k <= distance {
                            assert(pairs@[i - 1].0 == d);
                        }
                        if exists|j: int| 0 <= j < i && (#[trigger] pairs@[j]).0 == d && 1 <= k <= pairs@[j].1 {
                            let j = choose|j: int| 0 <= j < i && (#[trigger] pairs@[j]).0 == d && 1 <= k <= pairs@[j].1;
                            if j < i - 1 {
                                assert(before.contains(a));
                            }
                        }
                    }
                }
            }
        }
        proof {
            assert forall|a: PieceAction| #[trigger] toreturn@.contains(a) <==> slide_moves(self.slidedirection@, ownerdirection).contains(a) by {
                if let PieceAction::slide(d, k) = a {
                    if exists|dist: u8| #[trigger] set.contains((d, dist)) && 1 <= k <= dist {
                        let dist = choose|dist: u8| #[trigger] set.contains((d, dist)) && 1 <= k <= dist;
                        assert(pairs@.contains((d, dist)));
                        let j = choose|j: int| 0 <= j < pairs@.len() && pairs@[j] == (d, dist);
                        assert(pairs@[j].0 == d && 1 <= k <= pairs@[j].1);
                    }
                    if exists|j: int| 0 <= j < i && (#[trigger] pairs@[j]).0 == d && 1 <= k <= pairs@[j].1 {
                        let j = choose|j: int| 0 <= j < i && (#[trigger] pairs@[j]).0 == d && 1 <= k <= pairs@[j].1;
                        assert(pairs@.contains(pairs@[j]));
                        assert(set.contains((d, pairs@[j].1)));
                    }
                }
            }
        }
        toreturn
    }

    /// Every lift-and-move move.
    fn get_allowed_lift_and_move_actions(&self, ownerdirection: u8) -> (r: Vec<PieceAction>)
        ensures
            forall|a: PieceAction| #[trigger] r@.contains(a) <==> lift_moves(self.liftandmove@, ownerdirection).contains(a),
    {
        let positions = self.get_allowed_lift_and_move(ownerdirection);
        let mut toreturn: Vec<PieceAction> = Vec::new();
        let mut i: usize = 0;
        while i < positions.len()
            invariant
                i <= positions@.len(),
                toreturn@.len() == i,
                forall|j: int| 0 <= j < i ==> #[trigger] toreturn@[j] == PieceAction::liftandmove(positions@[j]),
            decreases positions.len() - i,
        {
            toreturn.push(PieceAction::liftandmove(positions[i]));
            i = i + 1;
        }
        proof {
            assert forall|a: PieceAction| #[trigger] toreturn@.contains(a) <==> lift_moves(self.liftandmove@, ownerdirection).contains(a) by {
                if toreturn@.contains(a) {
                    let j = choose|j: int| 0 <= j < toreturn@.len() && toreturn@[j] == a;
                    assert(positions@.contains(positions@[j]));
                }
                if let PieceAction::liftandmove(p) = a {
                    if positions@.contains(p) {
                        let j = choose|j: int| 0 <= j < positions@.len() && positions@[j] == p;
                        assert(toreturn@[j] == a);
                    }
                }
            }
        }
        toreturn
    }

    fn from_parts(slides: Vec<SlideAction>, lifts: Vec<LiftAction>, checkers: Vec<u8>) -> (a: AllowedActions)
        ensures
            a.slidedirection@ == slides@,
            a.liftandmove@ == lifts@,
            a.checkersdirections@ == checkers@,
    {
        AllowedActions { slidedirection: slides, liftandmove: lifts, checkersdirections: checkers }
    }

    fn get_unmoved_pawn() -> (a: AllowedActions)
        ensures
            a.slidedirection@ == unmoved_pawn_slides(),
            a.liftandmove@ == Seq::<LiftAction>::empty(),
            a.checkersdirections@ == Seq::<u8>::empty(),
    {
        let s = vec![(0u8, 2u8, false, false), (1u8, 1u8, true, true), (7u8, 1u8, true, true)];
        AllowedActions::from_parts(s, Vec::new(), Vec::new())
    }

    fn get_moved_pawn() -> (a: AllowedActions)
        ensures
            a.slidedirection@ == moved_pawn_slides(),
            a.liftandmove@ == Seq::<LiftAction>::empty(),
            a.checkersdirections@ == Seq::<u8>::empty(),
    {
        let s = vec![(0u8, 1u8, false, false), (1u8, 1u8, true, true), (7u8, 1u8, true, true)];
        AllowedActions::from_parts(s, Vec::new(), Vec::new())
    }

    fn get_knight() -> (a: AllowedActions)
        ensures
            a.slidedirection@ == Seq::<SlideAction>::empty(),
            a.liftandmove@ == knight_lifts(),
            a.checkersdirections@ == Seq::<u8>::empty(),
    {
        let l = vec![((1i8, 2i8), false, true), ((2i8, 1i8), false, true), ((2i8, -1i8), false, true),
            ((1i8, -2i8), false, true), ((-1i8, -2i8), false, true), ((-2i8, -1i8), false, true),
            ((-2i8, 1i8), false, true), ((-1i8, 2i8), false, true)];
        AllowedActions::from_parts(Vec::new(), l, Vec::new())
    }

    fn get_bishop() -> (a: AllowedActions)
        ensures
            a.slidedirection@ == bishop_slides(),
            a.liftandmove@ == Seq::<LiftAction>::empty(),
            a.checkersdirections@ == Seq::<u8>::empty(),
    {
        let s = vec![(1u8, 7u8, false, true), (3u8, 7u8, false, true), (5u8, 7u8, false, true), (7u8, 7u8, false, true)];
        AllowedActions::from_parts(s, Vec::new(), Vec::new())
    }

    fn get_rook() -> (a: AllowedActions)
        ensures
            a.slidedirection@ == rook_slides(),
            a.liftandmove@ == Seq::<LiftAction>::empty(),
            a.checkersdirections@ == Seq::<u8>::empty(),
    {
        let s = vec![(0u8, 7u8, false, true), (2u8, 7u8, false, true), (4u8, 7u8, false, true), (6u8, 7u8, false, true)];
        AllowedActions::from_parts(s, Vec::new(), Vec::new())
    }

    fn get_queen() -> (a: AllowedActions)
        ensures
            a.slidedirection@ == queen_slides(),
            a.liftandmove@ == Seq::<LiftAction>::empty(),
            a.checkersdirections@ == Seq::<u8>::empty(),
    {
        let s = vec![(0u8, 7u8, false, true), (2u8, 7u8, false, true), (4u8, 7u8, false, true), (6u8, 7u8, false, true),
            (1u8, 7u8, false, true), (3u8, 7u8, false, true), (5u8, 7u8, false, true), (7u8, 7u8, false, true)];
        assert(s@ =~= queen_slides());
        AllowedActions::from_parts(s, Vec::new(), Vec::new())
    }

    fn get_king() -> (a: AllowedActions)
        ensures
            a.slidedirection@ == king_slides(),
            a.liftandmove@ == Seq::<LiftAction>::empty(),
            a.checkersdirections@ == Seq::<u8>::empty(),
    {
        let s = vec![(0u8, 1u8, false, true), (2u8, 1u8, false, true), (4u8, 1u8, false, true), (6u8, 1u8, false, true),
            (1u8, 1u8, false, true), (3u8, 1u8, false, true), (5u8, 1u8, false, true), (7u8, 1u8, false, true)];
        AllowedActions::from_parts(s, Vec::new(), Vec::new())
    }

    fn get_normal_checkers() -> (a: AllowedActions)
        ensures
            a.slidedirection@ == Seq::<SlideAction>::empty(),
            a.liftandmove@ == Seq::<LiftAction>::empty(),
            a.checkersdirections@ == checkers_directions(),
    {
        let c = vec![1u8, 3u8, 5u8, 7u8];
        AllowedActions::from_parts(Vec::new(), Vec::new(), c)
    }
}

} // verus!

verus! {

/// The kind of a piece, which names it.
#[derive(Clone, Copy, Debug, PartialEq, Eq, Structural)]
pub enum PieceKind {
    Nothing,
    Checkers,
    Pawn,
    Knight,
    King,
    Queen,
    Bishop,
    Rook,
    PoolBall,
}

/// The name of each kind of piece.
pub open spec fn kind_name(k: PieceKind) -> Seq<char> {
    match k {
        PieceKind::Nothing => "none"@,
        PieceKind::Checkers => "checkers"@,
        PieceKind::Pawn => "pawn"@,
        PieceKind::Knight => "knight"@,
        PieceKind::King => "king"@,
        PieceKind::Queen => "queen"@,
        PieceKind::Bishop => "bishop"@,
        PieceKind::Rook => "rook"@,
        PieceKind::PoolBall => "poolball"@,
    }
}

/// A piece: its kind, how it moves, its value, and whether it may castle,
/// capture en passant or be flicked, and whether it has acted.
#[derive(Clone, Debug)]
pub struct PieceData {
    kind: PieceKind,
    allowedactions: AllowedActions,
    cancastle: bool,
    canenpassant: bool,
    hasperformedaction: bool,
    canflick: bool,
    value: u8,
}

impl PieceData {
    pub closed spec fn kind(&self) -> PieceKind {
        self.kind
    }

    /// The slides, from the owner's perspective.
    pub closed spec fn slides(&self) -> Seq<SlideAction> {
        self.allowedactions.slidedirection@
    }

    /// The lift-and-moves, from the owner's perspective.
    pub closed spec fn lifts(&self) -> Seq<LiftAction> {
        self.allowedactions.liftandmove@
    }

    /// The directions of checkers moves, as they are on the board.
    pub closed spec fn checkers(&self) -> Seq<u8> {
        self.allowedactions.checkersdirections@
    }

    pub closed spec fn spec_value(&self) -> u8 {
        self.value
    }

    pub closed spec fn spec_canflick(&self) -> bool {
        self.canflick
    }

    pub closed spec fn spec_cancastle(&self) -> bool {
        self.cancastle
    }

    pub closed spec fn spec_moved(&self) -> bool {
        self.hasperformedaction
    }

    /// The moves of a kind of piece: its slides, lift-and-moves and checkers
    /// moves, as a piece of that kind has them.
    pub open spec fn moves_of(&self, slides: Seq<SlideAction>, lifts: Seq<LiftAction>, checkers: Seq<u8>) -> bool {
        self.slides() == slides && self.lifts() == lifts && self.checkers() == checkers
    }

    /// A piece with no kind and no moves, worth 0, that may be flicked.
    pub fn new() -> (d: PieceData)
        ensures
            d.kind() == PieceKind::Nothing,
            d.moves_of(Seq::empty(), Seq::empty(), Seq::empty()),
            !d.spec_cancastle(),
            !d.spec_moved(),
            d.spec_canflick(),
            d.spec_value() == 0,
    {
        PieceData {
            kind: PieceKind::Nothing,
            allowedactions: AllowedActions::new_all_unallowed(),
            cancastle: false,
            canenpassant: false,
            hasperformedaction: false,
            canflick: true,
            value: 0,
        }
    }

    pub fn get_value(&self) -> (v: u8)
        ensures
            v == self.spec_value(),
    {
        self.value
    }

    /// A checkers piece, worth 2.
    pub fn set_checkers(&mut self)
        ensures
            final(self).kind() == PieceKind::Checkers,
            final(self).moves_of(Seq::empty(), Seq::empty(), checkers_directions()),
            final(self).spec_value() == 2,
            final(self).spec_cancastle() == old(self).spec_cancastle(),
            final(self).spec_moved() == old(self).spec_moved(),
            final(self).spec_canflick() == old(self).spec_canflick(),
    {
        self.allowedactions = AllowedActions::get_normal_checkers();
        self.kind = PieceKind::Checkers;
        self.value = 2;
    }

    /// A pawn, worth 1: one that has acted moves as a moved pawn.
    pub fn set_pawn(&mut self)
        ensures
            final(self).kind() == PieceKind::Pawn,
            final(self).moves_of(
                if old(self).spec_moved() { moved_pawn_slides() } else { unmoved_pawn_slides() },
                Seq::empty(),
                Seq::empty(),
            ),
            final(self).spec_value() == 1,
            final(self).spec_cancastle() == old(self).spec_cancastle(),
            final(self).spec_moved() == old(self).spec_moved(),
            final(self).spec_canflick() == old(self).spec_canflick(),
    {
        if self.hasperformedaction {
            self.allowedactions = AllowedActions::get_moved_pawn();
        } else {
            self.allowedactions = AllowedActions::get_unmoved_pawn();
        }
        self.kind = PieceKind::Pawn;
        self.value = 1;
    }

    /// A knight, worth 2.
    pub fn set_knight(&mut self)
        ensures
            final(self).kind() == PieceKind::Knight,
            final(self).moves_of(Seq::empty(), knight_lifts(), Seq::empty()),
            final(self).spec_value() == 2,
            final(self).spec_cancastle() == old(self).spec_cancastle(),
            final(self).spec_moved() == old(self).spec_moved(),
            final(self).spec_canflick() == old(self).spec_canflick(),
    {
        self.allowedactions = AllowedActions::get_knight();
        self.kind = PieceKind::Knight;
        self.value = 2;
    }

    /// A king, worth 0.
    pub fn set_king(&mut self)
        ensures
            final(self).kind() == PieceKind::King,
            final(self).moves_of(king_slides(), Seq::empty(), Seq::empty()),
            final(self).spec_value() == 0,
            final(self).spec_cancastle() == old(self).spec_cancastle(),
            final(self).spec_moved() == old(self).spec_moved(),
            final(self).spec_canflick() == old(self).spec_canflick(),
    {
        self.allowedactions = AllowedActions::get_king();
        self.kind = PieceKind::King;
        self.value = 0;
    }

    /// A queen, worth 4.
    pub fn set_queen(&mut self)
        ensures
            final(self).kind() == PieceKind::Queen,
            final(self).moves_of(queen_slides(), Seq::empty(), Seq::empty()),
            final(self).spec_value() == 4,
            final(self).spec_cancastle() == old(self).spec_cancastle(),
            final(self).spec_moved() == old(self).spec_moved(),
            final(self).spec_canflick() == old(self).spec_canflick(),
    {
        self.allowedactions = AllowedActions::get_queen();
        self.kind = PieceKind::Queen;
        self.value = 4;
    }

    /// A bishop, worth 2.
    pub fn set_bishop(&mut self)
        ensures
            final(self).kind() == PieceKind::Bishop,
            final(self).moves_of(bishop_slides(), Seq::empty(), Seq::empty()),
            final(self).spec_value() == 2,
            final(self).spec_cancastle() == old(self).spec_cancastle(),
            final(self).spec_moved() == old(self).spec_moved(),
            final(self).spec_canflick() == old(self).spec_canflick(),
    {
        self.allowedactions = AllowedActions::get_bishop();
        self.kind = PieceKind::Bishop;
        self.value = 2;
    }

    /// A rook, worth 3, which may castle.
    pub fn set_rook(&mut self)
        ensures
            final(self).kind() == PieceKind::Rook,
            final(self).moves_of(rook_slides(), Seq::empty(), Seq::empty()),
            final(self).spec_value() == 3,
            final(self).spec_cancastle(),
            final(self).spec_moved() == old(self).spec_moved(),
            final(self).spec_canflick() == old(self).spec_canflick(),
    {
        self.allowedactions = AllowedActions::get_rook();
        self.kind = PieceKind::Rook;
        self.cancastle = true;
        self.value = 3;
    }

    /// A pool ball, worth 2: no moves, but it may be flicked.
    pub fn set_pool_ball(&mut self)
        ensures
            final(self).kind() == PieceKind::PoolBall,
            final(self).moves_of(Seq::empty(), Seq::empty(), Seq::empty()),
            final(self).spec_value() == 2,
            final(self).spec_canflick(),
            final(self).spec_cancastle() == old(self).spec_cancastle(),
            final(self).spec_moved() == old(self).spec_moved(),
    {
        self.allowedactions = AllowedActions::new_all_unallowed();
        self.kind = PieceKind::PoolBall;
        self.canflick = true;
        self.value = 2;
    }

    /// Whether the piece may be flicked.
    pub fn canflick(&self) -> (b: bool)
        ensures
            b == self.spec_canflick(),
    {
        self.canflick
    }

    /// Every move of the piece for an owner facing `ownerdirection`: the
    /// lift-and-moves and slides seen from the board, and a step and a capture
    /// in each checkers direction. The order is left open.
    pub fn get_piece_actions(&self, ownerdirection: u8) -> (r: Vec<PieceAction>)
        ensures
            forall|a: PieceAction| #[trigger] r@.contains(a) <==> (lift_moves(self.lifts(), ownerdirection).contains(a)
                || slide_moves(self.slides(), ownerdirection).contains(a) || checkers_moves(self.checkers()).contains(a)),
    {
        let lifts = self.allowedactions.get_allowed_lift_and_move_actions(ownerdirection);
        let slides = self.allowedactions.get_allowed_slide_actions(ownerdirection);
        let mut toreturn: Vec<PieceAction> = Vec::new();
        let mut i: usize = 0;
        while i < lifts.len()
            invariant
                i <= lifts@.len(),
                toreturn@ == lifts@.take(i as int),
            decreases lifts.len() - i,
        {
            toreturn.push(lifts[i]);
            i = i + 1;
            assert(toreturn@ =~= lifts@.take(i as int));
        }
        let mut i: usize = 0;
        while i < slides.len()
            invariant
                i <= slides@.len(),
                toreturn@ == lifts@ + slides@.take(i as int),
            decreases slides.len() - i,
        {
            toreturn.push(slides[i]);
            i = i + 1;
            assert(toreturn@ =~= lifts@ + slides@.take(i as int));
        }
        let ghost mid = toreturn@;
        let checkersdirections = &self.allowedactions.checkersdirections;
        let mut i: usize = 0;
        while i < checkersdirections.len()
            invariant
                i <= checkersdirections@.len(),
                checkersdirections@ == self.checkers(),
                forall|a: PieceAction| #[trigger] toreturn@.contains(a) <==> (mid.contains(a) || (a matches PieceAction::slide(d, k) && k == 1 && checkersdirections@.take(i as int).contains(d)) || (a matches PieceAction::checkerscapture(d) && checkersdirections@.take(i as int).contains(d))),
            decreases checkersdirections.len() - i,
        {
            let direction = checkersdirections[i];
            let ghost prev = toreturn@;
            toreturn.push(PieceAction::slide(direction, 1));
            toreturn.push(PieceAction::checkerscapture(direction));
            i = i + 1;
            proof {
                let cur = checkersdirections@.take(i as int);
                let old_ = checkersdirections@.take(i - 1);
                assert(cur =~= old_.push(direction));
                assert forall|a: PieceAction| #[trigger] toreturn@.contains(a) <==> (mid.contains(a) || (a matches PieceAction::slide(d, k) && k == 1 && cur.contains(d)) || (a matches PieceAction::checkerscapture(d) && cur.contains(d))) by {
                    let n = toreturn@.len();
                    assert(toreturn@[n - 2] == PieceAction::slide(direction, 1));
                    assert(toreturn@[n - 1] == PieceAction::checkerscapture(direction));
                    if toreturn@.contains(a) && a != toreturn@[n - 2] && a != toreturn@[n - 1] {
                        let j = choose|j: int| 0 <= j < n && toreturn@[j] == a;
                        assert(prev[j] == a);
                    }
                    if prev.contains(a) {
                        let j = choose|j: int| 0 <= j < prev.len() && prev[j] == a;
                        assert(toreturn@[j] == a);
                    }
                    if a == toreturn@[n - 2] || a == toreturn@[n - 1] {
                        assert(toreturn@.contains(a));
                        assert(cur[i - 1] == direction);
                    }
                    if let PieceAction::slide(d, k) = a {
                        if cur.contains(d) && !old_.contains(d) {
                            assert(d == direction);
                        }
                    }
                    if let PieceAction::checkerscapture(d) = a {
                        if cur.contains(d) && !old_.contains(d) {
                            assert(d == direction);
                        }
                    }
                }
            }
        }
        proof {
            assert(checkersdirections@.take(i as int) =~= self.checkers());
            assert forall|a: PieceAction| #[trigger] toreturn@.contains(a) <==> (lift_moves(self.lifts(), ownerdirection).contains(a)
                || slide_moves(self.slides(), ownerdirection).contains(a) || checkers_moves(self.checkers()).contains(a)) by {
                if mid.contains(a) {
                    let j = choose|j: int| 0 <= j < mid.len() && mid[j] == a;
                    if j < lifts@.len() {
                        assert(lifts@.contains(a));
                    } else {
                        assert(slides@[j - lifts@.len()] == a);
                        assert(slides@.contains(a));
                    }
                }
                if lifts@.contains(a) {
                    let j = choose|j: int| 0 <= j < lifts@.len() && lifts@[j] == a;
                    assert(mid[j] == a);
                }
                if slides@.contains(a) {
                    let j = choose|j: int| 0 <= j < slides@.len() && slides@[j] == a;
                    assert(mid[lifts@.len() + j] == a);
                }
            }
        }
        toreturn
    }

    /// The piece has acted: a pawn now moves as a moved pawn.
    pub fn moved_piece(&mut self)
        ensures
            final(self).spec_moved(),
            final(self).kind() == old(self).kind(),
            old(self).kind() == PieceKind::Pawn ==> final(self).moves_of(moved_pawn_slides(), Seq::empty(), Seq::empty()),
            old(self).kind() != PieceKind::Pawn ==> final(self).moves_of(old(self).slides(), old(self).lifts(), old(self).checkers()),
            final(self).spec_value() == old(self).spec_value(),
            final(self).spec_canflick() == old(self).spec_canflick(),
            final(self).spec_cancastle() == old(self).spec_cancastle(),
    {
        self.hasperformedaction = true;
        if self.kind == PieceKind::Pawn {
            self.allowedactions = AllowedActions::get_moved_pawn();
        }
    }

    /// The name of the piece's kind.
    pub fn get_type_name(&self) -> (s: String)
        ensures
            s@ == kind_name(self.kind()),
    {
        match self.kind {
            PieceKind::Nothing => "none".to_string(),
            PieceKind::Checkers => "checkers".to_string(),
            PieceKind::Pawn => "pawn".to_string(),
            PieceKind::Knight => "knight".to_string(),
            PieceKind::King => "king".to_string(),
            PieceKind::Queen => "queen".to_string(),
            PieceKind::Bishop => "bishop".to_string(),
            PieceKind::Rook => "rook".to_string(),
            PieceKind::PoolBall => "poolball".to_string(),
        }
    }

    /// Whether the piece allows this slide or lift-and-move, for an owner
    /// facing `ownerdirection`.
    pub fn is_action_allowed(&self, action: PieceAction, ownerdirection: u8) -> (b: bool)
        requires
            !(action is checkerscapture),
        ensures
            action is slide ==> b == slide_moves(self.slides(), ownerdirection).contains(action),
            action is liftandmove ==> b == lift_moves(self.lifts(), ownerdirection).contains(action),
    {
        match action {
            PieceAction::slide(_, _) => {
                let slideactions = self.allowedactions.get_allowed_slide_actions(ownerdirection);
                actions_contain(&slideactions, &action)
            },
            PieceAction::liftandmove(_) => {
                let liftactions = self.allowedactions.get_allowed_lift_and_move_actions(ownerdirection);
                actions_contain(&liftactions, &action)
            },
            PieceAction::checkerscapture(_) => false,
        }
    }

    /// Whether the lift-and-move to this offset (seen from the board) must
    /// capture and whether it may, by the first move of the piece that leads
    /// there (see `AllowedActions`).
    pub fn get_capture_type_of_lift_and_move(&self, relativepos: (i8, i8), ownerdirection: u8) -> (r: (bool, bool))
        requires
            exists|i: int| 0 <= i < self.lifts().len() && objective_lift(ownerdirection, (#[trigger] self.lifts()[i]).0) == Some(relativepos),
        ensures
            exists|i: int|
                0 <= i < self.lifts().len() && objective_lift(ownerdirection, (#[trigger] self.lifts()[i]).0) == Some(relativepos)
                    && r == (self.lifts()[i].1, self.lifts()[i].2) && forall|j: int|
                    0 <= j < i ==> objective_lift(ownerdirection, (#[trigger] self.lifts()[j]).0) != Some(relativepos),
    {
        self.allowedactions.get_capture_type_of_lift_and_move(relativepos, ownerdirection)
    }

    /// Whether sliding this far in this direction (seen from the board) must
    /// capture and whether it may, by the first slide of the piece that
    /// reaches there (see `AllowedActions`).
    pub fn get_capture_type_of_slide(&self, direction: u8, distance: u8, ownerdirection: u8) -> (r: (bool, bool))
        requires
            exists|i: int|
                0 <= i < self.slides().len() && objective_slide(ownerdirection, (#[trigger] self.slides()[i]).0) == direction
                    && distance <= self.slides()[i].1,
        ensures
            exists|i: int|
                0 <= i < self.slides().len() && objective_slide(ownerdirection, (#[trigger] self.slides()[i]).0) == direction
                    && distance <= self.slides()[i].1 && r == (self.slides()[i].2, self.slides()[i].3) && forall|j: int|
                    0 <= j < i ==> !(objective_slide(ownerdirection, (#[trigger] self.slides()[j]).0) == direction
                        && distance <= self.slides()[j].1),
    {
        self.allowedactions.get_capture_type_of_slide(direction, distance, ownerdirection)
    }
}

} // verus!
