use vstd::prelude::*;

verus! {

/// Whether an offset reaches no further than the board allows: at most 7
/// squares each way on both axes.
pub open spec fn on_board_offset(pos: (i8, i8)) -> bool {
    -7 <= pos.0 <= 7 && -7 <= pos.1 <= 7
}

/// A square given by its offset from another square, at most 7 squares away
/// on either axis.
#[derive(Clone, Copy, Debug, PartialEq, Eq, Hash, Structural)]
pub struct RelativeSquare {
    x: i8,
    y: i8,
}

impl RelativeSquare {
    /// The offset.
    pub closed spec fn pos(self) -> (i8, i8) {
        (self.x, self.y)
    }

    /// The square at this offset, if it is at most 7 squares away on both axes.
    pub fn new(relativepos: (i8, i8)) -> (r: Option<RelativeSquare>)
        ensures
            on_board_offset(relativepos) <==> r is Some,
            r matches Some(s) ==> s.pos() == relativepos,
    {
        if relativepos.0 >= -7 && relativepos.0 <= 7 {
            if relativepos.1 >= -7 && relativepos.1 <= 7 {
                return Some(RelativeSquare { x: relativepos.0, y: relativepos.1 });
            }
        }
        None
    }

    /// The offset.
    pub fn get_relative_pos(&self) -> (p: (i8, i8))
        ensures
            p == self.pos(),
    {
        (self.x, self.y)
    }
}

} // verus!
