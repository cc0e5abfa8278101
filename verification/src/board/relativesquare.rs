use vstd::prelude::*;

verus! {

/// A square given by its offset from another square.
#[derive(Clone, Copy, Debug, PartialEq, Eq, Hash, Structural)]
pub struct RelativeSquare {
    x: i8,
    y: i8,
}

impl RelativeSquare {
    /// The offset.
    pub closed spec fn pos(self) -> (i8, i8) {
        (self.x, self.y)
    }

    pub fn new(relativepos: (i8, i8)) -> (r: RelativeSquare)
        ensures
            r.pos() == relativepos,
    {
        RelativeSquare { x: relativepos.0, y: relativepos.1 }
    }

    /// The offset.
    pub fn get_relative_pos(&self) -> (p: (i8, i8))
        ensures
            p == self.pos(),
    {
        (self.x, self.y)
    }
}

} // verus!
