use vstd::prelude::*;
use crate::boardobject::BoardObject;

verus! {

/// A square of the board, known by its id.
#[derive(Clone, Copy, Debug, PartialEq, Eq, Hash, Structural)]
pub struct Square {
    pub id: u16,
}

impl Square {
    pub fn new(id: u16) -> (s: Square)
        ensures
            s.id == id,
    {
        Square { id }
    }

    /// This square as a board object.
    pub fn as_boardobject(&self) -> (o: BoardObject)
        ensures
            o == BoardObject::Square(*self),
    {
        BoardObject::Square(*self)
    }
}

} // verus!
