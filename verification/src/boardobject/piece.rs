use vstd::prelude::*;
use crate::boardobject::BoardObject;

verus! {

/// A piece, known by its id.
#[derive(Clone, Copy, Debug, PartialEq, Eq, Hash, Structural)]
pub struct Piece {
    pub id: u16,
}

impl Piece {
    pub fn new(id: u16) -> (p: Piece)
        ensures
            p.id == id,
    {
        Piece { id }
    }

    /// This piece as a board object.
    pub fn as_boardobject(&self) -> (o: BoardObject)
        ensures
            o == BoardObject::Piece(*self),
    {
        BoardObject::Piece(*self)
    }
}

} // verus!
