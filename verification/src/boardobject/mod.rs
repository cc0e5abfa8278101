pub mod piece;
pub mod square;

use vstd::prelude::*;
use crate::boardobject::piece::Piece;
use crate::boardobject::square::Square;

verus! {

/// An object on the board: a piece or a square, each with its id.
#[derive(Clone, Copy, Debug, PartialEq, Eq, Hash, Structural)]
pub enum BoardObject {
    Piece(Piece),
    Square(Square),
}

impl BoardObject {
    /// The piece, if this is one.
    pub fn as_piece(&self) -> (r: Option<Piece>)
        ensures
            r == match *self {
                BoardObject::Piece(p) => Some(p),
                BoardObject::Square(_) => None::<Piece>,
            },
    {
        if let BoardObject::Piece(piece) = self {
            return Some(*piece);
        }
        None
    }

    /// The square, if this is one.
    pub fn as_square(&self) -> (r: Option<Square>)
        ensures
            r == match *self {
                BoardObject::Square(s) => Some(s),
                BoardObject::Piece(_) => None::<Square>,
            },
    {
        if let BoardObject::Square(square) = self {
            return Some(*square);
        }
        None
    }

    /// The id of the piece or square.
    pub fn id(&self) -> (id: u16)
        ensures
            id == match *self {
                BoardObject::Piece(p) => p.id,
                BoardObject::Square(s) => s.id,
            },
    {
        match self {
            BoardObject::Piece(piece) => piece.id,
            BoardObject::Square(square) => square.id,
        }
    }
}

} // verus!
