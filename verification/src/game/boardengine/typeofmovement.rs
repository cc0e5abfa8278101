use vstd::prelude::*;

verus! {

/// How a piece moves to its destination: along the board or through the air.
#[derive(Clone, Copy, Debug, PartialEq, Eq, Structural)]
pub enum TypeOfMovement {
    Slide,
    Lift,
}

} // verus!
