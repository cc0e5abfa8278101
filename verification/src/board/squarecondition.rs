use vstd::prelude::*;

verus! {

/// What a square must hold for an action to be allowed.
#[derive(Clone, Copy, Debug, PartialEq, Eq, Hash, Structural)]
pub enum SquareCondition {
    /// A piece of this player.
    NeedsPlayerPiece(u8),
    /// No piece of this player.
    NeedsNoPlayerPiece(u8),
    NeedsEmpty,
    /// Only that the square exists.
    NeedsNothing,
}

} // verus!
