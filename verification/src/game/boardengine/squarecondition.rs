use vstd::prelude::*;

verus! {

/// What a square must hold for an action to be allowed.
#[derive(Clone, Copy, Debug, PartialEq, Eq, Hash, Structural)]
pub enum SquareCondition {
    OpponentRequired,
    NoneFriendlyRequired,
    EmptyRequired,
}

} // verus!
