use vstd::prelude::*;
use crate::board::squarecondition::SquareCondition;

verus! {

/// What a square of the board holds, as far as the conditions of a move go:
/// whether it is on a mission (moving), and the owner of each piece on it.
pub struct SquareState {
    pub onmission: bool,
    pub owners: Vec<u8>,
}

/// Whether a square meets a condition. A square that does not exist, or is on
/// a mission, meets none; otherwise empty means no pieces, and the player
/// conditions ask for a piece of that player, or for none.
pub open spec fn condition_holds(square: Option<SquareState>, condition: SquareCondition) -> bool {
    match square {
        None => false,
        Some(s) => !s.onmission && match condition {
            SquareCondition::NeedsEmpty => s.owners@.len() == 0,
            SquareCondition::NeedsNoPlayerPiece(p) => !s.owners@.contains(p),
            SquareCondition::NeedsPlayerPiece(p) => s.owners@.contains(p),
            SquareCondition::NeedsNothing => true,
        },
    }
}

/// Whether the owners include this player.
fn owners_contain(owners: &Vec<u8>, playerid: u8) -> (b: bool)
    ensures
        b == owners@.contains(playerid),
{
    let mut i: usize = 0;
    while i < owners.len()
        invariant
            i <= owners.len(),
            forall|j: int| 0 <= j < i ==> owners@[j] != playerid,
        decreases owners.len() - i,
    {
        if owners[i] == playerid {
            assert(owners@[i as int] == playerid);
            return true;
        }
        i = i + 1;
    }
    false
}

/// Whether every square meets its condition (see `condition_holds`).
pub fn are_conditions_met(conditions: &Vec<(Option<SquareState>, SquareCondition)>) -> (b: bool)
    ensures
        b == forall|i: int| 0 <= i < conditions@.len() ==> condition_holds(#[trigger] conditions@[i].0, conditions@[i].1),
{
    let mut i: usize = 0;
    while i < conditions.len()
        invariant
            i <= conditions.len(),
            forall|j: int| 0 <= j < i ==> condition_holds(#[trigger] conditions@[j].0, conditions@[j].1),
        decreases conditions.len() - i,
    {
        let (square, condition) = &conditions[i];
        let met = match square {
            None => false,
            Some(s) => {
                if s.onmission {
                    false
                } else {
                    match condition {
                        SquareCondition::NeedsEmpty => s.owners.len() == 0,
                        SquareCondition::NeedsNoPlayerPiece(playerid) => !owners_contain(&s.owners, *playerid),
                        SquareCondition::NeedsPlayerPiece(playerid) => owners_contain(&s.owners, *playerid),
                        SquareCondition::NeedsNothing => true,
                    }
                }
            },
        };
        if !met {
            assert(!condition_holds(conditions@[i as int].0, conditions@[i as int].1));
            return false;
        }
        i = i + 1;
    }
    true
}

} // verus!
