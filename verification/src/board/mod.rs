pub mod conditions;
pub mod fullaction;
pub mod piecedata;
pub mod piecetype;
pub mod relativesquare;
pub mod squareorder;
pub mod squarecondition;
