pub mod relativesquare;
pub mod squarecondition;
pub mod typeofmovement;
