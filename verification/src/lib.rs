pub mod board;
pub mod chesspoker;
pub mod handrank;
pub mod rng;
pub mod turnqueue;
pub mod text;
pub mod datastructs;
pub mod cardstructs;
pub mod game;
pub mod boardobject;
pub mod matchmaker;
pub mod mapfacts;
