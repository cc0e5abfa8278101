pub mod cardstructs;
pub mod datastructs;
pub mod maingame;
pub mod messages;
pub mod gameengine;
