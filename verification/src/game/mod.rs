pub mod boardengine;
pub mod cards;
pub mod gameeffect;
pub mod turnmanager;
