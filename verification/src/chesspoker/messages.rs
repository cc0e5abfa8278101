use vstd::prelude::*;

verus! {

/// How a client asks to join a game.
#[allow(non_camel_case_types)]
#[derive(Clone, Copy, Debug, PartialEq, Eq, Structural)]
pub enum GameToConnectTo {
    joinpublicgame,
    /// Join the private game with this password.
    joinprivategame(u32),
    createprivategame,
}

/// The message a client gets once it is in a running game.
#[derive(Clone, Copy, Debug, PartialEq, Eq, Structural)]
pub struct ConnectedToGame {
    /// The client's player id in the game.
    playerid: u32,
}

impl ConnectedToGame {
    pub closed spec fn spec_playerid(self) -> u32 {
        self.playerid
    }

    pub fn new(playerid: u32) -> (c: ConnectedToGame)
        ensures
            c.spec_playerid() == playerid,
    {
        ConnectedToGame { playerid }
    }

    /// The client's player id in the game.
    pub fn playerid(&self) -> (id: u32)
        ensures
            id == self.spec_playerid(),
    {
        self.playerid
    }
}

} // verus!
