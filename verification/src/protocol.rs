//! The versioned messages exchanged between multiplayer clients and the
//! server.
use vstd::prelude::*;

verus! {

pub const PROTOCOL_VERSION: u16 = 1;

pub const MAX_GAME_ID_LEN: usize = 12;

pub const MAX_MOVE_LEN: usize = 8;

/// A player's color on the wire.
#[derive(Clone, Copy, Debug, PartialEq, Eq, Hash, Structural)]
pub enum Side {
    White,
    Black,
}

impl Side {
    pub open spec fn other(self) -> Side {
        match self {
            Side::White => Side::Black,
            Side::Black => Side::White,
        }
    }

    pub fn opposite(self) -> (r: Self)
        ensures
            r == self.other(),
    {
        match self {
            Side::White => Side::Black,
            Side::Black => Side::White,
        }
    }
}

/// The opposite of the opposite side is the side itself, and no side is its
/// own opposite.
pub proof fn lemma_side_opposite_involution(side: Side)
    ensures
        side.other().other() == side,
        side.other() != side,
{
}

/// The color a player asks for when creating a game.
#[derive(Clone, Copy, Debug, PartialEq, Eq, Structural)]
pub enum SidePreference {
    Random,
    White,
    Black,
}

/// The variants that can be played online.
#[derive(Clone, Copy, Debug, PartialEq, Eq, Hash, Structural)]
pub enum Variant {
    Capablanca,
    Gothic,
    Embassy,
    Schoolbook,
    Bird,
    Carrera,
    Grand,
}

/// A message from a client.
#[derive(Clone, Debug, PartialEq, Eq)]
pub enum ClientMessage {
    CreateGame { protocol: u16, variant: Variant, side: SidePreference },
    JoinGame { protocol: u16, game_id: String, player_token: Option<String> },
    PlayMove { revision: u64, uci: String },
    Resync { revision: u64 },
}

/// Why the server sends the whole history.
#[derive(Clone, Copy, Debug, PartialEq, Eq, Structural)]
pub enum SyncReason {
    Requested,
    RevisionMismatch,
}

/// A message from the server.
#[derive(Clone, Debug, PartialEq, Eq)]
pub enum ServerMessage {
    GameReady {
        created: bool,
        game_id: String,
        player_token: String,
        side: Side,
        variant: Variant,
        revision: u64,
        history: Vec<String>,
        opponent_connected: bool,
    },
    MoveAccepted { revision: u64, uci: String },
    OpponentConnection { connected: bool },
    Sync { revision: u64, history: Vec<String>, reason: SyncReason },
    Error { code: String, message: String },
}

} // verus!
