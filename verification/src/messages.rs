//! The wire schema: the four message families exchanged between client
//! and server.
//!
//! Each family is bound to one logical channel.  The unreliable channel
//! carries high-frequency full-state updates (positions, map payloads);
//! the reliable channel carries handshake and lifecycle control.  Every
//! update is an absolute state, never a delta, so reordered or dropped
//! datagrams only delay convergence.

use crate::geometry::Position2;
use crate::geometry::Position3;
use vstd::prelude::*;

verus! {

/// Sent by a client on the unreliable channel.
#[derive(Debug, Clone, PartialEq, Eq)]
pub enum ClientMessageUnreliable {
    /// The local player's absolute position and current level.
    PlayerPosition { pos: Position3, level: u8 },
    /// An absolute movable-wall position observed by this client.
    WallPos { level: u8, wall_id: i32, pos: Position2 },
}

/// Sent by a client on the reliable channel.
#[derive(Debug, Clone, PartialEq, Eq)]
pub enum ClientMessageReliable {
    /// Free-form diagnostic text; the server only logs it.
    DebugMessage(String),
    /// Opens the handshake; the server answers with `Pong`, the map
    /// count, and the map payloads.
    Ping,
}

/// Sent by the server on the unreliable channel.
#[derive(Debug, Clone, PartialEq, Eq)]
pub enum ServerMessageUnreliable {
    /// A relayed peer position, tagged with the sender's identity.
    PlayerPosition { id: u64, position: Position3, level: u8 },
    /// One level's geometry, keyed by its level number.
    MapPayload { map: Vec<Vec<u8>>, number: u8 },
    /// A relayed movable-wall position, tagged with the reporter.
    WallPos { client_id: u64, wall_id: i32, pos: Position2, level: u8 },
}

/// Sent by the server on the reliable channel.
#[derive(Debug, Clone, PartialEq, Eq)]
pub enum ServerMessageReliable {
    PlayerConnected { id: u64 },
    PlayerDisconnected { id: u64 },
    DebugMessage(String),
    /// How many maps the server will stream; the transfer is complete
    /// when that many distinct levels have arrived.
    NumberOfMaps(u16),
    /// Answer to `Ping`.
    Pong,
}

/// A datagram that does not parse as a message.  The datagram is
/// dropped and processing continues; this is never fatal to the
/// connection.
#[derive(Debug, Clone, Copy, PartialEq, Eq, Structural)]
pub struct DecodeError;

// --- specification-level values of the messages ---

/// Mathematical value of a `ClientMessageUnreliable`.
pub enum ClientUnreliableV {
    PlayerPosition { pos: Position3, level: u8 },
    WallPos { level: u8, wall_id: i32, pos: Position2 },
}

/// Mathematical value of a `ClientMessageReliable`.
pub enum ClientReliableV {
    DebugMessage(Seq<char>),
    Ping,
}

/// Mathematical value of a `ServerMessageUnreliable`.
pub enum ServerUnreliableV {
    PlayerPosition { id: u64, position: Position3, level: u8 },
    MapPayload { map: Seq<Seq<u8>>, number: u8 },
    WallPos { client_id: u64, wall_id: i32, pos: Position2, level: u8 },
}

/// Mathematical value of a `ServerMessageReliable`.
pub enum ServerReliableV {
    PlayerConnected { id: u64 },
    PlayerDisconnected { id: u64 },
    DebugMessage(Seq<char>),
    NumberOfMaps(u16),
    Pong,
}

impl View for ClientMessageUnreliable {
    type V = ClientUnreliableV;

    open spec fn view(&self) -> ClientUnreliableV {
        match *self {
            ClientMessageUnreliable::PlayerPosition { pos, level } => {
                ClientUnreliableV::PlayerPosition { pos, level }
            },
            ClientMessageUnreliable::WallPos { level, wall_id, pos } => {
                ClientUnreliableV::WallPos { level, wall_id, pos }
            },
        }
    }
}

impl View for ClientMessageReliable {
    type V = ClientReliableV;

    open spec fn view(&self) -> ClientReliableV {
        match *self {
            ClientMessageReliable::DebugMessage(ref s) => ClientReliableV::DebugMessage(s@),
            ClientMessageReliable::Ping => ClientReliableV::Ping,
        }
    }
}

impl View for ServerMessageUnreliable {
    type V = ServerUnreliableV;

    open spec fn view(&self) -> ServerUnreliableV {
        match *self {
            ServerMessageUnreliable::PlayerPosition { id, position, level } => {
                ServerUnreliableV::PlayerPosition { id, position, level }
            },
            ServerMessageUnreliable::MapPayload { ref map, number } => {
                ServerUnreliableV::MapPayload { map: map.deep_view(), number }
            },
            ServerMessageUnreliable::WallPos { client_id, wall_id, pos, level } => {
                ServerUnreliableV::WallPos { client_id, wall_id, pos, level }
            },
        }
    }
}

impl View for ServerMessageReliable {
    type V = ServerReliableV;

    open spec fn view(&self) -> ServerReliableV {
        match *self {
            ServerMessageReliable::PlayerConnected { id } => ServerReliableV::PlayerConnected {
                id,
            },
            ServerMessageReliable::PlayerDisconnected { id } => {
                ServerReliableV::PlayerDisconnected { id }
            },
            ServerMessageReliable::DebugMessage(ref s) => ServerReliableV::DebugMessage(s@),
            ServerMessageReliable::NumberOfMaps(n) => ServerReliableV::NumberOfMaps(n),
            ServerMessageReliable::Pong => ServerReliableV::Pong,
        }
    }
}

} // verus!
