//! Client-server state synchronization for a cooperative multiplayer
//! platformer.
//!
//! The library models the authoritative-relay protocol that keeps the
//! transient world state of several game clients loosely synchronized:
//! a binary message codec, the client handshake and presence-merging
//! state machine, the server-side connection registry and relay policy,
//! chunked map transfer, and the client port-selection policy.
//!
//! All network and file I/O lives outside this crate; the functions here
//! take messages and events as plain values and return the resulting
//! state and the messages that must be sent.

use vstd::prelude::*;

pub mod blocks;
pub mod catalog;
pub mod client_sync;
pub mod codec;
pub mod framing;
pub mod geometry;
pub mod messages;
pub mod netaddr;
pub mod presence;
pub mod registry;
pub mod relay;
pub mod role;
pub mod wire;

verus! {

/// Protocol identifier; client and server must agree on it or the
/// transport rejects the handshake.
pub const PROTOCOL_ID: u64 = 6;

/// The well-known port the server listens on.
pub const SERVER_PORT: u16 = 42069;

/// Base local port for client sockets; a bounded range above it is
/// probed so several instances can share one machine.
pub const CLIENT_PORT: u16 = 5001;

/// The level the local player is currently on.
pub struct CurrentLevel {
    pub level_number: u8,
}

} // verus!
