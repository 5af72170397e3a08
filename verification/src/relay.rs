//! The server relay: a pure per-message dispatcher.
//!
//! Position and wall reports are stamped with the sender's identity and
//! rebroadcast to every other peer — the server trusts the client and
//! validates nothing.  A `Ping` is answered to its sender alone with
//! `Pong`, the map count, and one map payload per known level.  A debug
//! message is only logged.  A disconnect event is broadcast to the
//! remaining peers so they drop the presence entry.

use crate::catalog::clone_grid;
use crate::catalog::Maps;
use crate::messages::ClientMessageReliable;
use crate::messages::ClientMessageUnreliable;
use crate::messages::ClientReliableV;
use crate::messages::ClientUnreliableV;
use crate::messages::ServerMessageReliable;
use crate::messages::ServerMessageUnreliable;
use crate::messages::ServerReliableV;
use crate::messages::ServerUnreliableV;
use crate::registry::lemma_except_membership;
use crate::registry::lemma_except_unique;
use crate::registry::peers_unique;
use crate::registry::spec_except;
use crate::registry::ConnectionRegistry;
use crate::registry::ServerEvent;
use vstd::prelude::*;

verus! {

/// The relayed form of a client's unreliable report: the same absolute
/// state, stamped with the sender's identity.
pub open spec fn spec_relay(sender: u64, m: ClientUnreliableV) -> ServerUnreliableV {
    match m {
        ClientUnreliableV::PlayerPosition { pos, level } => ServerUnreliableV::PlayerPosition {
            id: sender,
            position: pos,
            level,
        },
        ClientUnreliableV::WallPos { level, wall_id, pos } => ServerUnreliableV::WallPos {
            client_id: sender,
            wall_id,
            pos,
            level,
        },
    }
}

/// Stamps one report with its sender.
pub fn relay_message(sender: u64, m: &ClientMessageUnreliable) -> (r: ServerMessageUnreliable)
    ensures
        r@ == spec_relay(sender, m@),
{
    match m {
        ClientMessageUnreliable::PlayerPosition { pos, level } => {
            ServerMessageUnreliable::PlayerPosition { id: sender, position: *pos, level: *level }
        },
        ClientMessageUnreliable::WallPos { level, wall_id, pos } => {
            ServerMessageUnreliable::WallPos {
                client_id: sender,
                wall_id: *wall_id,
                pos: *pos,
                level: *level,
            }
        },
    }
}

/// One inbound unreliable report: the relayed message, addressed to
/// every connected peer except its sender, in registry order.
pub fn server_handle_unreliable(
    reg: &ConnectionRegistry,
    sender: u64,
    m: &ClientMessageUnreliable,
) -> (out: Vec<(u64, ServerMessageUnreliable)>)
    requires
        reg.wf(),
    ensures
        out@.len() == spec_except(reg@, sender).len(),
        forall|k: int|
            0 <= k < out@.len() ==> (#[trigger] out@[k]).0 == spec_except(reg@, sender)[k]
                && out@[k].1@ == spec_relay(sender, m@),
{
    let targets = reg.broadcast_except_targets(sender);
    let mut out: Vec<(u64, ServerMessageUnreliable)> = Vec::new();
    let n = targets.len();
    let mut k: usize = 0;
    while k < n
        invariant
            n == targets@.len(),
            targets@ == spec_except(reg@, sender),
            0 <= k <= n,
            out@.len() == k,
            forall|i: int|
                0 <= i < k ==> (#[trigger] out@[i]).0 == targets@[i] && out@[i].1@ == spec_relay(
                    sender,
                    m@,
                ),
        decreases n - k,
    {
        out.push((targets[k], relay_message(sender, m)));
        k += 1;
    }
    out
}

/// Law: the rebroadcast of a peer's report is addressed to every
/// connected peer except the sender, and to each exactly once.
pub proof fn lemma_broadcast_exclusion(peers: Seq<u64>, sender: u64)
    requires
        peers_unique(peers),
    ensures
        forall|p: u64|
            #[trigger] spec_except(peers, sender).contains(p) <==> (peers.contains(p) && p
                != sender),
        peers_unique(spec_except(peers, sender)),
{
    lemma_except_membership(peers, sender);
    lemma_except_unique(peers, sender);
}

/// One inbound reliable message: the unicast replies for its sender —
/// on `Ping`, a `Pong`, the map count, and one map payload per level —
/// and the text to log, on a debug message.
pub fn server_handle_reliable(m: ClientMessageReliable, maps: &Maps) -> (r: (
    Vec<ServerMessageReliable>,
    Vec<ServerMessageUnreliable>,
    Option<String>,
))
    requires
        maps.wf(),
        maps@.len() <= u16::MAX,
    ensures
        match m@ {
            ClientReliableV::Ping => {
                &&& r.0@.len() == 2
                &&& r.0@[0]@ == ServerReliableV::Pong
                &&& r.0@[1]@ == ServerReliableV::NumberOfMaps(maps@.len() as u16)
                &&& r.1@.len() == maps@.len()
                &&& forall|k: int|
                    0 <= k < maps@.len() ==> (#[trigger] r.1@[k])@
                        == (ServerUnreliableV::MapPayload {
                        map: maps@[k].grid,
                        number: maps@[k].number,
                    })
                &&& r.2 is None
            },
            ClientReliableV::DebugMessage(s) => {
                &&& r.0@.len() == 0
                &&& r.1@.len() == 0
                &&& r.2 matches Some(t) && t@ == s
            },
        },
{
    match m {
        ClientMessageReliable::Ping => {
            let mut reliable: Vec<ServerMessageReliable> = Vec::new();
            reliable.push(ServerMessageReliable::Pong);
            let count = maps.len();
            reliable.push(ServerMessageReliable::NumberOfMaps(count as u16));
            let mut unreliable: Vec<ServerMessageUnreliable> = Vec::new();
            let mut k: usize = 0;
            while k < count
                invariant
                    count == maps@.len(),
                    maps.wf(),
                    0 <= k <= count,
                    unreliable@.len() == k,
                    forall|i: int|
                        0 <= i < k ==> (#[trigger] unreliable@[i])@
                            == (ServerUnreliableV::MapPayload {
                            map: maps@[i].grid,
                            number: maps@[i].number,
                        }),
                decreases count - k,
            {
                let (number, grid) = maps.entry_at(k);
                unreliable.push(
                    ServerMessageUnreliable::MapPayload { map: clone_grid(grid), number },
                );
                k += 1;
            }
            (reliable, unreliable, None)
        },
        ClientMessageReliable::DebugMessage(s) => (Vec::new(), Vec::new(), Some(s)),
    }
}

/// One connection lifecycle event: updates the live set, and on a
/// disconnect addresses a `PlayerDisconnected` notice to every
/// remaining peer so they drop the presence entry.
pub fn server_handle_event(reg: &mut ConnectionRegistry, event: ServerEvent) -> (out: Vec<
    (u64, ServerMessageReliable),
>)
    requires
        old(reg).wf(),
    ensures
        final(reg).wf(),
        match event {
            ServerEvent::ClientConnected { id } => {
                &&& final(reg)@ == if old(reg)@.contains(id) {
                    old(reg)@
                } else {
                    old(reg)@.push(id)
                }
                &&& out@.len() == 0
            },
            ServerEvent::ClientDisconnected { id } => {
                &&& !final(reg)@.contains(id)
                &&& forall|p: u64|
                    p != id ==> final(reg)@.contains(p) == old(reg)@.contains(p)
                &&& out@.len() == final(reg)@.len()
                &&& forall|k: int|
                    0 <= k < out@.len() ==> (#[trigger] out@[k]).0 == final(reg)@[k] && out@[k].1@
                        == (ServerReliableV::PlayerDisconnected { id })
            },
        },
{
    match event {
        ServerEvent::ClientConnected { id } => {
            reg.connect(id);
            Vec::new()
        },
        ServerEvent::ClientDisconnected { id } => {
            reg.disconnect(id);
            let targets = reg.clients_id();
            let mut out: Vec<(u64, ServerMessageReliable)> = Vec::new();
            let n = targets.len();
            let mut k: usize = 0;
            while k < n
                invariant
                    n == targets@.len(),
                    targets@ == reg@,
                    0 <= k <= n,
                    out@.len() == k,
                    forall|i: int|
                        0 <= i < k ==> (#[trigger] out@[i]).0 == targets@[i] && out@[i].1@
                            == (ServerReliableV::PlayerDisconnected { id }),
                decreases n - k,
            {
                out.push((targets[k], ServerMessageReliable::PlayerDisconnected { id }));
                k += 1;
            }
            out
        },
    }
}

} // verus!
