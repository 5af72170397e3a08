//! The client sync state machine: the handshake to gameplay readiness,
//! then the steady-state merge of authoritative updates.
//!
//! Phases: `Connecting` (socket bound, session created) moves at once
//! to `Pinging`, which sends `Ping` and waits for `Pong`; `AwaitingMaps`
//! accumulates map payloads until the distinct-level count equals the
//! announced total — the check runs after every relevant message, since
//! the count and the payloads may arrive in any order; `Ready` is
//! gameplay; `Disconnected` is terminal, and every further inbound
//! message is ignored.  Timeouts are cooperative: the caller advances
//! the clock each tick and a missed deadline severs the session.

use crate::catalog::has_num;
use crate::catalog::idx_of_num;
use crate::catalog::lemma_get_push;
use crate::catalog::lemma_get_update;
use crate::catalog::nums_unique;
use crate::catalog::spec_get;
use crate::catalog::spec_insert;
use crate::catalog::MapRecord;
use crate::catalog::Maps;
use crate::blocks::keys_unique;
use crate::blocks::spec_apply_wall;
use crate::blocks::spec_find_block;
use crate::blocks::BlockEntry;
use crate::blocks::BlockMap;
use crate::geometry::Position2;
use crate::geometry::Position3;
use crate::messages::ClientMessageReliable;
use crate::messages::ClientMessageUnreliable;
use crate::messages::ClientReliableV;
use crate::messages::ClientUnreliableV;
use crate::messages::ServerMessageReliable;
use crate::messages::ServerMessageUnreliable;
use crate::messages::ServerReliableV;
use crate::messages::ServerUnreliableV;
use crate::presence::ids_unique;
use crate::presence::spec_apply_position;
use crate::presence::spec_find;
use crate::presence::spec_remove_id;
use crate::presence::spec_sync_state;
use crate::presence::spec_visibility_ops;
use crate::presence::PeerEntry;
use crate::presence::PresenceOp;
use crate::presence::UserIdMap;
use vstd::prelude::*;

verus! {

/// How long the client waits for `Pong`, in milliseconds.
pub const TIMEOUT_DURATION: u64 = 5000;

/// Extra time granted for the map transfer, whose volume scales with
/// the level count.
pub const MAP_TRANSFER_EXTRA: u64 = 20000;

/// Where the handshake stands.
#[derive(Clone, Copy, Debug, PartialEq, Eq, Structural)]
pub enum SyncPhase {
    Connecting,
    Pinging,
    AwaitingMaps,
    Ready,
    Disconnected,
}

/// Mathematical value of the whole client-side sync state.
pub struct SyncView {
    pub phase: SyncPhase,
    pub elapsed_ms: u64,
    pub total: Option<u16>,
    pub maps: Seq<MapRecord>,
    pub peers: Seq<PeerEntry>,
    pub blocks: Seq<BlockEntry>,
}

/// The well-formedness of a sync state: each of its maps is uniquely
/// keyed — levels in the catalog, identities in the presence map, wall
/// keys in the shared-object map.
pub open spec fn sync_wf(s: SyncView) -> bool {
    &&& nums_unique(s.maps)
    &&& ids_unique(s.peers)
    &&& keys_unique(s.blocks)
}

// --- one step of the machine, as a mathematical function ---

/// The transfer-completion check, run after every relevant message:
/// once the distinct-level count equals the announced total, gameplay
/// may start.
pub open spec fn spec_check_ready(s: SyncView) -> SyncView {
    match s.total {
        Some(t) => if s.phase == SyncPhase::AwaitingMaps && s.maps.len() == t as int {
            SyncView { phase: SyncPhase::Ready, ..s }
        } else {
            s
        },
        None => s,
    }
}

/// One inbound reliable message.
pub open spec fn spec_step_reliable(s: SyncView, m: ServerReliableV) -> SyncView {
    if s.phase == SyncPhase::Disconnected {
        s
    } else {
        match m {
            ServerReliableV::Pong => if s.phase == SyncPhase::Pinging {
                spec_check_ready(SyncView { phase: SyncPhase::AwaitingMaps, ..s })
            } else {
                s
            },
            ServerReliableV::NumberOfMaps(t) => if s.phase == SyncPhase::AwaitingMaps {
                spec_check_ready(SyncView { total: Some(t), ..s })
            } else {
                s
            },
            ServerReliableV::PlayerDisconnected { id } => {
                SyncView { peers: spec_remove_id(s.peers, id), ..s }
            },
            ServerReliableV::PlayerConnected { id: _ } => s,
            ServerReliableV::DebugMessage(_) => s,
        }
    }
}

/// One inbound unreliable message.
pub open spec fn spec_step_unreliable(s: SyncView, m: ServerUnreliableV) -> SyncView {
    if s.phase == SyncPhase::Disconnected {
        s
    } else {
        match m {
            ServerUnreliableV::MapPayload { map, number } => if s.phase
                == SyncPhase::AwaitingMaps {
                spec_check_ready(SyncView { maps: spec_insert(s.maps, number, map), ..s })
            } else {
                s
            },
            ServerUnreliableV::PlayerPosition { id, position, level } => if s.phase
                == SyncPhase::Ready {
                SyncView { peers: spec_apply_position(s.peers, id, position, level), ..s }
            } else {
                s
            },
            ServerUnreliableV::WallPos { client_id, wall_id, pos, level } => if s.phase
                == SyncPhase::Ready {
                SyncView { blocks: spec_apply_wall(s.blocks, level, client_id, wall_id, pos), ..s }
            } else {
                s
            },
        }
    }
}

/// One advance of the cooperative clock: a missed deadline severs the
/// session.
pub open spec fn spec_step_tick(s: SyncView, dt: u64) -> SyncView {
    if s.phase == SyncPhase::Pinging || s.phase == SyncPhase::AwaitingMaps {
        let e: u64 = if s.elapsed_ms + dt <= u64::MAX {
            (s.elapsed_ms + dt) as u64
        } else {
            u64::MAX
        };
        let limit: u64 = if s.phase == SyncPhase::Pinging {
            TIMEOUT_DURATION
        } else {
            (TIMEOUT_DURATION + MAP_TRANSFER_EXTRA) as u64
        };
        if e >= limit {
            SyncView { phase: SyncPhase::Disconnected, elapsed_ms: e, ..s }
        } else {
            SyncView { elapsed_ms: e, ..s }
        }
    } else {
        s
    }
}

/// A user abort mid-handshake: terminal, like a timeout.
pub open spec fn spec_cancel(s: SyncView) -> SyncView {
    SyncView { phase: SyncPhase::Disconnected, ..s }
}

/// The client-side sync state.
pub struct ClientSync {
    phase: SyncPhase,
    elapsed_ms: u64,
    total: Option<u16>,
    maps: Maps,
    peers: UserIdMap,
    blocks: BlockMap,
}

impl View for ClientSync {
    type V = SyncView;

    closed spec fn view(&self) -> SyncView {
        SyncView {
            phase: self.phase,
            elapsed_ms: self.elapsed_ms,
            total: self.total,
            maps: self.maps@,
            peers: self.peers@,
            blocks: self.blocks@,
        }
    }
}

impl ClientSync {
    pub open spec fn wf(&self) -> bool {
        sync_wf(self@)
    }

    /// A fresh session: socket bound, identity assigned, nothing
    /// received yet.
    pub fn new() -> (r: ClientSync)
        ensures
            r.wf(),
            r@.phase == SyncPhase::Connecting,
            r@.elapsed_ms == 0,
            r@.total is None,
            r@.maps.len() == 0,
            r@.peers.len() == 0,
            r@.blocks.len() == 0,
    {
        ClientSync {
            phase: SyncPhase::Connecting,
            elapsed_ms: 0,
            total: None,
            maps: Maps::new(),
            peers: UserIdMap::new(),
            blocks: BlockMap::new(),
        }
    }

    /// Opens the handshake: moves to `Pinging` and yields the `Ping`
    /// to send on the reliable channel.
    pub fn begin_ping(&mut self) -> (m: ClientMessageReliable)
        requires
            old(self).wf(),
            old(self)@.phase == SyncPhase::Connecting,
        ensures
            final(self).wf(),
            final(self)@ == (SyncView { phase: SyncPhase::Pinging, ..old(self)@ }),
            m@ == ClientReliableV::Ping,
    {
        self.phase = SyncPhase::Pinging;
        ClientMessageReliable::Ping
    }

    fn check_ready(&mut self)
        requires
            old(self).wf(),
        ensures
            final(self).wf(),
            final(self)@ == spec_check_ready(old(self)@),
    {
        if self.phase == SyncPhase::AwaitingMaps {
            match self.total {
                Some(t) => {
                    if self.maps.len() == t as usize {
                        self.phase = SyncPhase::Ready;
                    }
                },
                None => {},
            }
        }
    }

    /// Merges one reliable message; returns the text of a debug
    /// message, for the caller to log.
    pub fn handle_reliable(&mut self, m: ServerMessageReliable) -> (log: Option<String>)
        requires
            old(self).wf(),
        ensures
            final(self).wf(),
            final(self)@ == spec_step_reliable(old(self)@, m@),
            match m@ {
                ServerReliableV::DebugMessage(sv) => old(self)@.phase == SyncPhase::Disconnected
                    || (log matches Some(t) && t@ == sv),
                _ => log is None,
            },
    {
        if matches!(self.phase, SyncPhase::Disconnected) {
            return None;
        }
        match m {
            ServerMessageReliable::Pong => {
                if matches!(self.phase, SyncPhase::Pinging) {
                    self.phase = SyncPhase::AwaitingMaps;
                    self.check_ready();
                }
                None
            },
            ServerMessageReliable::NumberOfMaps(t) => {
                if matches!(self.phase, SyncPhase::AwaitingMaps) {
                    self.total = Some(t);
                    self.check_ready();
                }
                None
            },
            ServerMessageReliable::PlayerDisconnected { id } => {
                self.peers.remove_peer(id);
                None
            },
            ServerMessageReliable::PlayerConnected { id: _ } => None,
            ServerMessageReliable::DebugMessage(s) => Some(s),
        }
    }

    /// Merges one unreliable message: map payloads while awaiting the
    /// transfer, position and wall reports during gameplay; everything
    /// out of phase is dropped.
    pub fn handle_unreliable(&mut self, m: ServerMessageUnreliable)
        requires
            old(self).wf(),
        ensures
            final(self).wf(),
            final(self)@ == spec_step_unreliable(old(self)@, m@),
    {
        if matches!(self.phase, SyncPhase::Disconnected) {
            return ;
        }
        match m {
            ServerMessageUnreliable::MapPayload { map, number } => {
                if matches!(self.phase, SyncPhase::AwaitingMaps) {
                    self.maps.insert(number, map);
                    self.check_ready();
                }
            },
            ServerMessageUnreliable::PlayerPosition { id, position, level } => {
                if matches!(self.phase, SyncPhase::Ready) {
                    self.peers.apply_position(id, position, level);
                }
            },
            ServerMessageUnreliable::WallPos { client_id, wall_id, pos, level } => {
                if matches!(self.phase, SyncPhase::Ready) {
                    self.blocks.apply_wall_update(level, client_id, wall_id, pos);
                }
            },
        }
    }

    /// Advances the cooperative clock; true exactly when this tick hit
    /// the deadline and severed the session.
    pub fn tick(&mut self, dt_ms: u64) -> (timed_out: bool)
        requires
            old(self).wf(),
        ensures
            final(self).wf(),
            final(self)@ == spec_step_tick(old(self)@, dt_ms),
            timed_out == (old(self)@.phase != SyncPhase::Disconnected && final(self)@.phase
                == SyncPhase::Disconnected),
    {
        if matches!(self.phase, SyncPhase::Pinging | SyncPhase::AwaitingMaps) {
            let e: u64 = if dt_ms <= u64::MAX - self.elapsed_ms {
                self.elapsed_ms + dt_ms
            } else {
                u64::MAX
            };
            self.elapsed_ms = e;
            let limit: u64 = if matches!(self.phase, SyncPhase::Pinging) {
                TIMEOUT_DURATION
            } else {
                TIMEOUT_DURATION + MAP_TRANSFER_EXTRA
            };
            if e >= limit {
                self.phase = SyncPhase::Disconnected;
                true
            } else {
                false
            }
        } else {
            false
        }
    }

    /// A user abort: releases this session for good.
    pub fn cancel(&mut self)
        requires
            old(self).wf(),
        ensures
            final(self).wf(),
            final(self)@ == spec_cancel(old(self)@),
    {
        self.phase = SyncPhase::Disconnected;
    }

    pub fn phase(&self) -> (r: SyncPhase)
        ensures
            r == self@.phase,
    {
        self.phase
    }

    pub fn announced_total(&self) -> (r: Option<u16>)
        ensures
            r == self@.total,
    {
        self.total
    }

    /// How many distinct levels have arrived.
    pub fn maps_len(&self) -> (r: usize)
        ensures
            r == self@.maps.len(),
    {
        self.maps.len()
    }

    /// The stored geometry of a level.
    pub fn map_for_level(&self, number: u8) -> (r: Option<&Vec<Vec<u8>>>)
        requires
            self.wf(),
        ensures
            match r {
                Some(g) => spec_get(self@.maps, number) == Some(g.deep_view()),
                None => spec_get(self@.maps, number) is None,
            },
    {
        self.maps.get(number)
    }

    /// The last-known state of a peer.
    pub fn peer(&self, id: u64) -> (r: Option<PeerEntry>)
        requires
            self.wf(),
        ensures
            r == spec_find(self@.peers, id),
    {
        self.peers.get(id)
    }

    /// The tracked entry of one movable wall.
    pub fn wall(&self, level: u8, owner: u64, wall_id: i32) -> (r: Option<BlockEntry>)
        requires
            self.wf(),
        ensures
            r == spec_find_block(self@.blocks, level, owner, wall_id),
    {
        self.blocks.get(level, owner, wall_id)
    }

    /// One visibility sweep over the presence map; see the presence
    /// module.
    pub fn sync_visibility(&mut self, local_level: u8) -> (ops: Vec<PresenceOp>)
        requires
            old(self).wf(),
        ensures
            final(self).wf(),
            final(self)@ == (SyncView {
                peers: spec_sync_state(old(self)@.peers, local_level),
                ..old(self)@
            }),
            ops@ == spec_visibility_ops(old(self)@.peers, local_level),
    {
        self.peers.sync_visibility(local_level)
    }

    /// One wall-reconciliation pass; see the shared-object module.
    pub fn sync_walls(&self, level: u8, spawned: &Vec<(u64, i32)>) -> (r: (
        Vec<BlockEntry>,
        Vec<BlockEntry>,
    ))
        requires
            self.wf(),
        ensures
            r.0@ == crate::blocks::spec_wall_updates(self@.blocks, level, spawned@),
            r.1@ == crate::blocks::spec_wall_spawns(self@.blocks, level, spawned@),
    {
        self.blocks.sync_walls(level, spawned)
    }
}

/// The per-tick report of the local player's state, sent on the
/// unreliable channel as a full-state overwrite.
pub fn position_message(pos: Position3, level: u8) -> (m: ClientMessageUnreliable)
    ensures
        m@ == (ClientUnreliableV::PlayerPosition { pos, level }),
{
    ClientMessageUnreliable::PlayerPosition { pos, level }
}

/// The per-tick report of one movable wall's position.
pub fn wall_report_message(level: u8, wall_id: i32, pos: Position2) -> (m: ClientMessageUnreliable)
    ensures
        m@ == (ClientUnreliableV::WallPos { level, wall_id, pos }),
{
    ClientMessageUnreliable::WallPos { level, wall_id, pos }
}


// --- laws of the map transfer ---

/// Every event in the sequence is a map payload.
pub open spec fn all_map_payloads(ms: Seq<ServerUnreliableV>) -> bool {
    forall|k: int| 0 <= k < ms.len() ==> (#[trigger] ms[k]) is MapPayload
}

/// The state after a sequence of unreliable messages, in order.
pub open spec fn spec_run_unreliable(s: SyncView, ms: Seq<ServerUnreliableV>) -> SyncView
    decreases ms.len(),
{
    if ms.len() == 0 {
        s
    } else {
        spec_run_unreliable(spec_step_unreliable(s, ms[0]), ms.drop_first())
    }
}

/// Law: once gameplay-ready, the client stays gameplay-ready — no
/// inbound message and no tick moves it out of `Ready`, so the
/// transition to `Ready` happens at most once in a session.
pub proof fn lemma_ready_absorbing(s: SyncView, rm: ServerReliableV, um: ServerUnreliableV, dt: u64)
    requires
        s.phase == SyncPhase::Ready,
    ensures
        spec_step_reliable(s, rm).phase == SyncPhase::Ready,
        spec_step_unreliable(s, um).phase == SyncPhase::Ready,
        spec_step_tick(s, dt).phase == SyncPhase::Ready,
{
}

/// While the transfer runs with the total announced, the client is in
/// `AwaitingMaps` with fewer distinct levels than announced; once it is
/// `Ready`, it holds exactly the announced number.
pub open spec fn transfer_inv(s: SyncView, n: u16) -> bool {
    &&& s.total == Some(n)
    &&& nums_unique(s.maps)
    &&& (s.phase == SyncPhase::AwaitingMaps && s.maps.len() < n) || (s.phase == SyncPhase::Ready
        && s.maps.len() == n)
}

/// One payload keeps the transfer invariant: a duplicate level leaves
/// the count alone, a fresh one raises it by one, and the client
/// becomes `Ready` exactly when the count reaches the announced total.
pub proof fn lemma_completion_step(s: SyncView, map: Seq<Seq<u8>>, number: u8, n: u16)
    requires
        transfer_inv(s, n),
    ensures
        ({
            let s2 = spec_step_unreliable(s, ServerUnreliableV::MapPayload { map, number });
            &&& transfer_inv(s2, n)
            &&& (s2.phase == SyncPhase::Ready <==> s2.maps.len() == n)
            &&& (s.phase == SyncPhase::AwaitingMaps ==> s2.maps.len() == s.maps.len() + (
            if has_num(s.maps, number) {
                0int
            } else {
                1int
            }))
        }),
{
    let s2 = spec_step_unreliable(s, ServerUnreliableV::MapPayload { map, number });
    if s.phase == SyncPhase::AwaitingMaps {
        let m2 = spec_insert(s.maps, number, map);
        if has_num(s.maps, number) {
            let i = idx_of_num(s.maps, number);
            assert(s.maps[i].number == number);
            lemma_get_update(s.maps, i, MapRecord { number, grid: map });
        } else {
            lemma_get_push(s.maps, MapRecord { number, grid: map });
        }
    }
}

/// Law: map transfer completeness.  With the total `n` announced,
/// after any sequence of map payloads — any order, any duplicates —
/// the client is `Ready` exactly when `n` distinct levels have
/// arrived; duplicates are deduplicated by level number before the
/// count comparison, and the transfer invariant holds at every prefix,
/// so the transition happens exactly at the `n`-th distinct level and
/// never again.
pub proof fn lemma_map_transfer_completeness(s: SyncView, ms: Seq<ServerUnreliableV>, n: u16)
    requires
        transfer_inv(s, n),
        all_map_payloads(ms),
    ensures
        transfer_inv(spec_run_unreliable(s, ms), n),
        spec_run_unreliable(s, ms).phase == SyncPhase::Ready <==> spec_run_unreliable(
            s,
            ms,
        ).maps.len() == n,
    decreases ms.len(),
{
    if ms.len() == 0 {
    } else {
        assert(ms[0] is MapPayload);
        let s2 = spec_step_unreliable(s, ms[0]);
        match ms[0] {
            ServerUnreliableV::MapPayload { map, number } => {
                lemma_completion_step(s, map, number, n);
            },
            _ => {
                assert(false);
            },
        }
        assert(all_map_payloads(ms.drop_first())) by {
            assert forall|k: int| 0 <= k < ms.drop_first().len() implies (#[trigger] ms.drop_first()[k]) is MapPayload by {
                assert(ms[k + 1] is MapPayload);
            }
        }
        lemma_map_transfer_completeness(s2, ms.drop_first(), n);
    }
}

/// Law: with the total still unknown, payloads accumulate without any
/// transition, and the later `NumberOfMaps` completes the transfer
/// exactly when the distinct-level count already equals it — the
/// arrival order of the count and the payloads does not matter.
pub proof fn lemma_count_after_payloads(s: SyncView, ms: Seq<ServerUnreliableV>, n: u16)
    requires
        s.phase == SyncPhase::AwaitingMaps,
        s.total is None,
        nums_unique(s.maps),
        all_map_payloads(ms),
    ensures
        ({
            let sk = spec_run_unreliable(s, ms);
            &&& sk.phase == SyncPhase::AwaitingMaps
            &&& sk.total is None
            &&& nums_unique(sk.maps)
            &&& (spec_step_reliable(sk, ServerReliableV::NumberOfMaps(n)).phase
                == SyncPhase::Ready <==> sk.maps.len() == n)
        }),
    decreases ms.len(),
{
    if ms.len() == 0 {
    } else {
        assert(ms[0] is MapPayload);
        let s2 = spec_step_unreliable(s, ms[0]);
        match ms[0] {
            ServerUnreliableV::MapPayload { map, number } => {
                if has_num(s.maps, number) {
                    let i = idx_of_num(s.maps, number);
                    assert(s.maps[i].number == number);
                    lemma_get_update(s.maps, i, MapRecord { number, grid: map });
                } else {
                    lemma_get_push(s.maps, MapRecord { number, grid: map });
                }
            },
            _ => {
                assert(false);
            },
        }
        assert(all_map_payloads(ms.drop_first())) by {
            assert forall|k: int| 0 <= k < ms.drop_first().len() implies (#[trigger] ms.drop_first()[k]) is MapPayload by {
                assert(ms[k + 1] is MapPayload);
            }
        }
        lemma_count_after_payloads(s2, ms.drop_first(), n);
    }
}

} // verus!
