//! Client-side peer presence: the last-known position, level and
//! spawn status of every remote peer, keyed by session identity.
//!
//! The merge policy is update-in-place: a position report for a known
//! peer overwrites its position and level and keeps its spawn status; a
//! report for an unknown peer inserts it unspawned.  Entries are kept
//! when a peer leaves the local level — only the visual representation
//! is despawned — and are dropped only on an explicit disconnect
//! notification, so a peer returning to the same level needs no new
//! handshake.

use crate::geometry::Position3;
use vstd::prelude::*;

verus! {

/// One remote peer's last-known state.
#[derive(Clone, Copy, Debug, PartialEq, Eq, Structural)]
pub struct PeerEntry {
    pub id: u64,
    pub pos: Position3,
    pub level: u8,
    pub spawned: bool,
}

/// An instruction to the rendering layer, emitted by a visibility
/// sweep.
#[derive(Clone, Copy, Debug, PartialEq, Eq, Structural)]
pub enum PresenceOp {
    /// Instantiate a visual representation at the given position.
    Spawn { id: u64, pos: Position3 },
    /// Tear the visual representation down; the entry stays.
    Despawn { id: u64 },
    /// Move the existing representation to the given position.
    Reposition { id: u64, pos: Position3 },
}

/// The presence map: one entry per known peer.
pub struct UserIdMap {
    entries: Vec<PeerEntry>,
}

impl View for UserIdMap {
    type V = Seq<PeerEntry>;

    closed spec fn view(&self) -> Seq<PeerEntry> {
        self.entries@
    }
}

/// No two entries share a session identity.
pub open spec fn ids_unique(s: Seq<PeerEntry>) -> bool {
    forall|i: int, j: int| 0 <= i < j < s.len() ==> s[i].id != s[j].id
}

pub open spec fn has_id(s: Seq<PeerEntry>, id: u64) -> bool {
    exists|i: int| 0 <= i < s.len() && s[i].id == id
}

pub open spec fn idx_of(s: Seq<PeerEntry>, id: u64) -> int {
    choose|i: int| 0 <= i < s.len() && s[i].id == id
}

/// The entry for `id`, when there is one.
pub open spec fn spec_find(s: Seq<PeerEntry>, id: u64) -> Option<PeerEntry> {
    if has_id(s, id) {
        Some(s[idx_of(s, id)])
    } else {
        None
    }
}

// --- the merge policy, as a mathematical function ---

/// Applying one position report: overwrite position and level in place
/// and keep the spawn status, or insert a new unspawned entry.
pub open spec fn spec_apply_position(
    s: Seq<PeerEntry>,
    id: u64,
    pos: Position3,
    level: u8,
) -> Seq<PeerEntry> {
    if has_id(s, id) {
        s.update(idx_of(s, id), PeerEntry { id, pos, level, spawned: s[idx_of(s, id)].spawned })
    } else {
        s.push(PeerEntry { id, pos, level, spawned: false })
    }
}

/// Dropping the entry of a disconnected peer; unknown peers are a
/// no-op.
pub open spec fn spec_remove_id(s: Seq<PeerEntry>, id: u64) -> Seq<PeerEntry> {
    if has_id(s, id) {
        s.remove(idx_of(s, id))
    } else {
        s
    }
}

/// The state after a visibility sweep at the given local level: an
/// entry is spawned exactly when it is on that level; nothing else
/// changes.
pub open spec fn spec_sync_state(s: Seq<PeerEntry>, local: u8) -> Seq<PeerEntry> {
    Seq::new(
        s.len(),
        |k: int|
            PeerEntry {
                id: s[k].id,
                pos: s[k].pos,
                level: s[k].level,
                spawned: s[k].level == local,
            },
    )
}

/// What a visibility sweep does for one entry: despawn a spawned peer
/// that left the local level, keep a spawned peer on it in place (and
/// move its representation to the stored position), spawn an unspawned
/// peer on it, and leave the rest alone.
pub open spec fn spec_entry_ops(e: PeerEntry, local: u8) -> Seq<PresenceOp> {
    if e.spawned && e.level != local {
        seq![PresenceOp::Despawn { id: e.id }]
    } else if e.spawned {
        seq![PresenceOp::Reposition { id: e.id, pos: e.pos }]
    } else if e.level == local {
        seq![PresenceOp::Spawn { id: e.id, pos: e.pos }]
    } else {
        Seq::empty()
    }
}

/// The instructions a visibility sweep hands the rendering layer, in
/// entry order.
pub open spec fn spec_visibility_ops(s: Seq<PeerEntry>, local: u8) -> Seq<PresenceOp>
    decreases s.len(),
{
    if s.len() == 0 {
        Seq::empty()
    } else {
        spec_entry_ops(s[0], local) + spec_visibility_ops(s.drop_first(), local)
    }
}

/// Sweeping one more entry appends its instructions.
pub proof fn lemma_visibility_ops_snoc(s: Seq<PeerEntry>, e: PeerEntry, local: u8)
    ensures
        spec_visibility_ops(s.push(e), local) =~= spec_visibility_ops(s, local) + spec_entry_ops(
            e,
            local,
        ),
    decreases s.len(),
{
    if s.len() == 0 {
        reveal_with_fuel(spec_visibility_ops, 2);
        assert(s.push(e).drop_first() =~= Seq::<PeerEntry>::empty());
        assert(s.push(e)[0] == e);
    } else {
        assert(s.push(e).drop_first() =~= s.drop_first().push(e));
        lemma_visibility_ops_snoc(s.drop_first(), e, local);
        assert(spec_visibility_ops(s.push(e), local) == spec_entry_ops(s[0], local)
            + spec_visibility_ops(s.drop_first().push(e), local));
        assert(spec_entry_ops(s[0], local) + (spec_visibility_ops(s.drop_first(), local)
            + spec_entry_ops(e, local)) =~= (spec_entry_ops(s[0], local) + spec_visibility_ops(
            s.drop_first(),
            local,
        )) + spec_entry_ops(e, local));
    }
}

/// All entries marked unspawned; used when the whole scene is torn
/// down.
pub open spec fn spec_despawn_all(s: Seq<PeerEntry>) -> Seq<PeerEntry> {
    Seq::new(
        s.len(),
        |k: int| PeerEntry { id: s[k].id, pos: s[k].pos, level: s[k].level, spawned: false },
    )
}

// --- how the merge policy moves `spec_find` ---

/// Updating the entry at `id`'s index changes only `id`'s lookup.
pub proof fn lemma_find_update(s: Seq<PeerEntry>, i: int, e: PeerEntry)
    requires
        ids_unique(s),
        0 <= i < s.len(),
        s[i].id == e.id,
    ensures
        ids_unique(s.update(i, e)),
        spec_find(s.update(i, e), e.id) == Some(e),
        forall|other: u64|
            other != e.id ==> spec_find(s.update(i, e), other) == spec_find(s, other),
{
    let s2 = s.update(i, e);
    assert(s2[i] == e);
    assert(s2[i].id == e.id);
    assert(has_id(s2, e.id));
    assert(s2[idx_of(s2, e.id)].id == e.id);
    assert(idx_of(s2, e.id) == i);
    assert forall|other: u64| other != e.id implies spec_find(s2, other) == spec_find(
        s,
        other,
    ) by {
        if has_id(s, other) {
            let k = idx_of(s, other);
            assert(s[k].id == other);
            assert(k != i);
            assert(s2[k].id == other);
            assert(has_id(s2, other));
            assert(idx_of(s2, other) == k);
        } else {
            if has_id(s2, other) {
                let k = idx_of(s2, other);
                assert(s2[k].id == other);
                assert(k != i);
                assert(s[k].id == other);
                assert(false);
            }
        }
    }
}

/// Appending an entry with a fresh identity changes only its lookup.
pub proof fn lemma_find_push(s: Seq<PeerEntry>, e: PeerEntry)
    requires
        ids_unique(s),
        !has_id(s, e.id),
    ensures
        ids_unique(s.push(e)),
        spec_find(s.push(e), e.id) == Some(e),
        forall|other: u64| other != e.id ==> spec_find(s.push(e), other) == spec_find(s, other),
{
    let s2 = s.push(e);
    assert forall|i: int, j: int| 0 <= i < j < s2.len() implies s2[i].id != s2[j].id by {
        if j < s.len() {
        } else {
            assert(s2[j] == e);
            assert(s[i].id != e.id);
        }
    }
    assert(s2[s.len() as int].id == e.id);
    assert(has_id(s2, e.id));
    assert(idx_of(s2, e.id) == s.len() as int);
    assert forall|other: u64| other != e.id implies spec_find(s2, other) == spec_find(
        s,
        other,
    ) by {
        if has_id(s, other) {
            let k = idx_of(s, other);
            assert(s2[k].id == other);
            assert(has_id(s2, other));
            assert(idx_of(s2, other) == k);
        } else {
            if has_id(s2, other) {
                let k = idx_of(s2, other);
                assert(k < s.len());
                assert(false);
            }
        }
    }
}

/// Removing the entry at `id`'s index empties only `id`'s lookup.
pub proof fn lemma_find_remove(s: Seq<PeerEntry>, i: int)
    requires
        ids_unique(s),
        0 <= i < s.len(),
    ensures
        ids_unique(s.remove(i)),
        spec_find(s.remove(i), s[i].id) == None::<PeerEntry>,
        forall|other: u64|
            other != s[i].id ==> spec_find(s.remove(i), other) == spec_find(s, other),
{
    let s2 = s.remove(i);
    let id = s[i].id;
    assert forall|a: int, b: int| 0 <= a < b < s2.len() implies s2[a].id != s2[b].id by {
        let a0 = if a < i {
            a
        } else {
            a + 1
        };
        let b0 = if b < i {
            b
        } else {
            b + 1
        };
        assert(s2[a] == s[a0]);
        assert(s2[b] == s[b0]);
    }
    if has_id(s2, id) {
        let k = idx_of(s2, id);
        let k0 = if k < i {
            k
        } else {
            k + 1
        };
        assert(s2[k] == s[k0]);
        assert(s[k0].id == id && s[i].id == id && k0 != i);
        assert(false);
    }
    assert forall|other: u64| other != id implies spec_find(s2, other) == spec_find(s, other) by {
        if has_id(s, other) {
            let k = idx_of(s, other);
            assert(s[k].id == other);
            assert(k != i);
            let k2 = if k < i {
                k
            } else {
                k - 1
            };
            assert(s2[k2] == s[k]);
            assert(has_id(s2, other));
            let m = idx_of(s2, other);
            let m0 = if m < i {
                m
            } else {
                m + 1
            };
            assert(s2[m] == s[m0]);
            assert(m0 == k);
        } else {
            if has_id(s2, other) {
                let k = idx_of(s2, other);
                let k0 = if k < i {
                    k
                } else {
                    k + 1
                };
                assert(s2[k] == s[k0]);
                assert(false);
            }
        }
    }
}

impl UserIdMap {
    /// The one invariant: session identities are unique keys.
    pub open spec fn wf(&self) -> bool {
        ids_unique(self@)
    }

    /// An empty presence map.
    pub fn new() -> (r: UserIdMap)
        ensures
            r.wf(),
            r@ == Seq::<PeerEntry>::empty(),
    {
        UserIdMap { entries: Vec::new() }
    }

    pub fn len(&self) -> (r: usize)
        ensures
            r == self@.len(),
    {
        self.entries.len()
    }

    /// The entry at a position, for walking the map.
    pub fn entry_at(&self, k: usize) -> (r: PeerEntry)
        requires
            k < self@.len(),
        ensures
            r == self@[k as int],
    {
        self.entries[k]
    }

    fn find_index(&self, id: u64) -> (r: Option<usize>)
        requires
            self.wf(),
        ensures
            match r {
                Some(i) => i < self@.len() && self@[i as int].id == id,
                None => !has_id(self@, id),
            },
    {
        let n = self.entries.len();
        let mut k: usize = 0;
        while k < n
            invariant
                n == self@.len(),
                0 <= k <= n,
                forall|m: int| 0 <= m < k ==> self@[m].id != id,
            decreases n - k,
        {
            if self.entries[k].id == id {
                return Some(k);
            }
            k += 1;
        }
        None
    }

    /// The last-known state of a peer, if it has ever reported.
    pub fn get(&self, id: u64) -> (r: Option<PeerEntry>)
        requires
            self.wf(),
        ensures
            r == spec_find(self@, id),
    {
        match self.find_index(id) {
            Some(i) => {
                proof {
                    assert(has_id(self@, id));
                    assert(idx_of(self@, id) == i as int);
                }
                Some(self.entries[i])
            },
            None => None,
        }
    }

    /// Merges one inbound position report, as the steady-state sync
    /// does for every `PlayerPosition` message.
    pub fn apply_position(&mut self, id: u64, pos: Position3, level: u8)
        requires
            old(self).wf(),
        ensures
            final(self).wf(),
            final(self)@ == spec_apply_position(old(self)@, id, pos, level),
            spec_find(final(self)@, id) == Some(
                PeerEntry {
                    id,
                    pos,
                    level,
                    spawned: match spec_find(old(self)@, id) {
                        Some(e) => e.spawned,
                        None => false,
                    },
                },
            ),
            forall|other: u64|
                other != id ==> spec_find(final(self)@, other) == spec_find(old(self)@, other),
    {
        match self.find_index(id) {
            Some(i) => {
                proof {
                    assert(has_id(self@, id));
                    assert(idx_of(self@, id) == i as int);
                }
                let spawned = self.entries[i].spawned;
                let e = PeerEntry { id, pos, level, spawned };
                self.entries[i] = e;
                proof {
                    lemma_find_update(old(self)@, i as int, e);
                }
            },
            None => {
                let e = PeerEntry { id, pos, level, spawned: false };
                self.entries.push(e);
                proof {
                    lemma_find_push(old(self)@, e);
                }
            },
        }
    }

    /// Drops a peer on its disconnect notification; unknown peers are
    /// a no-op.
    pub fn remove_peer(&mut self, id: u64)
        requires
            old(self).wf(),
        ensures
            final(self).wf(),
            final(self)@ == spec_remove_id(old(self)@, id),
            spec_find(final(self)@, id) == None::<PeerEntry>,
            forall|other: u64|
                other != id ==> spec_find(final(self)@, other) == spec_find(old(self)@, other),
    {
        match self.find_index(id) {
            Some(i) => {
                proof {
                    assert(has_id(self@, id));
                    assert(idx_of(self@, id) == i as int);
                }
                self.entries.remove(i);
                proof {
                    lemma_find_remove(old(self)@, i as int);
                }
            },
            None => {},
        }
    }

    /// One visibility sweep: reconciles every entry's spawn status with
    /// the local level and returns the instructions for the rendering
    /// layer, in entry order.
    pub fn sync_visibility(&mut self, local_level: u8) -> (ops: Vec<PresenceOp>)
        requires
            old(self).wf(),
        ensures
            final(self).wf(),
            final(self)@ == spec_sync_state(old(self)@, local_level),
            ops@ == spec_visibility_ops(old(self)@, local_level),
    {
        let ghost orig = self@;
        let mut ops: Vec<PresenceOp> = Vec::new();
        let n = self.entries.len();
        let mut k: usize = 0;
        while k < n
            invariant
                n == orig.len(),
                self@.len() == n,
                0 <= k <= n,
                self@ =~= spec_sync_state(orig, local_level).take(k as int) + orig.skip(k as int),
                ops@ == spec_visibility_ops(orig.take(k as int), local_level),
            decreases n - k,
        {
            let ghost opsv = ops@;
            let e = self.entries[k];
            proof {
                assert(self@[k as int] == orig[k as int]);
            }
            if e.spawned && e.level != local_level {
                ops.push(PresenceOp::Despawn { id: e.id });
                self.entries[k] = PeerEntry { id: e.id, pos: e.pos, level: e.level, spawned: false };
            } else if e.spawned {
                ops.push(PresenceOp::Reposition { id: e.id, pos: e.pos });
            } else if e.level == local_level {
                ops.push(PresenceOp::Spawn { id: e.id, pos: e.pos });
                self.entries[k] = PeerEntry { id: e.id, pos: e.pos, level: e.level, spawned: true };
            }
            proof {
                lemma_visibility_ops_snoc(orig.take(k as int), orig[k as int], local_level);
                assert(orig.take(k as int + 1) =~= orig.take(k as int).push(orig[k as int]));
                assert(ops@ =~= opsv + spec_entry_ops(orig[k as int], local_level));
                assert(self@ =~= spec_sync_state(orig, local_level).take(k as int + 1) + orig.skip(
                    k as int + 1,
                ));
            }
            k += 1;
        }
        proof {
            assert(self@ =~= spec_sync_state(orig, local_level));
            assert(orig.take(n as int) =~= orig);
        }
        ops
    }
}

/// Marks every peer unspawned, as the scene teardown between levels or
/// on exit to the menu does; positions and levels are kept.
pub fn despawn_everything(player_map: &mut UserIdMap)
    requires
        old(player_map).wf(),
    ensures
        final(player_map).wf(),
        final(player_map)@ == spec_despawn_all(old(player_map)@),
{
    let ghost orig = player_map@;
    let n = player_map.entries.len();
    let mut k: usize = 0;
    while k < n
        invariant
            n == orig.len(),
            player_map@.len() == n,
            0 <= k <= n,
            player_map@ =~= spec_despawn_all(orig).take(k as int) + orig.skip(k as int),
        decreases n - k,
    {
        let e = player_map.entries[k];
        player_map.entries[k] = PeerEntry { id: e.id, pos: e.pos, level: e.level, spawned: false };
        proof {
            assert(player_map@ =~= spec_despawn_all(orig).take(k as int + 1) + orig.skip(
                k as int + 1,
            ));
        }
        k += 1;
    }
    proof {
        assert(player_map@ =~= spec_despawn_all(orig));
    }
}

/// Empties the presence map, as the transition out of an online game
/// does.
pub fn delete_hashmap(map: &mut UserIdMap)
    ensures
        final(map).wf(),
        final(map)@ == Seq::<PeerEntry>::empty(),
{
    map.entries.clear();
}

// --- laws of the presence map ---

/// How many spawn instructions a sweep's output holds for one peer.
pub open spec fn count_spawns_for(ops: Seq<PresenceOp>, id: u64) -> int
    decreases ops.len(),
{
    if ops.len() == 0 {
        0
    } else {
        (match ops[0] {
            PresenceOp::Spawn { id: i, pos } => if i == id {
                1int
            } else {
                0int
            },
            _ => 0int,
        }) + count_spawns_for(ops.drop_first(), id)
    }
}

/// A sweep emits a spawn for a peer exactly when the peer is known,
/// unspawned, and on the local level — and then exactly one.
pub proof fn lemma_ops_spawn_count(s: Seq<PeerEntry>, local: u8, id: u64)
    requires
        ids_unique(s),
    ensures
        count_spawns_for(spec_visibility_ops(s, local), id) == (match spec_find(s, id) {
            Some(e) => if !e.spawned && e.level == local {
                1int
            } else {
                0int
            },
            None => 0int,
        }),
    decreases s.len(),
{
    if s.len() == 0 {
    } else {
        reveal_with_fuel(count_spawns_for, 3);
        let rest = s.drop_first();
        lemma_ops_spawn_count(rest, local, id);
        let ops = spec_visibility_ops(s, local);
        let head_ops = spec_entry_ops(s[0], local);
        let rest_ops = spec_visibility_ops(rest, local);
        assert(count_spawns_for(head_ops + rest_ops, id) == count_spawns_for(head_ops, id)
            + count_spawns_for(rest_ops, id)) by {
            reveal_with_fuel(count_spawns_for, 3);
            if head_ops.len() == 0 {
                assert(head_ops + rest_ops =~= rest_ops);
            } else {
                assert((head_ops + rest_ops)[0] == head_ops[0]);
                assert((head_ops + rest_ops).drop_first() =~= rest_ops);
                assert(head_ops.drop_first() =~= Seq::<PresenceOp>::empty());
                assert(count_spawns_for(head_ops.drop_first(), id) == 0);
            }
        }
        if s[0].id == id {
            assert(has_id(s, id));
            assert(idx_of(s, id) == 0) by {
                let k = idx_of(s, id);
                assert(s[k].id == id && s[0].id == id);
            }
            assert(!has_id(rest, id)) by {
                if has_id(rest, id) {
                    let k = idx_of(rest, id);
                    assert(rest[k] == s[k + 1]);
                    assert(s[k + 1].id == id && s[0].id == id);
                    assert(false);
                }
            }
        } else {
            assert(spec_find(s, id) == spec_find(rest, id)) by {
                if has_id(rest, id) {
                    let k = idx_of(rest, id);
                    assert(rest[k] == s[k + 1]);
                    assert(has_id(s, id));
                    let m = idx_of(s, id);
                    assert(m != 0);
                    assert(rest[m - 1] == s[m]);
                    assert(m == k + 1);
                } else {
                    if has_id(s, id) {
                        let m = idx_of(s, id);
                        assert(m != 0);
                        assert(rest[m - 1] == s[m]);
                        assert(false);
                    }
                }
            }
        }
    }
}

/// A sweep touches no stored position or level, and its identities are
/// unchanged; its lookup is the old one with the spawn status
/// reconciled.
pub proof fn lemma_find_sync(s: Seq<PeerEntry>, local: u8, id: u64)
    requires
        ids_unique(s),
    ensures
        ids_unique(spec_sync_state(s, local)),
        spec_find(spec_sync_state(s, local), id) == (match spec_find(s, id) {
            Some(e) => Some(
                PeerEntry { id: e.id, pos: e.pos, level: e.level, spawned: e.level == local },
            ),
            None => None::<PeerEntry>,
        }),
{
    let s2 = spec_sync_state(s, local);
    if has_id(s, id) {
        let k = idx_of(s, id);
        assert(s2[k].id == id);
        assert(has_id(s2, id));
        let m = idx_of(s2, id);
        assert(s2[m].id == id);
        assert(s[m].id == id);
        assert(m == k);
    } else {
        if has_id(s2, id) {
            let k = idx_of(s2, id);
            assert(s[k].id == id);
            assert(false);
        }
    }
}

/// Position reports for one peer, applied in order.
pub open spec fn spec_apply_positions(
    s: Seq<PeerEntry>,
    id: u64,
    ps: Seq<Position3>,
    level: u8,
) -> Seq<PeerEntry>
    decreases ps.len(),
{
    if ps.len() == 0 {
        s
    } else {
        spec_apply_positions(spec_apply_position(s, id, ps[0], level), id, ps.drop_first(), level)
    }
}

/// Position reports for a known peer never change its spawn status,
/// and leave every other peer alone.
pub proof fn lemma_apply_positions_find(s: Seq<PeerEntry>, id: u64, ps: Seq<Position3>, level: u8)
    requires
        ids_unique(s),
        has_id(s, id),
    ensures
        ids_unique(spec_apply_positions(s, id, ps, level)),
        has_id(spec_apply_positions(s, id, ps, level), id),
        ({
            let before = spec_find(s, id)->Some_0;
            let after = spec_find(spec_apply_positions(s, id, ps, level), id)->Some_0;
            &&& after.spawned == before.spawned
            &&& after.level == if ps.len() == 0 {
                before.level
            } else {
                level
            }
        }),
        forall|other: u64|
            other != id ==> spec_find(spec_apply_positions(s, id, ps, level), other) == spec_find(
                s,
                other,
            ),
    decreases ps.len(),
{
    if ps.len() == 0 {
    } else {
        let i = idx_of(s, id);
        let e = PeerEntry { id, pos: ps[0], level, spawned: s[i].spawned };
        lemma_find_update(s, i, e);
        let s1 = spec_apply_position(s, id, ps[0], level);
        assert(s1 == s.update(i, e));
        lemma_apply_positions_find(s1, id, ps.drop_first(), level);
    }
}

/// Law: a peer first seen on the local level is spawned exactly once —
/// the next sweep emits one spawn instruction for it, and after any
/// further position reports on that level a sweep emits none, until a
/// despawn condition fires.
pub proof fn lemma_idempotent_spawn(
    s: Seq<PeerEntry>,
    id: u64,
    first: Position3,
    more: Seq<Position3>,
    local: u8,
)
    requires
        ids_unique(s),
        !has_id(s, id),
    ensures
        ({
            let s1 = spec_apply_position(s, id, first, local);
            let s2 = spec_sync_state(s1, local);
            let s3 = spec_apply_positions(s2, id, more, local);
            &&& count_spawns_for(spec_visibility_ops(s1, local), id) == 1
            &&& spec_find(s3, id)->Some_0.spawned
            &&& count_spawns_for(spec_visibility_ops(s3, local), id) == 0
        }),
{
    let e = PeerEntry { id, pos: first, level: local, spawned: false };
    lemma_find_push(s, e);
    let s1 = spec_apply_position(s, id, first, local);
    assert(s1 == s.push(e));
    lemma_ops_spawn_count(s1, local, id);
    lemma_find_sync(s1, local, id);
    let s2 = spec_sync_state(s1, local);
    assert(spec_find(s2, id) == Some(
        PeerEntry { id, pos: first, level: local, spawned: true },
    ));
    assert(has_id(s2, id)) by {
        assert(spec_find(s2, id) is Some);
    }
    lemma_apply_positions_find(s2, id, more, local);
    let s3 = spec_apply_positions(s2, id, more, local);
    lemma_ops_spawn_count(s3, local, id);
}

/// Law: an entry is rendered-spawned exactly when its level is the
/// local one; changing the local level despawns the old level's peers
/// and spawns the new level's, without touching a stored position.
pub proof fn lemma_level_gated_visibility(s: Seq<PeerEntry>, first: u8, second: u8)
    ensures
        forall|k: int|
            0 <= k < s.len() ==> (#[trigger] spec_sync_state(s, first)[k]).spawned == (s[k].level
                == first),
        forall|k: int|
            0 <= k < s.len() ==> (#[trigger] spec_sync_state(s, first)[k]).pos == s[k].pos && spec_sync_state(
                s,
                first,
            )[k].level == s[k].level && spec_sync_state(s, first)[k].id == s[k].id,
        forall|k: int|
            0 <= k < s.len() ==> (#[trigger] spec_sync_state(
                spec_sync_state(s, first),
                second,
            )[k]).spawned == (s[k].level == second),
        forall|k: int|
            0 <= k < s.len() ==> (#[trigger] spec_sync_state(
                spec_sync_state(s, first),
                second,
            )[k]).pos == s[k].pos,
{
}

/// Law: a position report that arrives after its peer's disconnect
/// creates a fresh unspawned entry carrying only the report's own
/// data — no stale pre-disconnect state survives — and every other
/// session, including a later one under a new identity, is unaffected.
pub proof fn lemma_disconnect_cleanup(s: Seq<PeerEntry>, id: u64, pos: Position3, level: u8)
    requires
        ids_unique(s),
    ensures
        ({
            let s1 = spec_remove_id(s, id);
            let s2 = spec_apply_position(s1, id, pos, level);
            &&& spec_find(s1, id) == None::<PeerEntry>
            &&& spec_find(s2, id) == Some(PeerEntry { id, pos, level, spawned: false })
            &&& forall|other: u64|
                other != id ==> spec_find(s2, other) == spec_find(s, other)
        }),
{
    let s1 = spec_remove_id(s, id);
    if has_id(s, id) {
        lemma_find_remove(s, idx_of(s, id));
        assert(s[idx_of(s, id)].id == id);
    }
    assert(!has_id(s1, id)) by {
        assert(spec_find(s1, id) == None::<PeerEntry>);
    }
    let e = PeerEntry { id, pos, level, spawned: false };
    lemma_find_push(s1, e);
    assert(spec_apply_position(s1, id, pos, level) == s1.push(e));
}

} // verus!
