//! Shared movable-wall state: the last-reported position of every
//! movable wall, keyed by level, reporting peer and wall identity.
//!
//! A wall's identity is a deterministic hash of its spawn coordinates
//! and level, not a random value, so every client derives the same
//! identity for the same physical wall from its own copy of the level
//! geometry.  Reports for a known wall overwrite its position; unmatched
//! reports append a new entry.

use crate::geometry::Position2;
use vstd::prelude::*;

verus! {

/// One tracked wall: its level, the peer that moved it, its identity,
/// and its last absolute position.
#[derive(Clone, Copy, Debug, PartialEq, Eq, Structural)]
pub struct BlockEntry {
    pub level: u8,
    pub owner: u64,
    pub wall_id: i32,
    pub pos: Position2,
}

/// The shared-object map.
pub struct BlockMap {
    blocks: Vec<BlockEntry>,
}

impl View for BlockMap {
    type V = Seq<BlockEntry>;

    closed spec fn view(&self) -> Seq<BlockEntry> {
        self.blocks@
    }
}

pub open spec fn same_key(e: BlockEntry, level: u8, owner: u64, wall_id: i32) -> bool {
    e.level == level && e.owner == owner && e.wall_id == wall_id
}

/// Within one level, (owner, wall identity) pairs are unique.
pub open spec fn keys_unique(s: Seq<BlockEntry>) -> bool {
    forall|i: int, j: int|
        0 <= i < j < s.len() ==> !same_key(s[i], s[j].level, s[j].owner, s[j].wall_id)
}

pub open spec fn has_key(s: Seq<BlockEntry>, level: u8, owner: u64, wall_id: i32) -> bool {
    exists|i: int| 0 <= i < s.len() && same_key(s[i], level, owner, wall_id)
}

pub open spec fn idx_of_key(s: Seq<BlockEntry>, level: u8, owner: u64, wall_id: i32) -> int {
    choose|i: int| 0 <= i < s.len() && same_key(s[i], level, owner, wall_id)
}

/// The tracked entry of one wall, when there is one.
pub open spec fn spec_find_block(s: Seq<BlockEntry>, level: u8, owner: u64, wall_id: i32) -> Option<
    BlockEntry,
> {
    if has_key(s, level, owner, wall_id) {
        Some(s[idx_of_key(s, level, owner, wall_id)])
    } else {
        None
    }
}

/// Applying one wall report: overwrite the position of a known wall,
/// append an unmatched one.
pub open spec fn spec_apply_wall(
    s: Seq<BlockEntry>,
    level: u8,
    owner: u64,
    wall_id: i32,
    pos: Position2,
) -> Seq<BlockEntry> {
    if has_key(s, level, owner, wall_id) {
        s.update(idx_of_key(s, level, owner, wall_id), BlockEntry { level, owner, wall_id, pos })
    } else {
        s.push(BlockEntry { level, owner, wall_id, pos })
    }
}

/// Whether a wall key is among the already-instantiated walls.
pub open spec fn key_in(keys: Seq<(u64, i32)>, owner: u64, wall_id: i32) -> bool {
    exists|k: int| 0 <= k < keys.len() && keys[k] == (owner, wall_id)
}

/// The level's tracked walls that are already instantiated: they get
/// position updates.
pub open spec fn spec_wall_updates(
    s: Seq<BlockEntry>,
    level: u8,
    keys: Seq<(u64, i32)>,
) -> Seq<BlockEntry>
    decreases s.len(),
{
    if s.len() == 0 {
        Seq::empty()
    } else {
        let rest = spec_wall_updates(s.drop_last(), level, keys);
        if s.last().level == level && key_in(keys, s.last().owner, s.last().wall_id) {
            rest.push(s.last())
        } else {
            rest
        }
    }
}

/// The level's tracked walls not yet instantiated: they get spawned.
pub open spec fn spec_wall_spawns(
    s: Seq<BlockEntry>,
    level: u8,
    keys: Seq<(u64, i32)>,
) -> Seq<BlockEntry>
    decreases s.len(),
{
    if s.len() == 0 {
        Seq::empty()
    } else {
        let rest = spec_wall_spawns(s.drop_last(), level, keys);
        if s.last().level == level && !key_in(keys, s.last().owner, s.last().wall_id) {
            rest.push(s.last())
        } else {
            rest
        }
    }
}

/// Overwriting a known wall's position changes only that wall's
/// lookup.
pub proof fn lemma_block_update(s: Seq<BlockEntry>, i: int, e: BlockEntry)
    requires
        keys_unique(s),
        0 <= i < s.len(),
        same_key(s[i], e.level, e.owner, e.wall_id),
    ensures
        keys_unique(s.update(i, e)),
        spec_find_block(s.update(i, e), e.level, e.owner, e.wall_id) == Some(e),
        forall|l: u8, o: u64, w: i32|
            !same_key(e, l, o, w) ==> spec_find_block(s.update(i, e), l, o, w) == spec_find_block(
                s,
                l,
                o,
                w,
            ),
{
    let s2 = s.update(i, e);
    assert(s2[i] == e);
    assert(same_key(s2[i], e.level, e.owner, e.wall_id));
    assert(has_key(s2, e.level, e.owner, e.wall_id));
    assert(idx_of_key(s2, e.level, e.owner, e.wall_id) == i);
    assert forall|l: u8, o: u64, w: i32| !same_key(e, l, o, w) implies spec_find_block(s2, l, o, w)
        == spec_find_block(s, l, o, w) by {
        if has_key(s, l, o, w) {
            let k = idx_of_key(s, l, o, w);
            assert(same_key(s[k], l, o, w));
            assert(k != i);
            assert(same_key(s2[k], l, o, w));
            assert(has_key(s2, l, o, w));
            assert(idx_of_key(s2, l, o, w) == k);
        } else {
            if has_key(s2, l, o, w) {
                let k = idx_of_key(s2, l, o, w);
                assert(same_key(s2[k], l, o, w));
                assert(k != i);
                assert(same_key(s[k], l, o, w));
                assert(false);
            }
        }
    }
}

/// Appending a fresh wall changes only that wall's lookup.
pub proof fn lemma_block_push(s: Seq<BlockEntry>, e: BlockEntry)
    requires
        keys_unique(s),
        !has_key(s, e.level, e.owner, e.wall_id),
    ensures
        keys_unique(s.push(e)),
        spec_find_block(s.push(e), e.level, e.owner, e.wall_id) == Some(e),
        forall|l: u8, o: u64, w: i32|
            !same_key(e, l, o, w) ==> spec_find_block(s.push(e), l, o, w) == spec_find_block(
                s,
                l,
                o,
                w,
            ),
{
    let s2 = s.push(e);
    assert forall|i: int, j: int| 0 <= i < j < s2.len() implies !same_key(
        s2[i],
        s2[j].level,
        s2[j].owner,
        s2[j].wall_id,
    ) by {
        if j < s.len() {
        } else {
            assert(s2[j] == e);
            if same_key(s[i], e.level, e.owner, e.wall_id) {
                assert(has_key(s, e.level, e.owner, e.wall_id));
                assert(false);
            }
        }
    }
    assert(s2[s.len() as int] == e);
    assert(same_key(s2[s.len() as int], e.level, e.owner, e.wall_id));
    assert(has_key(s2, e.level, e.owner, e.wall_id));
    assert(idx_of_key(s2, e.level, e.owner, e.wall_id) == s.len() as int);
    assert forall|l: u8, o: u64, w: i32| !same_key(e, l, o, w) implies spec_find_block(s2, l, o, w)
        == spec_find_block(s, l, o, w) by {
        if has_key(s, l, o, w) {
            let k = idx_of_key(s, l, o, w);
            assert(same_key(s2[k], l, o, w));
            assert(has_key(s2, l, o, w));
            assert(idx_of_key(s2, l, o, w) == k);
        } else {
            if has_key(s2, l, o, w) {
                let k = idx_of_key(s2, l, o, w);
                assert(k < s.len());
                assert(false);
            }
        }
    }
}

impl BlockMap {
    /// The one invariant: wall keys are unique.
    pub open spec fn wf(&self) -> bool {
        keys_unique(self@)
    }

    /// An empty map.
    pub fn new() -> (r: BlockMap)
        ensures
            r.wf(),
            r@ == Seq::<BlockEntry>::empty(),
    {
        BlockMap { blocks: Vec::new() }
    }

    pub fn len(&self) -> (r: usize)
        ensures
            r == self@.len(),
    {
        self.blocks.len()
    }

    fn find_index(&self, level: u8, owner: u64, wall_id: i32) -> (r: Option<usize>)
        requires
            self.wf(),
        ensures
            match r {
                Some(i) => i < self@.len() && same_key(self@[i as int], level, owner, wall_id),
                None => !has_key(self@, level, owner, wall_id),
            },
    {
        let n = self.blocks.len();
        let mut k: usize = 0;
        while k < n
            invariant
                n == self@.len(),
                0 <= k <= n,
                forall|m: int| 0 <= m < k ==> !same_key(self@[m], level, owner, wall_id),
            decreases n - k,
        {
            let e = self.blocks[k];
            if e.level == level && e.owner == owner && e.wall_id == wall_id {
                return Some(k);
            }
            k += 1;
        }
        None
    }

    /// The tracked entry of one wall.
    pub fn get(&self, level: u8, owner: u64, wall_id: i32) -> (r: Option<BlockEntry>)
        requires
            self.wf(),
        ensures
            r == spec_find_block(self@, level, owner, wall_id),
    {
        match self.find_index(level, owner, wall_id) {
            Some(i) => {
                proof {
                    assert(has_key(self@, level, owner, wall_id));
                    assert(idx_of_key(self@, level, owner, wall_id) == i as int);
                }
                Some(self.blocks[i])
            },
            None => None,
        }
    }

    /// Merges one inbound wall report: overwrite a known wall's
    /// position, append an unmatched one.
    pub fn apply_wall_update(&mut self, level: u8, owner: u64, wall_id: i32, pos: Position2)
        requires
            old(self).wf(),
        ensures
            final(self).wf(),
            final(self)@ == spec_apply_wall(old(self)@, level, owner, wall_id, pos),
            spec_find_block(final(self)@, level, owner, wall_id) == Some(
                BlockEntry { level, owner, wall_id, pos },
            ),
            forall|l: u8, o: u64, w: i32|
                !same_key(BlockEntry { level, owner, wall_id, pos }, l, o, w) ==> spec_find_block(
                    final(self)@,
                    l,
                    o,
                    w,
                ) == spec_find_block(old(self)@, l, o, w),
    {
        let e = BlockEntry { level, owner, wall_id, pos };
        match self.find_index(level, owner, wall_id) {
            Some(i) => {
                proof {
                    assert(has_key(self@, level, owner, wall_id));
                    assert(idx_of_key(self@, level, owner, wall_id) == i as int);
                }
                self.blocks[i] = e;
                proof {
                    lemma_block_update(old(self)@, i as int, e);
                }
            },
            None => {
                self.blocks.push(e);
                proof {
                    lemma_block_push(old(self)@, e);
                }
            },
        }
    }

    /// One wall-reconciliation pass for the active level: walls already
    /// instantiated (their key is in `spawned`) get position updates;
    /// the rest get spawned.
    pub fn sync_walls(&self, level: u8, spawned: &Vec<(u64, i32)>) -> (r: (
        Vec<BlockEntry>,
        Vec<BlockEntry>,
    ))
        requires
            self.wf(),
        ensures
            r.0@ == spec_wall_updates(self@, level, spawned@),
            r.1@ == spec_wall_spawns(self@, level, spawned@),
    {
        let mut updates: Vec<BlockEntry> = Vec::new();
        let mut spawns: Vec<BlockEntry> = Vec::new();
        let n = self.blocks.len();
        let mut k: usize = 0;
        while k < n
            invariant
                n == self@.len(),
                0 <= k <= n,
                updates@ =~= spec_wall_updates(self@.take(k as int), level, spawned@),
                spawns@ =~= spec_wall_spawns(self@.take(k as int), level, spawned@),
            decreases n - k,
        {
            let e = self.blocks[k];
            if e.level == level {
                if key_member(spawned, e.owner, e.wall_id) {
                    updates.push(e);
                } else {
                    spawns.push(e);
                }
            }
            proof {
                assert(self@.take(k as int + 1).drop_last() =~= self@.take(k as int));
                assert(self@.take(k as int + 1).last() == self@[k as int]);
            }
            k += 1;
        }
        proof {
            assert(self@.take(n as int) =~= self@);
        }
        (updates, spawns)
    }
}

/// Whether a wall key is among the instantiated ones.
pub fn key_member(keys: &Vec<(u64, i32)>, owner: u64, wall_id: i32) -> (r: bool)
    ensures
        r == key_in(keys@, owner, wall_id),
{
    let n = keys.len();
    let mut k: usize = 0;
    while k < n
        invariant
            n == keys@.len(),
            0 <= k <= n,
            forall|m: int| 0 <= m < k ==> keys@[m] != (owner, wall_id),
        decreases n - k,
    {
        let (o, w) = keys[k];
        if o == owner && w == wall_id {
            proof {
                assert(keys@[k as int] == (owner, wall_id));
            }
            return true;
        }
        k += 1;
    }
    proof {
        if key_in(keys@, owner, wall_id) {
            let m = choose|m: int| 0 <= m < keys@.len() && keys@[m] == (owner, wall_id);
            assert(false);
        }
    }
    false
}

/// The deterministic identity of a movable wall, computed from its
/// spawn coordinates and level: every client derives the same identity
/// for the same wall from its own copy of the geometry.  The prime
/// multipliers keep distinct tiles from colliding in practice.
pub fn wall_unique_id(x: i32, y: i32, level: u8) -> (r: i32)
    requires
        -300000 <= x <= 300000,
        -300000 <= y <= 300000,
    ensures
        r == x * 1117 + y * 4339 + level * 27,
{
    x * 1117 + y * 4339 + (level as i32) * 27
}

} // verus!
