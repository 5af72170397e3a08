//! The map catalog: level geometry keyed by level number.
//!
//! A host fills it from local level files; a joining client fills it
//! from `MapPayload` messages.  Insertion overwrites, so duplicated
//! datagrams are idempotent and the entry count is the number of
//! distinct levels received — the quantity the transfer-completion
//! check compares against the announced total.

use vstd::prelude::*;

verus! {

/// One catalog entry: a level number and its geometry.
pub struct MapEntry {
    pub number: u8,
    pub grid: Vec<Vec<u8>>,
}

/// Mathematical value of a catalog entry.
pub struct MapRecord {
    pub number: u8,
    pub grid: Seq<Seq<u8>>,
}

/// The catalog.
pub struct Maps {
    maps: Vec<MapEntry>,
}

impl View for Maps {
    type V = Seq<MapRecord>;

    closed spec fn view(&self) -> Seq<MapRecord> {
        Seq::new(
            self.maps@.len(),
            |k: int|
                MapRecord { number: self.maps@[k].number, grid: self.maps@[k].grid.deep_view() },
        )
    }
}

/// No two entries share a level number.
pub open spec fn nums_unique(s: Seq<MapRecord>) -> bool {
    forall|i: int, j: int| 0 <= i < j < s.len() ==> s[i].number != s[j].number
}

pub open spec fn has_num(s: Seq<MapRecord>, n: u8) -> bool {
    exists|i: int| 0 <= i < s.len() && s[i].number == n
}

pub open spec fn idx_of_num(s: Seq<MapRecord>, n: u8) -> int {
    choose|i: int| 0 <= i < s.len() && s[i].number == n
}

/// The stored geometry of a level, when there is one.
pub open spec fn spec_get(s: Seq<MapRecord>, n: u8) -> Option<Seq<Seq<u8>>> {
    if has_num(s, n) {
        Some(s[idx_of_num(s, n)].grid)
    } else {
        None
    }
}

/// Inserting a level: overwrite in place or append — duplicates are
/// idempotent in the count.
pub open spec fn spec_insert(s: Seq<MapRecord>, n: u8, g: Seq<Seq<u8>>) -> Seq<MapRecord> {
    if has_num(s, n) {
        s.update(idx_of_num(s, n), MapRecord { number: n, grid: g })
    } else {
        s.push(MapRecord { number: n, grid: g })
    }
}

/// Overwriting a level's geometry changes only that level's lookup and
/// keeps the count.
pub proof fn lemma_get_update(s: Seq<MapRecord>, i: int, r: MapRecord)
    requires
        nums_unique(s),
        0 <= i < s.len(),
        s[i].number == r.number,
    ensures
        nums_unique(s.update(i, r)),
        spec_get(s.update(i, r), r.number) == Some(r.grid),
        forall|other: u8|
            other != r.number ==> spec_get(s.update(i, r), other) == spec_get(s, other),
{
    let s2 = s.update(i, r);
    assert(s2[i] == r);
    assert(s2[i].number == r.number);
    assert(has_num(s2, r.number));
    assert(idx_of_num(s2, r.number) == i);
    assert forall|other: u8| other != r.number implies spec_get(s2, other) == spec_get(
        s,
        other,
    ) by {
        if has_num(s, other) {
            let k = idx_of_num(s, other);
            assert(s[k].number == other);
            assert(k != i);
            assert(s2[k].number == other);
            assert(has_num(s2, other));
            assert(idx_of_num(s2, other) == k);
        } else {
            if has_num(s2, other) {
                let k = idx_of_num(s2, other);
                assert(k != i);
                assert(s[k].number == other);
                assert(false);
            }
        }
    }
}

/// Appending a fresh level changes only that level's lookup and grows
/// the count by one.
pub proof fn lemma_get_push(s: Seq<MapRecord>, r: MapRecord)
    requires
        nums_unique(s),
        !has_num(s, r.number),
    ensures
        nums_unique(s.push(r)),
        spec_get(s.push(r), r.number) == Some(r.grid),
        forall|other: u8| other != r.number ==> spec_get(s.push(r), other) == spec_get(s, other),
{
    let s2 = s.push(r);
    assert forall|i: int, j: int| 0 <= i < j < s2.len() implies s2[i].number != s2[j].number by {
        if j < s.len() {
        } else {
            assert(s2[j] == r);
            assert(s[i].number != r.number);
        }
    }
    assert(s2[s.len() as int].number == r.number);
    assert(has_num(s2, r.number));
    assert(idx_of_num(s2, r.number) == s.len() as int);
    assert forall|other: u8| other != r.number implies spec_get(s2, other) == spec_get(
        s,
        other,
    ) by {
        if has_num(s, other) {
            let k = idx_of_num(s, other);
            assert(s2[k].number == other);
            assert(has_num(s2, other));
            assert(idx_of_num(s2, other) == k);
        } else {
            if has_num(s2, other) {
                let k = idx_of_num(s2, other);
                assert(k < s.len());
                assert(false);
            }
        }
    }
}

/// An exact copy of a grid.
pub fn clone_grid(g: &Vec<Vec<u8>>) -> (r: Vec<Vec<u8>>)
    ensures
        r.deep_view() == g.deep_view(),
{
    let mut out: Vec<Vec<u8>> = Vec::new();
    let n = g.len();
    let mut k: usize = 0;
    while k < n
        invariant
            n == g@.len(),
            0 <= k <= n,
            out.deep_view() =~= g.deep_view().take(k as int),
        decreases n - k,
    {
        let row = &g[k];
        let mut copy: Vec<u8> = Vec::new();
        let m = row.len();
        let mut i: usize = 0;
        while i < m
            invariant
                m == row@.len(),
                0 <= i <= m,
                copy@ =~= row@.take(i as int),
            decreases m - i,
        {
            copy.push(row[i]);
            proof {
                assert(row@.take(i as int + 1) =~= row@.take(i as int).push(row@[i as int]));
            }
            i += 1;
        }
        proof {
            assert(copy@ =~= row@);
            assert(copy.deep_view() =~= g.deep_view()[k as int]);
        }
        let ghost copydv = copy.deep_view();
        out.push(copy);
        proof {
            assert(out.deep_view() =~= g.deep_view().take(k as int).push(copydv));
            assert(g.deep_view().take(k as int + 1) =~= g.deep_view().take(k as int).push(
                g.deep_view()[k as int],
            ));
        }
        k += 1;
    }
    proof {
        assert(g.deep_view().take(n as int) =~= g.deep_view());
        assert(out.deep_view() =~= g.deep_view());
    }
    out
}

impl Maps {
    /// The one invariant: level numbers are unique keys.
    pub open spec fn wf(&self) -> bool {
        nums_unique(self@)
    }

    /// An empty catalog.
    pub fn new() -> (r: Maps)
        ensures
            r.wf(),
            r@ == Seq::<MapRecord>::empty(),
    {
        Maps { maps: Vec::new() }
    }

    /// The number of distinct levels held.
    pub fn len(&self) -> (r: usize)
        ensures
            r == self@.len(),
    {
        self.maps.len()
    }

    /// The entry at a position, for streaming the catalog out.
    pub fn entry_at(&self, k: usize) -> (r: (u8, &Vec<Vec<u8>>))
        requires
            k < self@.len(),
        ensures
            r.0 == self@[k as int].number,
            r.1.deep_view() == self@[k as int].grid,
    {
        (self.maps[k].number, &self.maps[k].grid)
    }

    fn find_index(&self, number: u8) -> (r: Option<usize>)
        requires
            self.wf(),
        ensures
            match r {
                Some(i) => i < self@.len() && self@[i as int].number == number,
                None => !has_num(self@, number),
            },
    {
        let n = self.maps.len();
        let mut k: usize = 0;
        while k < n
            invariant
                n == self@.len(),
                n == self.maps@.len(),
                0 <= k <= n,
                forall|m: int| 0 <= m < k ==> self@[m].number != number,
            decreases n - k,
        {
            if self.maps[k].number == number {
                proof {
                    assert(self@[k as int].number == number);
                }
                return Some(k);
            }
            k += 1;
        }
        None
    }

    /// Whether a level is already held.
    pub fn contains(&self, number: u8) -> (r: bool)
        requires
            self.wf(),
        ensures
            r == has_num(self@, number),
    {
        match self.find_index(number) {
            Some(_) => true,
            None => false,
        }
    }

    /// The stored geometry of a level.
    pub fn get(&self, number: u8) -> (r: Option<&Vec<Vec<u8>>>)
        requires
            self.wf(),
        ensures
            match r {
                Some(g) => spec_get(self@, number) == Some(g.deep_view()),
                None => spec_get(self@, number) is None,
            },
    {
        match self.find_index(number) {
            Some(i) => {
                proof {
                    assert(has_num(self@, number));
                    assert(idx_of_num(self@, number) == i as int);
                }
                Some(&self.maps[i].grid)
            },
            None => None,
        }
    }

    /// Stores a level's geometry, overwriting any previous one, so a
    /// duplicated payload never inflates the count.
    pub fn insert(&mut self, number: u8, grid: Vec<Vec<u8>>)
        requires
            old(self).wf(),
        ensures
            final(self).wf(),
            final(self)@ == spec_insert(old(self)@, number, grid.deep_view()),
            spec_get(final(self)@, number) == Some(grid.deep_view()),
            forall|other: u8|
                other != number ==> spec_get(final(self)@, other) == spec_get(old(self)@, other),
            final(self)@.len() == old(self)@.len() + (if has_num(old(self)@, number) {
                0int
            } else {
                1int
            }),
    {
        let ghost rec = MapRecord { number, grid: grid.deep_view() };
        match self.find_index(number) {
            Some(i) => {
                proof {
                    assert(has_num(self@, number));
                    assert(idx_of_num(self@, number) == i as int);
                }
                self.maps[i] = MapEntry { number, grid };
                proof {
                    assert(self@ =~= old(self)@.update(i as int, rec));
                    lemma_get_update(old(self)@, i as int, rec);
                }
            },
            None => {
                self.maps.push(MapEntry { number, grid });
                proof {
                    assert(self@ =~= old(self)@.push(rec));
                    lemma_get_push(old(self)@, rec);
                }
            },
        }
    }
}

} // verus!
