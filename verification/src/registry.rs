//! Server-side connection registry: the live set of connected session
//! identities and the target lists for broadcast, broadcast-except and
//! unicast sends.
//!
//! The registry holds no game state; it only does connection
//! bookkeeping, driven by edge-triggered connect and disconnect events.

use vstd::prelude::*;

verus! {

/// An edge-triggered connection lifecycle event, consumed once per
/// tick and never re-delivered.
#[derive(Clone, Copy, Debug, PartialEq, Eq, Structural)]
pub enum ServerEvent {
    ClientConnected { id: u64 },
    ClientDisconnected { id: u64 },
}

/// The live set of connected peers.
pub struct ConnectionRegistry {
    peers: Vec<u64>,
}

impl View for ConnectionRegistry {
    type V = Seq<u64>;

    closed spec fn view(&self) -> Seq<u64> {
        self.peers@
    }
}

/// No identity is connected twice.
pub open spec fn peers_unique(s: Seq<u64>) -> bool {
    forall|i: int, j: int| 0 <= i < j < s.len() ==> s[i] != s[j]
}

/// The peers a rebroadcast reaches: everyone but the sender, in
/// registry order.
pub open spec fn spec_except(s: Seq<u64>, except: u64) -> Seq<u64>
    decreases s.len(),
{
    if s.len() == 0 {
        Seq::empty()
    } else {
        let rest = spec_except(s.drop_last(), except);
        if s.last() != except {
            rest.push(s.last())
        } else {
            rest
        }
    }
}

/// A peer is on the exclusion-broadcast list exactly when it is
/// connected and is not the excluded sender.
pub proof fn lemma_except_membership(s: Seq<u64>, except: u64)
    ensures
        forall|p: u64|
            #[trigger] spec_except(s, except).contains(p) <==> (s.contains(p) && p != except),
    decreases s.len(),
{
    if s.len() == 0 {
    } else {
        let prefix = s.drop_last();
        lemma_except_membership(prefix, except);
        let rest = spec_except(prefix, except);
        let out = spec_except(s, except);
        assert forall|p: u64| #[trigger] out.contains(p) implies (s.contains(p) && p
            != except) by {
            let k = choose|k: int| 0 <= k < out.len() && out[k] == p;
            if s.last() != except && k == out.len() - 1 {
                assert(s[s.len() - 1] == p);
            } else {
                assert(rest[k] == p);
                assert(rest.contains(p));
                assert(prefix.contains(p));
                let m = choose|m: int| 0 <= m < prefix.len() && prefix[m] == p;
                assert(s[m] == p);
            }
        }
        assert forall|p: u64| s.contains(p) && p != except implies #[trigger] out.contains(p) by {
            let k = choose|k: int| 0 <= k < s.len() && s[k] == p;
            if k == s.len() - 1 {
                assert(s.last() == p);
                assert(out[out.len() - 1] == p);
            } else {
                assert(prefix[k] == p);
                assert(prefix.contains(p));
                assert(rest.contains(p));
                let m = choose|m: int| 0 <= m < rest.len() && rest[m] == p;
                assert(out[m] == p);
            }
        }
    }
}

/// Exclusion keeps the list duplicate-free: each target is reached
/// exactly once.
pub proof fn lemma_except_unique(s: Seq<u64>, except: u64)
    requires
        peers_unique(s),
    ensures
        peers_unique(spec_except(s, except)),
    decreases s.len(),
{
    if s.len() == 0 {
    } else {
        let prefix = s.drop_last();
        lemma_except_unique(prefix, except);
        lemma_except_membership(prefix, except);
        let rest = spec_except(prefix, except);
        let out = spec_except(s, except);
        if s.last() != except {
            assert(!rest.contains(s.last())) by {
                if rest.contains(s.last()) {
                    assert(prefix.contains(s.last()));
                    let m = choose|m: int| 0 <= m < prefix.len() && prefix[m] == s.last();
                    assert(s[m] == s[s.len() - 1]);
                    assert(false);
                }
            }
            assert forall|i: int, j: int| 0 <= i < j < out.len() implies out[i] != out[j] by {
                if j == out.len() - 1 {
                    assert(out[i] == rest[i]);
                    assert(rest.contains(rest[i]));
                    assert(out[j] == s.last());
                } else {
                    assert(out[i] == rest[i] && out[j] == rest[j]);
                }
            }
        }
    }
}

impl ConnectionRegistry {
    /// The one invariant: connected identities are unique.
    pub open spec fn wf(&self) -> bool {
        peers_unique(self@)
    }

    /// An empty registry.
    pub fn new() -> (r: ConnectionRegistry)
        ensures
            r.wf(),
            r@ == Seq::<u64>::empty(),
    {
        ConnectionRegistry { peers: Vec::new() }
    }

    pub fn len(&self) -> (r: usize)
        ensures
            r == self@.len(),
    {
        self.peers.len()
    }

    fn find_index(&self, id: u64) -> (r: Option<usize>)
        requires
            self.wf(),
        ensures
            match r {
                Some(i) => i < self@.len() && self@[i as int] == id,
                None => !self@.contains(id),
            },
    {
        let n = self.peers.len();
        let mut k: usize = 0;
        while k < n
            invariant
                n == self@.len(),
                0 <= k <= n,
                forall|m: int| 0 <= m < k ==> self@[m] != id,
            decreases n - k,
        {
            if self.peers[k] == id {
                return Some(k);
            }
            k += 1;
        }
        proof {
            if self@.contains(id) {
                let m = choose|m: int| 0 <= m < self@.len() && self@[m] == id;
                assert(false);
            }
        }
        None
    }

    /// Whether a peer is connected.
    pub fn is_connected(&self, id: u64) -> (r: bool)
        requires
            self.wf(),
        ensures
            r == self@.contains(id),
    {
        match self.find_index(id) {
            Some(i) => {
                proof {
                    assert(self@[i as int] == id);
                }
                true
            },
            None => false,
        }
    }

    /// Records a connect event; reconnecting an already-live identity
    /// changes nothing.
    pub fn connect(&mut self, id: u64)
        requires
            old(self).wf(),
        ensures
            final(self).wf(),
            final(self)@ == if old(self)@.contains(id) {
                old(self)@
            } else {
                old(self)@.push(id)
            },
            final(self)@.contains(id),
    {
        match self.find_index(id) {
            Some(i) => {
                proof {
                    assert(self@[i as int] == id);
                }
            },
            None => {
                self.peers.push(id);
                proof {
                    assert(self@[self@.len() - 1] == id);
                    assert forall|i: int, j: int| 0 <= i < j < self@.len() implies self@[i]
                        != self@[j] by {
                        if j == self@.len() - 1 {
                            assert(old(self)@[i] != id);
                        }
                    }
                }
            },
        }
    }

    /// Records a disconnect event; the identity leaves the live set.
    pub fn disconnect(&mut self, id: u64)
        requires
            old(self).wf(),
        ensures
            final(self).wf(),
            !final(self)@.contains(id),
            forall|p: u64| p != id ==> final(self)@.contains(p) == old(self)@.contains(p),
            final(self)@.len() == old(self)@.len() - (if old(self)@.contains(id) {
                1int
            } else {
                0int
            }),
    {
        let ghost orig = self@;
        match self.find_index(id) {
            Some(i) => {
                self.peers.remove(i);
                proof {
                    let s2 = self@;
                    assert forall|a: int, b: int| 0 <= a < b < s2.len() implies s2[a] != s2[b] by {
                        let a0 = if a < i as int {
                            a
                        } else {
                            a + 1
                        };
                        let b0 = if b < i as int {
                            b
                        } else {
                            b + 1
                        };
                        assert(s2[a] == orig[a0] && s2[b] == orig[b0]);
                    }
                    if s2.contains(id) {
                        let k = choose|k: int| 0 <= k < s2.len() && s2[k] == id;
                        let k0 = if k < i as int {
                            k
                        } else {
                            k + 1
                        };
                        assert(s2[k] == orig[k0]);
                        assert(orig[k0] == id && orig[i as int] == id && k0 != i as int);
                        assert(false);
                    }
                    assert forall|p: u64| p != id implies s2.contains(p) == orig.contains(p) by {
                        if orig.contains(p) {
                            let k = choose|k: int| 0 <= k < orig.len() && orig[k] == p;
                            assert(k != i as int);
                            let k2 = if k < i as int {
                                k
                            } else {
                                k - 1
                            };
                            assert(s2[k2] == orig[k]);
                            assert(s2.contains(p));
                        } else {
                            if s2.contains(p) {
                                let k = choose|k: int| 0 <= k < s2.len() && s2[k] == p;
                                let k0 = if k < i as int {
                                    k
                                } else {
                                    k + 1
                                };
                                assert(s2[k] == orig[k0]);
                                assert(false);
                            }
                        }
                    }
                }
            },
            None => {},
        }
    }

    /// The identities of every connected peer, in registry order: the
    /// target list of a plain broadcast.
    pub fn clients_id(&self) -> (r: Vec<u64>)
        ensures
            r@ == self@,
    {
        let mut out: Vec<u64> = Vec::new();
        let n = self.peers.len();
        let mut k: usize = 0;
        while k < n
            invariant
                n == self@.len(),
                0 <= k <= n,
                out@ =~= self@.take(k as int),
            decreases n - k,
        {
            out.push(self.peers[k]);
            proof {
                assert(self@.take(k as int + 1) =~= self@.take(k as int).push(self@[k as int]));
            }
            k += 1;
        }
        proof {
            assert(self@.take(n as int) =~= self@);
        }
        out
    }

    /// The target list of a broadcast that skips one sender.
    pub fn broadcast_except_targets(&self, except: u64) -> (r: Vec<u64>)
        ensures
            r@ == spec_except(self@, except),
    {
        let mut out: Vec<u64> = Vec::new();
        let n = self.peers.len();
        let mut k: usize = 0;
        while k < n
            invariant
                n == self@.len(),
                0 <= k <= n,
                out@ =~= spec_except(self@.take(k as int), except),
            decreases n - k,
        {
            let p = self.peers[k];
            if p != except {
                out.push(p);
            }
            proof {
                assert(self@.take(k as int + 1).drop_last() =~= self@.take(k as int));
                assert(self@.take(k as int + 1).last() == self@[k as int]);
                assert(out@ =~= spec_except(self@.take(k as int + 1), except));
            }
            k += 1;
        }
        proof {
            assert(self@.take(n as int) =~= self@);
        }
        out
    }
}

} // verus!
