//! Client endpoint setup policy: validating the typed server address
//! and probing a bounded window of local ports.
//!
//! Several game instances share one machine, so a client socket tries
//! the base client port and, while it is taken, the next ones — at most
//! sixteen — before failing with a typed error.  The actual binds are
//! I/O and live with the caller; the policy here decides which port to
//! try next and when to give up.

use vstd::prelude::*;

verus! {

/// Typed failures of session setup, surfaced to the role-selection
/// caller; they never bring the process down.
#[derive(Clone, Copy, Debug, PartialEq, Eq, Structural)]
pub enum BindError {
    /// Every local port in the probe window was taken.
    Client,
    /// The typed text has the right shape but is not an address.
    Server,
    /// The typed text is not four dot-separated fields.
    Format,
}

/// How many local ports a client tries before giving up.
pub const MAX_PORT_ATTEMPTS: u16 = 16;

// --- address text validation ---

pub open spec fn is_digit(c: char) -> bool {
    48 <= c as int <= 57
}

pub open spec fn digit_val(c: char) -> int {
    c as int - 48
}

/// The decimal value of a digit string.
pub open spec fn decimal_value(s: Seq<char>) -> int
    decreases s.len(),
{
    if s.len() == 0 {
        0
    } else {
        decimal_value(s.drop_last()) * 10 + digit_val(s.last())
    }
}

/// A textual octet: one to three digits whose value fits a byte.
pub open spec fn octet_text(s: Seq<char>) -> bool {
    &&& 1 <= s.len() <= 3
    &&& (forall|k: int| 0 <= k < s.len() ==> is_digit(#[trigger] s[k]))
    &&& decimal_value(s) <= 255
}

/// How many times a character occurs.
pub open spec fn count_char(s: Seq<char>, c: char) -> int
    decreases s.len(),
{
    if s.len() == 0 {
        0
    } else {
        count_char(s.drop_last(), c) + if s.last() == c {
            1int
        } else {
            0int
        }
    }
}

/// The positions split the text into four octets, and they are all of
/// its dots.
pub open spec fn ipv4_split_at(s: Seq<char>, p1: int, p2: int, p3: int) -> bool {
    &&& 0 <= p1 < p2 < p3 < s.len()
    &&& s[p1] == '.' && s[p2] == '.' && s[p3] == '.'
    &&& forall|k: int| 0 <= k < s.len() && #[trigger] s[k] == '.' ==> k == p1 || k == p2 || k == p3
    &&& octet_text(s.subrange(0, p1))
    &&& octet_text(s.subrange(p1 + 1, p2))
    &&& octet_text(s.subrange(p2 + 1, p3))
    &&& octet_text(s.subrange(p3 + 1, s.len() as int))
}

/// A dotted-quad address text.
pub open spec fn valid_ipv4_text(s: Seq<char>) -> bool {
    exists|p1: int, p2: int, p3: int| ipv4_split_at(s, p1, p2, p3)
}


/// Parses one octet field of the typed address.
fn parse_octet(s: &str, from: usize, to: usize) -> (r: Option<u8>)
    requires
        from <= to <= s@.len(),
    ensures
        match r {
            Some(v) => octet_text(s@.subrange(from as int, to as int)) && v == decimal_value(
                s@.subrange(from as int, to as int),
            ),
            None => !octet_text(s@.subrange(from as int, to as int)),
        },
{
    let len = to - from;
    if len < 1 || len > 3 {
        return None;
    }
    let ghost whole = s@.subrange(from as int, to as int);
    let mut acc: u32 = 0;
    let mut k: usize = 0;
    while k < len
        invariant
            from + len == to,
            to <= s@.len(),
            1 <= len <= 3,
            0 <= k <= len,
            whole == s@.subrange(from as int, to as int),
            forall|m: int| 0 <= m < k ==> is_digit(#[trigger] whole[m]),
            acc == decimal_value(s@.subrange(from as int, from as int + k)),
            k == 0 ==> acc == 0,
            k == 1 ==> acc <= 9,
            k == 2 ==> acc <= 99,
            k == 3 ==> acc <= 999,
        decreases len - k,
    {
        let c = s.get_char(from + k);
        let u = c as u32;
        proof {
            assert(whole[k as int] == s@[from + k]);
        }
        if u < 48 || u > 57 {
            proof {
                assert(!is_digit(whole[k as int]));
            }
            return None;
        }
        acc = acc * 10 + (u - 48);
        proof {
            assert(s@.subrange(from as int, from as int + k + 1).drop_last() =~= s@.subrange(
                from as int,
                from as int + k,
            ));
            assert(s@.subrange(from as int, from as int + k + 1).last() == s@[from as int + k]);
            assert(digit_val(s@[from as int + k]) == u - 48);
        }
        k += 1;
    }
    proof {
        assert(s@.subrange(from as int, from as int + len) == whole);
        assert forall|m: int| 0 <= m < whole.len() implies is_digit(#[trigger] whole[m]) by {}
    }
    if acc > 255 {
        return None;
    }
    Some(acc as u8)
}

/// Validates the server address the user typed: four dot-separated
/// octets.  `Format` is the wrong field count; `Server` is four fields
/// that do not form an address.  On success the four octet values are
/// returned, pinned to the text's unique dotted-quad decomposition.
pub fn parse_ipv4(ip: &str) -> (r: Result<(u8, u8, u8, u8), BindError>)
    ensures
        match r {
            Ok(o) => exists|p1: int, p2: int, p3: int|
                ipv4_split_at(ip@, p1, p2, p3) && o.0 == decimal_value(ip@.subrange(0, p1)) && o.1
                    == decimal_value(ip@.subrange(p1 + 1, p2)) && o.2 == decimal_value(
                    ip@.subrange(p2 + 1, p3),
                ) && o.3 == decimal_value(ip@.subrange(p3 + 1, ip@.len() as int)),
            Err(BindError::Format) => count_char(ip@, '.') != 3,
            Err(BindError::Server) => count_char(ip@, '.') == 3 && !valid_ipv4_text(ip@),
            Err(BindError::Client) => false,
        },
{
    let s = ip;
    let n = s.unicode_len();
    let mut ds: Vec<usize> = Vec::new();
    let mut k: usize = 0;
    while k < n
        invariant
            n == s@.len(),
            0 <= k <= n,
            ds@.len() == count_char(s@.take(k as int), '.'),
            forall|j: int| 0 <= j < ds@.len() ==> #[trigger] ds@[j] < k && s@[ds@[j] as int] == '.',
            forall|i: int, j: int| 0 <= i < j < ds@.len() ==> ds@[i] < ds@[j],
            forall|m: int|
                0 <= m < k && #[trigger] s@[m] == '.' ==> exists|j: int|
                    0 <= j < ds@.len() && ds@[j] == m,
        decreases n - k,
    {
        let c = s.get_char(k);
        proof {
            assert(s@.take(k as int + 1).drop_last() =~= s@.take(k as int));
            assert(s@.take(k as int + 1).last() == s@[k as int]);
        }
        if c == '.' {
            let ghost before = ds@;
            ds.push(k);
            proof {
                assert(ds@[ds@.len() - 1] == k as int);
                assert forall|m: int| 0 <= m < k + 1 && #[trigger] s@[m] == '.' implies exists|
                    j: int,
                |
                    0 <= j < ds@.len() && ds@[j] == m by {
                    if m < k {
                        let j = choose|j: int| 0 <= j < before.len() && before[j] == m;
                        assert(ds@[j] == m);
                    } else {
                        assert(ds@[ds@.len() - 1] == m);
                    }
                }
            }
        }
        k += 1;
    }
    proof {
        assert(s@.take(n as int) =~= s@);
    }
    if ds.len() != 3 {
        return Err(BindError::Format);
    }
    let q1 = ds[0];
    let q2 = ds[1];
    let q3 = ds[2];
    proof {
        assert(q1 < q2 < q3 < n);
        assert(s@[q1 as int] == '.' && s@[q2 as int] == '.' && s@[q3 as int] == '.');
        assert forall|m: int| 0 <= m < s@.len() && #[trigger] s@[m] == '.' implies m == q1 || m
            == q2 || m == q3 by {
            let j = choose|j: int| 0 <= j < ds@.len() && ds@[j] == m;
            assert(j == 0 || j == 1 || j == 2);
        }
    }
    let a = parse_octet(s, 0, q1);
    let b = parse_octet(s, q1 + 1, q2);
    let c = parse_octet(s, q2 + 1, q3);
    let d = parse_octet(s, q3 + 1, n);
    match (a, b, c, d) {
        (Some(a), Some(b), Some(c), Some(d)) => {
            proof {
                assert(ipv4_split_at(s@, q1 as int, q2 as int, q3 as int));
            }
            Ok((a, b, c, d))
        },
        _ => {
            proof {
                if valid_ipv4_text(s@) {
                    let (p1, p2, p3) = choose|p1: int, p2: int, p3: int|
                        ipv4_split_at(s@, p1, p2, p3);
                    assert(s@[p1] == '.' && s@[p2] == '.' && s@[p3] == '.');
                    assert(p1 == q1 || p1 == q2 || p1 == q3);
                    assert(p2 == q1 || p2 == q2 || p2 == q3);
                    assert(p3 == q1 || p3 == q2 || p3 == q3);
                    assert(q1 == p1 || q1 == p2 || q1 == p3);
                    assert(q2 == p1 || q2 == p2 || q2 == p3);
                    assert(q3 == p1 || q3 == p2 || q3 == p3);
                    assert(p1 == q1 && p2 == q2 && p3 == q3);
                    assert(false);
                }
            }
            Err(BindError::Server)
        },
    }
}

// --- the bounded port probe ---

/// The state of a port probe: the base port and how many binds have
/// failed so far.  The caller binds `current_port`, and on failure
/// calls `fail` and retries, until `exhausted`.
#[derive(Clone, Copy, Debug, PartialEq, Eq, Structural)]
pub struct PortBinder {
    pub base: u16,
    pub attempt: u16,
}

impl PortBinder {
    /// The probe window stays within the port range.
    pub open spec fn wf(&self) -> bool {
        &&& self.attempt <= MAX_PORT_ATTEMPTS
        &&& self.base + MAX_PORT_ATTEMPTS <= u16::MAX
    }

    /// A fresh probe at the base client port.
    pub fn new(base: u16) -> (r: PortBinder)
        requires
            base + MAX_PORT_ATTEMPTS <= u16::MAX,
        ensures
            r.wf(),
            r.base == base,
            r.attempt == 0,
    {
        PortBinder { base, attempt: 0 }
    }

    /// True when the whole window was tried without success.
    pub fn exhausted(&self) -> (r: bool)
        ensures
            r == (self.attempt >= MAX_PORT_ATTEMPTS),
    {
        self.attempt >= MAX_PORT_ATTEMPTS
    }

    /// The next port to try.
    pub fn current_port(&self) -> (r: u16)
        requires
            self.wf(),
            self.attempt < MAX_PORT_ATTEMPTS,
        ensures
            r == self.base + self.attempt,
    {
        self.base + self.attempt
    }

    /// Records one failed bind and moves to the next port.
    pub fn fail(&mut self)
        requires
            old(self).wf(),
            old(self).attempt < MAX_PORT_ATTEMPTS,
        ensures
            final(self).wf(),
            final(self).base == old(self).base,
            final(self).attempt == old(self).attempt + 1,
    {
        self.attempt = self.attempt + 1;
    }
}

/// Whether a port is among the occupied ones.
fn port_in_use(occupied: &Vec<u16>, p: u16) -> (r: bool)
    ensures
        r == occupied@.contains(p),
{
    let n = occupied.len();
    let mut k: usize = 0;
    while k < n
        invariant
            n == occupied@.len(),
            0 <= k <= n,
            forall|m: int| 0 <= m < k ==> occupied@[m] != p,
        decreases n - k,
    {
        if occupied[k] == p {
            proof {
                assert(occupied@[k as int] == p);
            }
            return true;
        }
        k += 1;
    }
    proof {
        if occupied@.contains(p) {
            let m = choose|m: int| 0 <= m < occupied@.len() && occupied@[m] == p;
            assert(false);
        }
    }
    false
}

/// The whole retry policy against a known occupancy: the selection
/// lands on the first free port of the window — so a client whose base
/// port another instance holds succeeds on a later port — and fails
/// with the typed error exactly when the whole window is taken.
pub fn select_client_port(base: u16, occupied: &Vec<u16>) -> (r: Result<u16, BindError>)
    requires
        base + MAX_PORT_ATTEMPTS <= u16::MAX,
    ensures
        match r {
            Ok(p) => base <= p < base + MAX_PORT_ATTEMPTS && !occupied@.contains(p) && (forall|
                q: u16,
            | base <= q < p ==> occupied@.contains(q)),
            Err(e) => e == BindError::Client && (forall|q: u16|
                base <= q < base + MAX_PORT_ATTEMPTS ==> occupied@.contains(q)),
        },
{
    let mut binder = PortBinder::new(base);
    while !binder.exhausted()
        invariant
            binder.wf(),
            binder.base == base,
            base + MAX_PORT_ATTEMPTS <= u16::MAX,
            forall|q: u16| base <= q < base + binder.attempt ==> occupied@.contains(q),
        decreases MAX_PORT_ATTEMPTS - binder.attempt,
    {
        let p = binder.current_port();
        if !port_in_use(occupied, p) {
            return Ok(p);
        }
        binder.fail();
    }
    Err(BindError::Client)
}

} // verus!
