//! Binary codec for the message families.
//!
//! The format is deterministic and self-describing: one tag byte selects
//! the variant, then the fields follow in declaration order.  Integers
//! are little-endian and fixed-width; text is a character count followed
//! by one 4-byte code point per character; a map grid is a row count
//! followed by each row as a length-prefixed byte string.
//!
//! For every family, `decode` accepts exactly the byte strings that
//! `encode` produces: the two round-trip lemmas per family state that
//! decoding an encoding yields the message back, and that any byte
//! string that decodes is the encoding of its result.

use crate::geometry::Position2;
use crate::geometry::Position3;
use crate::wire::dec_char;
use crate::wire::dec_i32;
use crate::wire::dec_u64;
use crate::wire::enc_char;
use crate::wire::enc_i32;
use crate::wire::enc_u64;
use crate::wire::i32_bits;
use crate::wire::lemma_i32_bits_canon;
use crate::wire::lemma_i32_bits_round;
use crate::wire::lemma_u16_round;
use crate::wire::lemma_u32_canon;
use crate::wire::lemma_u32_round;
use crate::wire::lemma_u64_canon;
use crate::wire::lemma_u64_round;
use crate::wire::spec_char_le;
use crate::wire::spec_i32_at;
use crate::wire::spec_i32_le;
use crate::wire::spec_u16_at;
use crate::wire::spec_u16_le;
use crate::wire::spec_u32_at;
use crate::wire::spec_u32_le;
use crate::wire::spec_u64_at;
use crate::wire::spec_u64_le;
use vstd::prelude::*;
use vstd::utf8::char_is_scalar;
use vstd::utf8::char_u32_cast;
use vstd::utf8::is_scalar;

verus! {

// --- reading one primitive out of a larger buffer ---

/// Reading where an encoding was laid down yields the encoded value.
pub proof fn lemma_read_u16(b: Seq<u8>, i: int, v: u16)
    requires
        0 <= i,
        i + 2 <= b.len(),
        b.subrange(i, i + 2) == spec_u16_le(v),
    ensures
        spec_u16_at(b, i) == v,
{
    assert(b.subrange(i, i + 2)[0] == b[i]);
    assert(b.subrange(i, i + 2)[1] == b[i + 1]);
    lemma_u16_round(v);
}

pub proof fn lemma_read_u32(b: Seq<u8>, i: int, v: u32)
    requires
        0 <= i,
        i + 4 <= b.len(),
        b.subrange(i, i + 4) == spec_u32_le(v),
    ensures
        spec_u32_at(b, i) == v,
{
    assert forall|k: int| 0 <= k < 4 implies b[i + k] == spec_u32_le(v)[k] by {
        assert(b.subrange(i, i + 4)[k] == b[i + k]);
    }
    lemma_u32_round(v);
}

pub proof fn lemma_read_u64(b: Seq<u8>, i: int, v: u64)
    requires
        0 <= i,
        i + 8 <= b.len(),
        b.subrange(i, i + 8) == spec_u64_le(v),
    ensures
        spec_u64_at(b, i) == v,
{
    assert forall|k: int| 0 <= k < 8 implies b[i + k] == spec_u64_le(v)[k] by {
        assert(b.subrange(i, i + 8)[k] == b[i + k]);
    }
    lemma_u64_round(v);
}

pub proof fn lemma_read_i32(b: Seq<u8>, i: int, v: i32)
    requires
        0 <= i,
        i + 4 <= b.len(),
        b.subrange(i, i + 4) == spec_i32_le(v),
    ensures
        spec_i32_at(b, i) == v,
{
    lemma_read_u32(b, i, i32_bits(v));
    lemma_i32_bits_round(v);
}

// --- positions ---

pub open spec fn spec_pos3_le(p: Position3) -> Seq<u8> {
    spec_i32_le(p.x) + spec_i32_le(p.y) + spec_i32_le(p.z)
}

pub open spec fn spec_pos3_at(b: Seq<u8>, i: int) -> Position3 {
    Position3 { x: spec_i32_at(b, i), y: spec_i32_at(b, i + 4), z: spec_i32_at(b, i + 8) }
}

pub open spec fn spec_pos2_le(p: Position2) -> Seq<u8> {
    spec_i32_le(p.x) + spec_i32_le(p.y)
}

pub open spec fn spec_pos2_at(b: Seq<u8>, i: int) -> Position2 {
    Position2 { x: spec_i32_at(b, i), y: spec_i32_at(b, i + 4) }
}

/// Reading a position where one was laid down in a larger buffer.
pub proof fn lemma_read_pos3_cat(pre: Seq<u8>, p: Position3, post: Seq<u8>)
    ensures
        spec_pos3_at(pre + spec_pos3_le(p) + post, pre.len() as int) == p,
{
    let b = pre + spec_pos3_le(p) + post;
    let i = pre.len() as int;
    assert(b.subrange(i, i + 4) =~= spec_i32_le(p.x));
    assert(b.subrange(i + 4, i + 8) =~= spec_i32_le(p.y));
    assert(b.subrange(i + 8, i + 12) =~= spec_i32_le(p.z));
    lemma_read_i32(b, i, p.x);
    lemma_read_i32(b, i + 4, p.y);
    lemma_read_i32(b, i + 8, p.z);
}

pub proof fn lemma_read_pos2_cat(pre: Seq<u8>, p: Position2, post: Seq<u8>)
    ensures
        spec_pos2_at(pre + spec_pos2_le(p) + post, pre.len() as int) == p,
{
    let b = pre + spec_pos2_le(p) + post;
    let i = pre.len() as int;
    assert(b.subrange(i, i + 4) =~= spec_i32_le(p.x));
    assert(b.subrange(i + 4, i + 8) =~= spec_i32_le(p.y));
    lemma_read_i32(b, i, p.x);
    lemma_read_i32(b, i + 4, p.y);
}

pub fn enc_pos3(out: &mut Vec<u8>, p: &Position3)
    ensures
        final(out)@ =~= old(out)@ + spec_pos3_le(*p),
{
    enc_i32(out, p.x);
    enc_i32(out, p.y);
    enc_i32(out, p.z);
}

pub fn enc_pos2(out: &mut Vec<u8>, p: &Position2)
    ensures
        final(out)@ =~= old(out)@ + spec_pos2_le(*p),
{
    enc_i32(out, p.x);
    enc_i32(out, p.y);
}

pub fn dec_pos3(b: &Vec<u8>, pos: usize) -> (r: Option<(Position3, usize)>)
    ensures
        match r {
            Some((p, q)) => pos + 12 <= b@.len() && q == pos + 12 && p == spec_pos3_at(
                b@,
                pos as int,
            ),
            None => pos + 12 > b@.len(),
        },
{
    match dec_i32(b, pos) {
        Some((x, q1)) => match dec_i32(b, q1) {
            Some((y, q2)) => match dec_i32(b, q2) {
                Some((z, q3)) => Some((Position3 { x, y, z }, q3)),
                None => None,
            },
            None => None,
        },
        None => None,
    }
}

pub fn dec_pos2(b: &Vec<u8>, pos: usize) -> (r: Option<(Position2, usize)>)
    ensures
        match r {
            Some((p, q)) => pos + 8 <= b@.len() && q == pos + 8 && p == spec_pos2_at(
                b@,
                pos as int,
            ),
            None => pos + 8 > b@.len(),
        },
{
    match dec_i32(b, pos) {
        Some((x, q1)) => match dec_i32(b, q1) {
            Some((y, q2)) => Some((Position2 { x, y }, q2)),
            None => None,
        },
        None => None,
    }
}

// --- text: a character count, then 4 bytes per character ---

/// The encoding of a character sequence, one code point after another.
pub open spec fn spec_chars(s: Seq<char>) -> Seq<u8>
    decreases s.len(),
{
    if s.len() == 0 {
        Seq::empty()
    } else {
        spec_char_le(s[0]) + spec_chars(s.drop_first())
    }
}

/// The encoding of a text field: length, then the characters.
pub open spec fn spec_string(s: Seq<char>) -> Seq<u8> {
    spec_u64_le(s.len() as u64) + spec_chars(s)
}

/// A text field fits the wire when its length fits the length prefix.
pub open spec fn str_encodable(s: Seq<char>) -> bool {
    s.len() < 0x10000000000000000
}

/// The code point of the `k`-th character of a text region at `i`.
pub open spec fn char_code_at(b: Seq<u8>, i: int, k: int) -> u32 {
    spec_u32_at(b, i + 4 * k)
}

/// All `n` code points of the region are Unicode scalars.
pub open spec fn chars_valid(b: Seq<u8>, i: int, n: int) -> bool {
    forall|k: int| 0 <= k < n ==> is_scalar(#[trigger] char_code_at(b, i, k))
}

/// The characters of a valid text region.
pub open spec fn spec_chars_at(b: Seq<u8>, i: int, n: int) -> Seq<char> {
    Seq::new(n as nat, |k: int| char_code_at(b, i, k) as char)
}

/// Reading a text field at `i`: the characters and the position after
/// them, or nothing when the buffer is short or a code point is not a
/// scalar.
pub open spec fn spec_string_at(b: Seq<u8>, i: int) -> Option<(Seq<char>, int)> {
    if i + 8 > b.len() {
        None
    } else {
        let n = spec_u64_at(b, i) as int;
        if i + 8 + 4 * n > b.len() {
            None
        } else if !chars_valid(b, i + 8, n) {
            None
        } else {
            Some((spec_chars_at(b, i + 8, n), i + 8 + 4 * n))
        }
    }
}

pub proof fn lemma_chars_len(s: Seq<char>)
    ensures
        spec_chars(s).len() == 4 * s.len(),
    decreases s.len(),
{
    if s.len() > 0 {
        lemma_chars_len(s.drop_first());
    }
}

/// Appending one character appends its four bytes.
pub proof fn lemma_chars_snoc(s: Seq<char>, c: char)
    ensures
        spec_chars(s.push(c)) =~= spec_chars(s) + spec_char_le(c),
    decreases s.len(),
{
    if s.len() == 0 {
        reveal_with_fuel(spec_chars, 2);
        assert(s.push(c).drop_first() =~= Seq::<char>::empty());
        assert(s.push(c)[0] == c);
    } else {
        assert(s.push(c).drop_first() =~= s.drop_first().push(c));
        lemma_chars_snoc(s.drop_first(), c);
        assert(spec_chars(s.push(c)) == spec_char_le(s[0]) + spec_chars(s.drop_first().push(c)));
        assert(spec_char_le(s[0]) + (spec_chars(s.drop_first()) + spec_char_le(c)) =~= (
        spec_char_le(s[0]) + spec_chars(s.drop_first())) + spec_char_le(c));
    }
}

/// A laid-down character region reads back as the same characters.
pub proof fn lemma_chars_round(s: Seq<char>, pre: Seq<u8>, post: Seq<u8>)
    ensures
        chars_valid(pre + spec_chars(s) + post, pre.len() as int, s.len() as int),
        spec_chars_at(pre + spec_chars(s) + post, pre.len() as int, s.len() as int) =~= s,
    decreases s.len(),
{
    lemma_chars_len(s);
    let b = pre + spec_chars(s) + post;
    let i = pre.len() as int;
    if s.len() == 0 {
    } else {
        let c = s[0];
        let u = c as u32;
        let rest = s.drop_first();
        let pre2 = pre + spec_char_le(c);
        lemma_chars_len(rest);
        assert(b =~= pre2 + spec_chars(rest) + post);
        lemma_chars_round(rest, pre2, post);
        // the first code point reads back as c
        assert(b.subrange(i, i + 4) =~= spec_u32_le(u));
        lemma_read_u32(b, i, u);
        char_is_scalar(c);
        char_u32_cast(c, u);
        assert(char_code_at(b, i, 0) == u);
        // the remaining code points sit at the same offsets
        assert forall|k: int| 0 <= k < s.len() implies is_scalar(#[trigger] char_code_at(b, i, k))
            && char_code_at(b, i, k) as char == s[k] by {
            if k == 0 {
            } else {
                assert(char_code_at(b, i + 4, k - 1) == char_code_at(b, i, k));
                assert(is_scalar(char_code_at(b, i + 4, k - 1)));
                assert(char_code_at(b, i + 4, k - 1) as char == rest[k - 1]);
            }
        }
        assert(spec_chars_at(b, i, s.len() as int) =~= s);
    }
}

/// A readable character region is the encoding of what it reads as.
pub proof fn lemma_chars_canon(b: Seq<u8>, i: int, n: int)
    requires
        0 <= i,
        0 <= n,
        i + 4 * n <= b.len(),
        chars_valid(b, i, n),
    ensures
        spec_chars(spec_chars_at(b, i, n)) =~= b.subrange(i, i + 4 * n),
    decreases n,
{
    let s = spec_chars_at(b, i, n);
    if n == 0 {
    } else {
        let u = char_code_at(b, i, 0);
        assert(is_scalar(u));
        let c = u as char;
        assert(c as u32 == u);
        assert(chars_valid(b, i + 4, n - 1)) by {
            assert forall|k: int| 0 <= k < n - 1 implies is_scalar(
                #[trigger] char_code_at(b, i + 4, k),
            ) by {
                assert(char_code_at(b, i + 4, k) == char_code_at(b, i, k + 1));
            }
        }
        lemma_chars_canon(b, i + 4, n - 1);
        assert(s.drop_first() =~= spec_chars_at(b, i + 4, n - 1)) by {
            assert forall|k: int| 0 <= k < n - 1 implies s.drop_first()[k] == spec_chars_at(
                b,
                i + 4,
                n - 1,
            )[k] by {
                assert(char_code_at(b, i + 4, k) == char_code_at(b, i, k + 1));
            }
        }
        lemma_u32_canon(b, i);
        assert(spec_char_le(s[0]) =~= b.subrange(i, i + 4));
        assert(spec_chars(s) =~= b.subrange(i, i + 4 * n));
    }
}

/// A laid-down text field reads back as the same text.
pub proof fn lemma_string_round(s: Seq<char>, pre: Seq<u8>, post: Seq<u8>)
    requires
        str_encodable(s),
    ensures
        spec_string_at(pre + spec_string(s) + post, pre.len() as int) == Some(
            (s, pre.len() + 8 + 4 * s.len() as int),
        ),
{
    lemma_chars_len(s);
    let b = pre + spec_string(s) + post;
    let i = pre.len() as int;
    let pre2 = pre + spec_u64_le(s.len() as u64);
    assert(b =~= pre2 + spec_chars(s) + post);
    assert(b.subrange(i, i + 8) =~= spec_u64_le(s.len() as u64));
    lemma_read_u64(b, i, s.len() as u64);
    lemma_chars_round(s, pre2, post);
    assert(spec_chars_at(b, i + 8, s.len() as int) =~= s);
}

/// A readable text field is the encoding of what it reads as.
pub proof fn lemma_string_canon(b: Seq<u8>, i: int, s: Seq<char>, j: int)
    requires
        0 <= i,
        spec_string_at(b, i) == Some((s, j)),
    ensures
        str_encodable(s),
        j == i + 8 + 4 * s.len(),
        j <= b.len(),
        spec_string(s) =~= b.subrange(i, j),
{
    let n = spec_u64_at(b, i) as int;
    lemma_chars_canon(b, i + 8, n);
    lemma_u64_canon(b, i);
    assert(spec_u64_le(spec_u64_at(b, i)) =~= b.subrange(i, i + 8));
    assert(spec_string(s) =~= b.subrange(i, i + 8) + b.subrange(i + 8, i + 8 + 4 * n));
    assert(spec_string(s) =~= b.subrange(i, j));
}

// --- map grids: a row count, then each row length-prefixed ---

/// The encoding of one grid row.
pub open spec fn spec_row(r: Seq<u8>) -> Seq<u8> {
    spec_u64_le(r.len() as u64) + r
}

/// The encoding of the rows of a grid, one after another.
pub open spec fn spec_rows(rows: Seq<Seq<u8>>) -> Seq<u8>
    decreases rows.len(),
{
    if rows.len() == 0 {
        Seq::empty()
    } else {
        spec_row(rows[0]) + spec_rows(rows.drop_first())
    }
}

/// The encoding of a grid: row count, then the rows.
pub open spec fn spec_grid(g: Seq<Seq<u8>>) -> Seq<u8> {
    spec_u64_le(g.len() as u64) + spec_rows(g)
}

/// A grid fits the wire when its row count and row lengths fit their
/// length prefixes.
pub open spec fn grid_encodable(g: Seq<Seq<u8>>) -> bool {
    &&& g.len() < 0x10000000000000000
    &&& forall|k: int| 0 <= k < g.len() ==> (#[trigger] g[k]).len() < 0x10000000000000000
}

/// Reading `n` rows at `i`: the rows and the position after them, or
/// nothing when the buffer runs short.
pub open spec fn spec_rows_at(b: Seq<u8>, i: int, n: int) -> Option<(Seq<Seq<u8>>, int)>
    decreases n,
{
    if n <= 0 {
        Some((Seq::empty(), i))
    } else if i + 8 > b.len() {
        None
    } else {
        let len = spec_u64_at(b, i) as int;
        if i + 8 + len > b.len() {
            None
        } else {
            match spec_rows_at(b, i + 8 + len, n - 1) {
                Some((rows, j)) => Some((seq![b.subrange(i + 8, i + 8 + len)] + rows, j)),
                None => None,
            }
        }
    }
}

/// Reading a grid at `i`.
pub open spec fn spec_grid_at(b: Seq<u8>, i: int) -> Option<(Seq<Seq<u8>>, int)> {
    if i + 8 > b.len() {
        None
    } else {
        spec_rows_at(b, i + 8, spec_u64_at(b, i) as int)
    }
}

/// What a successful row read guarantees about its extent.
pub proof fn lemma_rows_bounds(b: Seq<u8>, i: int, n: int, rows: Seq<Seq<u8>>, j: int)
    requires
        0 <= i <= b.len(),
        spec_rows_at(b, i, n) == Some((rows, j)),
    ensures
        rows.len() == if n <= 0 {
            0
        } else {
            n
        },
        i + 8 * (if n <= 0 {
            0
        } else {
            n
        }) <= j <= b.len(),
    decreases n,
{
    if n <= 0 {
    } else {
        let len = spec_u64_at(b, i) as int;
        let rest = spec_rows_at(b, i + 8 + len, n - 1);
        match rest {
            Some((rows2, j2)) => {
                lemma_rows_bounds(b, i + 8 + len, n - 1, rows2, j2);
            },
            None => {
                assert(false);
            },
        }
    }
}

/// Reading `k + n` rows is reading `k`, then `n` from where they ended.
pub proof fn lemma_rows_compose(b: Seq<u8>, i: int, k: int, n: int)
    requires
        0 <= k,
        0 <= n,
    ensures
        spec_rows_at(b, i, k + n) == match spec_rows_at(b, i, k) {
            Some((r1, m)) => match spec_rows_at(b, m, n) {
                Some((r2, j)) => Some((r1 + r2, j)),
                None => None::<(Seq<Seq<u8>>, int)>,
            },
            None => None::<(Seq<Seq<u8>>, int)>,
        },
    decreases k,
{
    if k <= 0 {
        match spec_rows_at(b, i, n) {
            Some((r2, j)) => {
                assert(Seq::<Seq<u8>>::empty() + r2 =~= r2);
            },
            None => {},
        }
    } else {
        if i + 8 > b.len() {
        } else {
            let len = spec_u64_at(b, i) as int;
            if i + 8 + len > b.len() {
            } else {
                let row = b.subrange(i + 8, i + 8 + len);
                lemma_rows_compose(b, i + 8 + len, k - 1, n);
                match spec_rows_at(b, i + 8 + len, k - 1) {
                    Some((r1, m)) => {
                        match spec_rows_at(b, m, n) {
                            Some((r2, j)) => {
                                assert(seq![row] + (r1 + r2) =~= (seq![row] + r1) + r2);
                            },
                            None => {},
                        }
                    },
                    None => {},
                }
            }
        }
    }
}

/// Appending one row appends its encoding.
pub proof fn lemma_rows_snoc(rows: Seq<Seq<u8>>, r: Seq<u8>)
    ensures
        spec_rows(rows.push(r)) =~= spec_rows(rows) + spec_row(r),
    decreases rows.len(),
{
    if rows.len() == 0 {
        reveal_with_fuel(spec_rows, 2);
        assert(rows.push(r).drop_first() =~= Seq::<Seq<u8>>::empty());
        assert(rows.push(r)[0] == r);
    } else {
        assert(rows.push(r).drop_first() =~= rows.drop_first().push(r));
        lemma_rows_snoc(rows.drop_first(), r);
        assert(spec_rows(rows.push(r)) == spec_row(rows[0]) + spec_rows(
            rows.drop_first().push(r),
        ));
        assert(spec_row(rows[0]) + (spec_rows(rows.drop_first()) + spec_row(r)) =~= (spec_row(
            rows[0],
        ) + spec_rows(rows.drop_first())) + spec_row(r));
    }
}

/// Laid-down rows read back as the same rows.
#[verifier::rlimit(100)]
pub proof fn lemma_rows_round(rows: Seq<Seq<u8>>, pre: Seq<u8>, post: Seq<u8>)
    requires
        forall|k: int| 0 <= k < rows.len() ==> (#[trigger] rows[k]).len() < 0x10000000000000000,
    ensures
        spec_rows_at(pre + spec_rows(rows) + post, pre.len() as int, rows.len() as int) == Some(
            (rows, pre.len() + spec_rows(rows).len() as int),
        ),
    decreases rows.len(),
{
    let b = pre + spec_rows(rows) + post;
    let i = pre.len() as int;
    if rows.len() == 0 {
        assert(spec_rows_at(b, i, 0) == Some((Seq::<Seq<u8>>::empty(), i)));
        assert(Seq::<Seq<u8>>::empty() =~= rows);
    } else {
        let row = rows[0];
        let len = row.len() as int;
        let rest = rows.drop_first();
        let pre2 = pre + spec_row(row);
        assert(b =~= pre2 + spec_rows(rest) + post);
        lemma_rows_round(rest, pre2, post);
        assert(b.subrange(i, i + 8) =~= spec_u64_le(row.len() as u64));
        lemma_read_u64(b, i, row.len() as u64);
        assert(b.subrange(i + 8, i + 8 + len) =~= row);
        assert(spec_rows_at(b, i + 8 + len, rows.len() - 1) == Some(
            (rest, pre2.len() + spec_rows(rest).len() as int),
        ));
        assert(seq![row] + rest =~= rows);
        assert(pre2.len() + spec_rows(rest).len() as int == pre.len() + spec_rows(rows).len() as int);
    }
}

/// Readable rows are the encoding of what they read as.
pub proof fn lemma_rows_canon(b: Seq<u8>, i: int, n: int, rows: Seq<Seq<u8>>, j: int)
    requires
        0 <= i <= b.len(),
        0 <= n,
        spec_rows_at(b, i, n) == Some((rows, j)),
    ensures
        rows.len() == n,
        i <= j <= b.len(),
        forall|k: int| 0 <= k < rows.len() ==> (#[trigger] rows[k]).len() < 0x10000000000000000,
        spec_rows(rows) =~= b.subrange(i, j),
    decreases n,
{
    lemma_rows_bounds(b, i, n, rows, j);
    if n == 0 {
    } else {
        let len = spec_u64_at(b, i) as int;
        let row = b.subrange(i + 8, i + 8 + len);
        match spec_rows_at(b, i + 8 + len, n - 1) {
            Some((rest, j2)) => {
                lemma_rows_canon(b, i + 8 + len, n - 1, rest, j2);
                assert(rows == seq![row] + rest);
                assert(rows[0] == row);
                assert(rows.drop_first() =~= rest);
                lemma_u64_canon(b, i);
                assert(spec_u64_le(row.len() as u64) =~= b.subrange(i, i + 8));
                assert(spec_rows(rows) == spec_row(row) + spec_rows(rest));
                assert(spec_rows(rows) =~= b.subrange(i, j));
            },
            None => {
                assert(false);
            },
        }
    }
}

/// A laid-down grid reads back as the same grid.
pub proof fn lemma_grid_round(g: Seq<Seq<u8>>, pre: Seq<u8>, post: Seq<u8>)
    requires
        grid_encodable(g),
    ensures
        spec_grid_at(pre + spec_grid(g) + post, pre.len() as int) == Some(
            (g, pre.len() + spec_grid(g).len() as int),
        ),
{
    let b = pre + spec_grid(g) + post;
    let i = pre.len() as int;
    let pre2 = pre + spec_u64_le(g.len() as u64);
    assert(b =~= pre2 + spec_rows(g) + post);
    assert(b.subrange(i, i + 8) =~= spec_u64_le(g.len() as u64));
    lemma_read_u64(b, i, g.len() as u64);
    lemma_rows_round(g, pre2, post);
}

/// A readable grid is the encoding of what it reads as.
pub proof fn lemma_grid_canon(b: Seq<u8>, i: int, g: Seq<Seq<u8>>, j: int)
    requires
        0 <= i,
        spec_grid_at(b, i) == Some((g, j)),
    ensures
        grid_encodable(g),
        i + 8 <= j <= b.len(),
        spec_grid(g) =~= b.subrange(i, j),
{
    let n = spec_u64_at(b, i) as int;
    lemma_rows_canon(b, i + 8, n, g, j);
    lemma_u64_canon(b, i);
    assert(spec_u64_le(g.len() as u64) =~= b.subrange(i, i + 8));
    assert(spec_grid(g) =~= b.subrange(i, i + 8) + b.subrange(i + 8, j));
    assert(spec_grid(g) =~= b.subrange(i, j));
}

pub fn enc_bytes(out: &mut Vec<u8>, r: &Vec<u8>)
    ensures
        final(out)@ =~= old(out)@ + r@,
{
    let ghost base = out@;
    let mut m: usize = 0;
    while m < r.len()
        invariant
            0 <= m <= r@.len(),
            out@ =~= base + r@.subrange(0, m as int),
        decreases r@.len() - m,
    {
        out.push(r[m]);
        proof {
            assert(r@.subrange(0, m as int + 1) =~= r@.subrange(0, m as int).push(r@[m as int]));
        }
        m += 1;
    }
    proof {
        assert(r@.subrange(0, r@.len() as int) =~= r@);
    }
}

pub fn enc_row(out: &mut Vec<u8>, r: &Vec<u8>)
    ensures
        final(out)@ =~= old(out)@ + spec_row(r@),
{
    enc_u64(out, r.len() as u64);
    enc_bytes(out, r);
}

pub fn enc_grid(out: &mut Vec<u8>, g: &Vec<Vec<u8>>)
    ensures
        final(out)@ =~= old(out)@ + spec_grid(g.deep_view()),
{
    let ghost base = out@;
    let n = g.len();
    enc_u64(out, n as u64);
    let mut k: usize = 0;
    while k < n
        invariant
            n == g@.len(),
            g.deep_view().len() == n,
            0 <= k <= n,
            out@ =~= base + spec_u64_le(n as u64) + spec_rows(g.deep_view().take(k as int)),
        decreases n - k,
    {
        enc_row(out, &g[k]);
        proof {
            assert(g.deep_view()[k as int] == g@[k as int]@);
            lemma_rows_snoc(g.deep_view().take(k as int), g@[k as int]@);
            assert(g.deep_view().take(k as int + 1) =~= g.deep_view().take(k as int).push(
                g.deep_view()[k as int],
            ));
        }
        k += 1;
    }
    proof {
        assert(g.deep_view().take(n as int) =~= g.deep_view());
    }
}

pub fn dec_grid(b: &Vec<u8>, pos: usize) -> (r: Option<(Vec<Vec<u8>>, usize)>)
    ensures
        match r {
            Some((g, p)) => spec_grid_at(b@, pos as int) == Some((g.deep_view(), p as int)) && p
                <= b@.len(),
            None => spec_grid_at(b@, pos as int) is None,
        },
{
    let (n64, p0) = match dec_u64(b, pos) {
        Some(x) => x,
        None => {
            return None;
        },
    };
    if n64 > ((b.len() - p0) / 8) as u64 {
        proof {
            match spec_rows_at(b@, p0 as int, n64 as int) {
                Some((rows, j)) => {
                    lemma_rows_bounds(b@, p0 as int, n64 as int, rows, j);
                    assert(false);
                },
                None => {},
            }
        }
        return None;
    }
    let n = n64 as usize;
    let mut rows: Vec<Vec<u8>> = Vec::new();
    let mut p: usize = p0;
    let mut j: usize = 0;
    while j < n
        invariant
            p0 == pos + 8,
            n == n64,
            n64 == spec_u64_at(b@, pos as int),
            pos + 8 <= b@.len(),
            0 <= j <= n,
            p <= b@.len(),
            b@.len() <= usize::MAX,
            spec_rows_at(b@, p0 as int, j as int) == Some((rows.deep_view(), p as int)),
        decreases n - j,
    {
        let ghost done = rows.deep_view();
        let (l64, q) = match dec_u64(b, p) {
            Some(x) => x,
            None => {
                proof {
                    lemma_rows_compose(b@, p0 as int, j as int, n as int - j as int);
                }
                return None;
            },
        };
        if l64 > (b.len() - q) as u64 {
            proof {
                lemma_rows_compose(b@, p0 as int, j as int, n as int - j as int);
            }
            return None;
        }
        let l = l64 as usize;
        let mut row: Vec<u8> = Vec::new();
        let mut m: usize = 0;
        while m < l
            invariant
                q + l <= b@.len(),
                b@.len() <= usize::MAX,
                0 <= m <= l,
                row@ =~= b@.subrange(q as int, q as int + m as int),
            decreases l - m,
        {
            row.push(b[q + m]);
            proof {
                assert(b@.subrange(q as int, q as int + m as int + 1) =~= b@.subrange(
                    q as int,
                    q as int + m as int,
                ).push(b@[q as int + m as int]));
            }
            m += 1;
        }
        let ghost rowv = row@;
        proof {
            assert(row.deep_view() =~= rowv);
        }
        rows.push(row);
        proof {
            assert(spec_rows_at(b@, q as int + l as int, 0) == Some(
                (Seq::<Seq<u8>>::empty(), q as int + l as int),
            ));
            assert(spec_rows_at(b@, p as int, 1) == Some(
                (seq![b@.subrange(p as int + 8, p as int + 8 + l as int)], q as int + l as int),
            )) by {
                assert(seq![b@.subrange(p as int + 8, p as int + 8 + l as int)]
                    + Seq::<Seq<u8>>::empty() =~= seq![
                    b@.subrange(p as int + 8, p as int + 8 + l as int),
                ]);
            }
            lemma_rows_compose(b@, p0 as int, j as int, 1);
            assert(rowv =~= b@.subrange(p as int + 8, p as int + 8 + l as int));
            assert(rows.deep_view() =~= done + seq![rowv]);
            assert(done + seq![b@.subrange(p as int + 8, p as int + 8 + l as int)]
                =~= rows.deep_view());
        }
        p = q + l;
        j += 1;
    }
    Some((rows, p))
}

/// Relies on `String::push` of std: it appends the character to the
/// string.
#[verifier::external_body]
fn push_char(s: &mut String, c: char)
    ensures
        final(s)@ == old(s)@.push(c),
{
    s.push(c);
}

pub fn enc_string(out: &mut Vec<u8>, s: &String)
    ensures
        final(out)@ =~= old(out)@ + spec_string(s@),
{
    let ghost base = out@;
    let n = s.as_str().unicode_len();
    enc_u64(out, n as u64);
    let mut k: usize = 0;
    while k < n
        invariant
            n == s@.len(),
            0 <= k <= n,
            out@ =~= base + spec_u64_le(n as u64) + spec_chars(s@.take(k as int)),
        decreases n - k,
    {
        let c = s.as_str().get_char(k);
        enc_char(out, c);
        proof {
            lemma_chars_snoc(s@.take(k as int), s@[k as int]);
            assert(s@.take(k as int + 1) =~= s@.take(k as int).push(s@[k as int]));
        }
        k += 1;
    }
    proof {
        assert(s@.take(n as int) =~= s@);
    }
}

pub fn dec_string(b: &Vec<u8>, pos: usize) -> (r: Option<(String, usize)>)
    ensures
        match r {
            Some((s, p)) => spec_string_at(b@, pos as int) == Some((s@, p as int)),
            None => spec_string_at(b@, pos as int) is None,
        },
{
    let (n64, p) = match dec_u64(b, pos) {
        Some(x) => x,
        None => {
            return None;
        },
    };
    if n64 > ((b.len() - p) / 4) as u64 {
        return None;
    }
    let n = n64 as usize;
    let mut s = String::new();
    let mut k: usize = 0;
    while k < n
        invariant
            p == pos + 8,
            p + 4 * n <= b@.len(),
            p + 4 * n <= usize::MAX,
            n64 == spec_u64_at(b@, pos as int),
            n == n64,
            0 <= k <= n,
            chars_valid(b@, p as int, k as int),
            s@ =~= spec_chars_at(b@, p as int, k as int),
        decreases n - k,
    {
        match dec_char(b, p + 4 * k) {
            Some((c, _)) => {
                push_char(&mut s, c);
                proof {
                    assert(char_code_at(b@, p as int, k as int) == spec_u32_at(
                        b@,
                        p as int + 4 * k,
                    ));
                    assert(s@ =~= spec_chars_at(b@, p as int, k as int + 1));
                }
            },
            None => {
                proof {
                    assert(!is_scalar(char_code_at(b@, p as int, k as int)));
                }
                return None;
            },
        }
        k += 1;
    }
    Some((s, p + 4 * n))
}

// --- reading scalars laid down in a concatenation ---

pub proof fn lemma_read_u16_cat(pre: Seq<u8>, v: u16, post: Seq<u8>)
    ensures
        spec_u16_at(pre + spec_u16_le(v) + post, pre.len() as int) == v,
{
    let b = pre + spec_u16_le(v) + post;
    assert(b.subrange(pre.len() as int, pre.len() as int + 2) =~= spec_u16_le(v));
    lemma_read_u16(b, pre.len() as int, v);
}

pub proof fn lemma_read_u64_cat(pre: Seq<u8>, v: u64, post: Seq<u8>)
    ensures
        spec_u64_at(pre + spec_u64_le(v) + post, pre.len() as int) == v,
{
    let b = pre + spec_u64_le(v) + post;
    assert(b.subrange(pre.len() as int, pre.len() as int + 8) =~= spec_u64_le(v));
    lemma_read_u64(b, pre.len() as int, v);
}

pub proof fn lemma_read_i32_cat(pre: Seq<u8>, v: i32, post: Seq<u8>)
    ensures
        spec_i32_at(pre + spec_i32_le(v) + post, pre.len() as int) == v,
{
    let b = pre + spec_i32_le(v) + post;
    assert(b.subrange(pre.len() as int, pre.len() as int + 4) =~= spec_i32_le(v));
    lemma_read_i32(b, pre.len() as int, v);
}

// --- re-encoding what was read yields the bytes that were read ---

pub proof fn lemma_i32_canon(b: Seq<u8>, i: int)
    requires
        0 <= i,
        i + 4 <= b.len(),
    ensures
        spec_i32_le(spec_i32_at(b, i)) =~= b.subrange(i, i + 4),
{
    lemma_i32_bits_canon(spec_u32_at(b, i));
    lemma_u32_canon(b, i);
}

pub proof fn lemma_pos3_canon(b: Seq<u8>, i: int)
    requires
        0 <= i,
        i + 12 <= b.len(),
    ensures
        spec_pos3_le(spec_pos3_at(b, i)) =~= b.subrange(i, i + 12),
{
    lemma_i32_canon(b, i);
    lemma_i32_canon(b, i + 4);
    lemma_i32_canon(b, i + 8);
    assert(spec_pos3_le(spec_pos3_at(b, i)) =~= b.subrange(i, i + 4) + b.subrange(i + 4, i + 8)
        + b.subrange(i + 8, i + 12));
}

pub proof fn lemma_pos2_canon(b: Seq<u8>, i: int)
    requires
        0 <= i,
        i + 8 <= b.len(),
    ensures
        spec_pos2_le(spec_pos2_at(b, i)) =~= b.subrange(i, i + 8),
{
    lemma_i32_canon(b, i);
    lemma_i32_canon(b, i + 4);
    assert(spec_pos2_le(spec_pos2_at(b, i)) =~= b.subrange(i, i + 4) + b.subrange(i + 4, i + 8));
}

} // verus!
