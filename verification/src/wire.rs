//! Little-endian wire primitives for the message codec.
//!
//! Every multi-byte field travels least-significant byte first.  Each
//! primitive has a specification-level encoding (a byte sequence), a
//! specification-level reading (a value at a position of a byte
//! sequence), executable encoders and decoders proved against them, and
//! lemmas that the two are mutually inverse.

use vstd::prelude::*;
use vstd::utf8::char_u32_cast;
use vstd::utf8::is_scalar;

verus! {

// --- specification-level encodings ---

pub open spec fn spec_u16_le(v: u16) -> Seq<u8> {
    seq![(v % 0x100) as u8, ((v / 0x100) % 0x100) as u8]
}

pub open spec fn spec_u32_le(v: u32) -> Seq<u8> {
    seq![
        (v % 0x100) as u8,
        ((v / 0x100) % 0x100) as u8,
        ((v / 0x10000) % 0x100) as u8,
        ((v / 0x1000000) % 0x100) as u8,
    ]
}

pub open spec fn spec_u64_le(v: u64) -> Seq<u8> {
    seq![
        (v % 0x100) as u8,
        ((v / 0x100) % 0x100) as u8,
        ((v / 0x10000) % 0x100) as u8,
        ((v / 0x1000000) % 0x100) as u8,
        ((v / 0x100000000) % 0x100) as u8,
        ((v / 0x10000000000) % 0x100) as u8,
        ((v / 0x1000000000000) % 0x100) as u8,
        ((v / 0x100000000000000) % 0x100) as u8,
    ]
}

/// The unsigned two's-complement image of a signed 32-bit value.
pub open spec fn i32_bits(v: i32) -> u32 {
    if v >= 0 {
        v as u32
    } else {
        (v + 0x100000000) as u32
    }
}

/// The signed value whose two's-complement image is `u`.
pub open spec fn i32_of_bits(u: u32) -> i32 {
    if u < 0x80000000 {
        u as i32
    } else {
        (u - 0x100000000) as i32
    }
}

pub open spec fn spec_i32_le(v: i32) -> Seq<u8> {
    spec_u32_le(i32_bits(v))
}

pub open spec fn spec_char_le(c: char) -> Seq<u8> {
    spec_u32_le(c as u32)
}

// --- specification-level readings ---

pub open spec fn spec_u16_at(b: Seq<u8>, i: int) -> u16 {
    (b[i] + b[i + 1] * 0x100) as u16
}

pub open spec fn spec_u32_at(b: Seq<u8>, i: int) -> u32 {
    (b[i] + b[i + 1] * 0x100 + b[i + 2] * 0x10000 + b[i + 3] * 0x1000000) as u32
}

pub open spec fn spec_u64_at(b: Seq<u8>, i: int) -> u64 {
    (b[i] + b[i + 1] * 0x100 + b[i + 2] * 0x10000 + b[i + 3] * 0x1000000 + b[i + 4]
        * 0x100000000 + b[i + 5] * 0x10000000000 + b[i + 6] * 0x1000000000000 + b[i + 7]
        * 0x100000000000000) as u64
}

pub open spec fn spec_i32_at(b: Seq<u8>, i: int) -> i32 {
    i32_of_bits(spec_u32_at(b, i))
}

// --- the encodings and readings are mutually inverse ---

pub proof fn lemma_u16_round(v: u16)
    ensures
        spec_u16_at(spec_u16_le(v), 0) == v,
{
    assert((v % 0x100) + ((v / 0x100) % 0x100) * 0x100 == v) by (bit_vector);
}

pub proof fn lemma_u16_canon(b: Seq<u8>, i: int)
    requires
        0 <= i,
        i + 2 <= b.len(),
    ensures
        spec_u16_le(spec_u16_at(b, i)) =~= b.subrange(i, i + 2),
{
    let b0 = b[i];
    let b1 = b[i + 1];
    let v = spec_u16_at(b, i);
    assert(v == b0 + b1 * 0x100);
    assert({
        &&& (b0 as u16 + b1 as u16 * 0x100) % 0x100 == b0 as u16
        &&& ((b0 as u16 + b1 as u16 * 0x100) / 0x100) % 0x100 == b1 as u16
    }) by (bit_vector);
}

pub proof fn lemma_u32_round(v: u32)
    ensures
        spec_u32_at(spec_u32_le(v), 0) == v,
{
    assert((v % 0x100) + ((v / 0x100) % 0x100) * 0x100 + ((v / 0x10000) % 0x100) * 0x10000 + ((v
        / 0x1000000) % 0x100) * 0x1000000 == v) by (bit_vector);
}

pub proof fn lemma_u32_canon(b: Seq<u8>, i: int)
    requires
        0 <= i,
        i + 4 <= b.len(),
    ensures
        spec_u32_le(spec_u32_at(b, i)) =~= b.subrange(i, i + 4),
{
    let b0 = b[i];
    let b1 = b[i + 1];
    let b2 = b[i + 2];
    let b3 = b[i + 3];
    let v = spec_u32_at(b, i);
    assert(v == b0 + b1 * 0x100 + b2 * 0x10000 + b3 * 0x1000000);
    assert({
        let w = b0 as u32 + b1 as u32 * 0x100 + b2 as u32 * 0x10000 + b3 as u32 * 0x1000000;
        &&& w % 0x100 == b0 as u32
        &&& (w / 0x100) % 0x100 == b1 as u32
        &&& (w / 0x10000) % 0x100 == b2 as u32
        &&& (w / 0x1000000) % 0x100 == b3 as u32
    }) by (bit_vector);
}

pub proof fn lemma_u64_round(v: u64)
    ensures
        spec_u64_at(spec_u64_le(v), 0) == v,
{
    assert((v % 0x100) + ((v / 0x100) % 0x100) * 0x100 + ((v / 0x10000) % 0x100) * 0x10000 + ((v
        / 0x1000000) % 0x100) * 0x1000000 + ((v / 0x100000000) % 0x100) * 0x100000000 + ((v
        / 0x10000000000) % 0x100) * 0x10000000000 + ((v / 0x1000000000000) % 0x100)
        * 0x1000000000000 + ((v / 0x100000000000000) % 0x100) * 0x100000000000000 == v)
        by (bit_vector);
}

pub proof fn lemma_u64_canon(b: Seq<u8>, i: int)
    requires
        0 <= i,
        i + 8 <= b.len(),
    ensures
        spec_u64_le(spec_u64_at(b, i)) =~= b.subrange(i, i + 8),
{
    let b0 = b[i];
    let b1 = b[i + 1];
    let b2 = b[i + 2];
    let b3 = b[i + 3];
    let b4 = b[i + 4];
    let b5 = b[i + 5];
    let b6 = b[i + 6];
    let b7 = b[i + 7];
    let v = spec_u64_at(b, i);
    assert(v == b0 + b1 * 0x100 + b2 * 0x10000 + b3 * 0x1000000 + b4 * 0x100000000 + b5
        * 0x10000000000 + b6 * 0x1000000000000 + b7 * 0x100000000000000);
    assert({
        let w = b0 as u64 + b1 as u64 * 0x100 + b2 as u64 * 0x10000 + b3 as u64 * 0x1000000 + b4
            as u64 * 0x100000000 + b5 as u64 * 0x10000000000 + b6 as u64 * 0x1000000000000 + b7
            as u64 * 0x100000000000000;
        &&& w % 0x100 == b0 as u64
        &&& (w / 0x100) % 0x100 == b1 as u64
        &&& (w / 0x10000) % 0x100 == b2 as u64
        &&& (w / 0x1000000) % 0x100 == b3 as u64
        &&& (w / 0x100000000) % 0x100 == b4 as u64
        &&& (w / 0x10000000000) % 0x100 == b5 as u64
        &&& (w / 0x1000000000000) % 0x100 == b6 as u64
        &&& (w / 0x100000000000000) % 0x100 == b7 as u64
    }) by (bit_vector);
}

pub proof fn lemma_i32_bits_round(v: i32)
    ensures
        i32_of_bits(i32_bits(v)) == v,
{
}

pub proof fn lemma_i32_bits_canon(u: u32)
    ensures
        i32_bits(i32_of_bits(u)) == u,
{
}

// --- executable encoders ---

pub fn enc_u16(out: &mut Vec<u8>, v: u16)
    ensures
        final(out)@ =~= old(out)@ + spec_u16_le(v),
{
    out.push((v % 0x100) as u8);
    out.push(((v / 0x100) % 0x100) as u8);
}

pub fn enc_u32(out: &mut Vec<u8>, v: u32)
    ensures
        final(out)@ =~= old(out)@ + spec_u32_le(v),
{
    out.push((v % 0x100) as u8);
    out.push(((v / 0x100) % 0x100) as u8);
    out.push(((v / 0x10000) % 0x100) as u8);
    out.push(((v / 0x1000000) % 0x100) as u8);
}

pub fn enc_u64(out: &mut Vec<u8>, v: u64)
    ensures
        final(out)@ =~= old(out)@ + spec_u64_le(v),
{
    out.push((v % 0x100) as u8);
    out.push(((v / 0x100) % 0x100) as u8);
    out.push(((v / 0x10000) % 0x100) as u8);
    out.push(((v / 0x1000000) % 0x100) as u8);
    out.push(((v / 0x100000000) % 0x100) as u8);
    out.push(((v / 0x10000000000) % 0x100) as u8);
    out.push(((v / 0x1000000000000) % 0x100) as u8);
    out.push(((v / 0x100000000000000) % 0x100) as u8);
}

/// The two's-complement image, computed without a wrapping cast.
pub fn i32_to_bits(v: i32) -> (r: u32)
    ensures
        r == i32_bits(v),
{
    if v >= 0 {
        v as u32
    } else {
        (v - i32::MIN) as u32 + 0x80000000
    }
}

/// Inverse of `i32_to_bits`.
pub fn bits_to_i32(u: u32) -> (r: i32)
    ensures
        r == i32_of_bits(u),
{
    if u < 0x80000000 {
        u as i32
    } else {
        (u - 0x80000000) as i32 + i32::MIN
    }
}

pub fn enc_i32(out: &mut Vec<u8>, v: i32)
    ensures
        final(out)@ =~= old(out)@ + spec_i32_le(v),
{
    enc_u32(out, i32_to_bits(v));
}

pub fn enc_char(out: &mut Vec<u8>, c: char)
    ensures
        final(out)@ =~= old(out)@ + spec_char_le(c),
{
    enc_u32(out, c as u32);
}

// --- executable decoders ---
//
// Each decoder reads at a position of the buffer and returns the value
// with the position just past it, or `None` when the buffer is too
// short.

pub fn dec_u16(b: &Vec<u8>, pos: usize) -> (r: Option<(u16, usize)>)
    ensures
        match r {
            Some((v, p)) => pos + 2 <= b@.len() && p == pos + 2 && v == spec_u16_at(b@, pos as int),
            None => pos + 2 > b@.len(),
        },
{
    if pos > b.len() || b.len() - pos < 2 {
        return None;
    }
    let v = b[pos] as u16 + b[pos + 1] as u16 * 0x100;
    Some((v, pos + 2))
}

pub fn dec_u32(b: &Vec<u8>, pos: usize) -> (r: Option<(u32, usize)>)
    ensures
        match r {
            Some((v, p)) => pos + 4 <= b@.len() && p == pos + 4 && v == spec_u32_at(b@, pos as int),
            None => pos + 4 > b@.len(),
        },
{
    if pos > b.len() || b.len() - pos < 4 {
        return None;
    }
    let v = b[pos] as u32 + b[pos + 1] as u32 * 0x100 + b[pos + 2] as u32 * 0x10000 + b[pos + 3]
        as u32 * 0x1000000;
    Some((v, pos + 4))
}

pub fn dec_u64(b: &Vec<u8>, pos: usize) -> (r: Option<(u64, usize)>)
    ensures
        match r {
            Some((v, p)) => pos + 8 <= b@.len() && p == pos + 8 && v == spec_u64_at(b@, pos as int),
            None => pos + 8 > b@.len(),
        },
{
    if pos > b.len() || b.len() - pos < 8 {
        return None;
    }
    let v = b[pos] as u64 + b[pos + 1] as u64 * 0x100 + b[pos + 2] as u64 * 0x10000 + b[pos + 3]
        as u64 * 0x1000000 + b[pos + 4] as u64 * 0x100000000 + b[pos + 5] as u64 * 0x10000000000
        + b[pos + 6] as u64 * 0x1000000000000 + b[pos + 7] as u64 * 0x100000000000000;
    Some((v, pos + 8))
}

pub fn dec_i32(b: &Vec<u8>, pos: usize) -> (r: Option<(i32, usize)>)
    ensures
        match r {
            Some((v, p)) => pos + 4 <= b@.len() && p == pos + 4 && v == spec_i32_at(b@, pos as int),
            None => pos + 4 > b@.len(),
        },
{
    match dec_u32(b, pos) {
        Some((u, p)) => Some((bits_to_i32(u), p)),
        None => None,
    }
}

// --- characters ---

/// Relies on `char::from_u32` of std: it returns `Some` exactly when the
/// value is a Unicode scalar, and then the character with that code
/// point.
#[verifier::external_body]
fn char_from_code(u: u32) -> (r: Option<char>)
    ensures
        r is Some <==> is_scalar(u),
        r is Some ==> r->0 as u32 == u,
{
    char::from_u32(u)
}

pub fn dec_char(b: &Vec<u8>, pos: usize) -> (r: Option<(char, usize)>)
    ensures
        match r {
            Some((c, p)) => pos + 4 <= b@.len() && p == pos + 4 && is_scalar(
                spec_u32_at(b@, pos as int),
            ) && c == spec_u32_at(b@, pos as int) as char,
            None => pos + 4 > b@.len() || !is_scalar(spec_u32_at(b@, pos as int)),
        },
{
    match dec_u32(b, pos) {
        Some((u, p)) => match char_from_code(u) {
            Some(c) => {
                proof {
                    char_u32_cast(c, u);
                }
                Some((c, p))
            },
            None => None,
        },
        None => None,
    }
}

} // verus!
