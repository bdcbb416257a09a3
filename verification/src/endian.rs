//! Little-endian integers on the wire: what their bytes are, and how they
//! are read back.

use vstd::prelude::*;

verus! {

/// The two bytes of `v`, least significant first.
pub open spec fn u16_le_bytes(v: u16) -> Seq<u8> {
    seq![(v % 256) as u8, (v / 256) as u8]
}

/// The four bytes of `v`, least significant first.
pub open spec fn u32_le_bytes(v: u32) -> Seq<u8> {
    seq![
        (v % 256) as u8,
        (v / 0x100 % 256) as u8,
        (v / 0x1_0000 % 256) as u8,
        (v / 0x100_0000) as u8,
    ]
}

/// The eight bytes of `v`, least significant first.
pub open spec fn u64_le_bytes(v: u64) -> Seq<u8> {
    seq![
        (v % 256) as u8,
        (v / 0x100 % 256) as u8,
        (v / 0x1_0000 % 256) as u8,
        (v / 0x100_0000 % 256) as u8,
        (v / 0x1_0000_0000 % 256) as u8,
        (v / 0x100_0000_0000 % 256) as u8,
        (v / 0x1_0000_0000_0000 % 256) as u8,
        (v / 0x100_0000_0000_0000) as u8,
    ]
}

/// The integer whose little-endian bytes are the first two of `s`.
pub open spec fn u16_from_le(s: Seq<u8>) -> u16
    recommends
        s.len() >= 2,
{
    (s[0] + 0x100 * s[1]) as u16
}

/// The integer whose little-endian bytes are the first four of `s`.
pub open spec fn u32_from_le(s: Seq<u8>) -> u32
    recommends
        s.len() >= 4,
{
    (s[0] + 0x100 * s[1] + 0x1_0000 * s[2] + 0x100_0000 * s[3]) as u32
}

/// The integer whose little-endian bytes are the first eight of `s`.
pub open spec fn u64_from_le(s: Seq<u8>) -> u64
    recommends
        s.len() >= 8,
{
    (s[0] + 0x100 * s[1] + 0x1_0000 * s[2] + 0x100_0000 * s[3] + 0x1_0000_0000 * s[4]
        + 0x100_0000_0000 * s[5] + 0x1_0000_0000_0000 * s[6] + 0x100_0000_0000_0000 * s[7]) as u64
}

/// The lowest byte of `hi * 256 + low` is `low`, and the rest is `hi`.
proof fn lemma_low_byte(hi: int, low: int)
    requires
        0 <= low < 256,
    ensures
        (hi * 256 + low) % 256 == low,
        (hi * 256 + low) / 256 == hi,
{
    vstd::arithmetic::div_mod::lemma_fundamental_div_mod_converse(hi * 256 + low, 256, hi, low);
}

/// Dividing by `256 * a` is dividing by `a` and then by 256.
proof fn lemma_next_byte(v: int, a: int)
    requires
        0 <= v,
        0 < a,
    ensures
        v / (a * 256) == (v / a) / 256,
        0 <= v / a,
{
    vstd::arithmetic::div_mod::lemma_div_denominator(v, a, 256);
    vstd::arithmetic::div_mod::lemma_div_pos_is_pos(v, a);
}

/// Reading back what was written gives the integer again.
pub proof fn lemma_u16_le_round_trip(v: u16)
    ensures
        u16_le_bytes(v).len() == 2,
        u16_from_le(u16_le_bytes(v)) == v,
{
}

/// Reading back what was written gives the integer again.
pub proof fn lemma_u32_le_round_trip(v: u32)
    ensures
        u32_le_bytes(v).len() == 4,
        u32_from_le(u32_le_bytes(v)) == v,
{
    let x = v as int;
    lemma_next_byte(x, 0x100);
    lemma_next_byte(x, 0x1_0000);
}

/// Reading back what was written gives the integer again.
pub proof fn lemma_u64_le_round_trip(v: u64)
    ensures
        u64_le_bytes(v).len() == 8,
        u64_from_le(u64_le_bytes(v)) == v,
{
    let x = v as int;
    lemma_next_byte(x, 0x100);
    lemma_next_byte(x, 0x1_0000);
    lemma_next_byte(x, 0x100_0000);
    lemma_next_byte(x, 0x1_0000_0000);
    lemma_next_byte(x, 0x100_0000_0000);
    lemma_next_byte(x, 0x1_0000_0000_0000);
    let q1 = x / 0x100;
    let q2 = x / 0x1_0000;
    let q3 = x / 0x100_0000;
    let q4 = x / 0x1_0000_0000;
    let q5 = x / 0x100_0000_0000;
    let q6 = x / 0x1_0000_0000_0000;
    let q7 = x / 0x100_0000_0000_0000;
    assert(x == 256 * q1 + x % 256);
    assert(q1 == 256 * q2 + q1 % 256);
    assert(q2 == 256 * q3 + q2 % 256);
    assert(q3 == 256 * q4 + q3 % 256);
    assert(q4 == 256 * q5 + q4 % 256);
    assert(q5 == 256 * q6 + q5 % 256);
    assert(q6 == 256 * q7 + q6 % 256);
    assert(0 <= q7 < 256);
}

/// Two bytes are the little-endian form of the integer they read as.
pub proof fn lemma_u16_le_bytes_of_value(s: Seq<u8>)
    requires
        s.len() == 2,
    ensures
        u16_le_bytes(u16_from_le(s)) == s,
{
    lemma_low_byte(s[1] as int, s[0] as int);
    assert(u16_le_bytes(u16_from_le(s)) =~= s);
}

/// Four bytes are the little-endian form of the integer they read as.
pub proof fn lemma_u32_le_bytes_of_value(s: Seq<u8>)
    requires
        s.len() == 4,
    ensures
        u32_le_bytes(u32_from_le(s)) == s,
{
    let t3 = s[3] as int;
    let t2 = t3 * 256 + s[2];
    let t1 = t2 * 256 + s[1];
    let t0 = t1 * 256 + s[0];
    assert(t0 == u32_from_le(s));
    lemma_low_byte(t1, s[0] as int);
    lemma_low_byte(t2, s[1] as int);
    lemma_low_byte(t3, s[2] as int);
    lemma_next_byte(t0, 0x100);
    lemma_next_byte(t0, 0x1_0000);
    assert(u32_le_bytes(u32_from_le(s)) =~= s);
}

/// Eight bytes are the little-endian form of the integer they read as.
pub proof fn lemma_u64_le_bytes_of_value(s: Seq<u8>)
    requires
        s.len() == 8,
    ensures
        u64_le_bytes(u64_from_le(s)) == s,
{
    let t7 = s[7] as int;
    let t6 = t7 * 256 + s[6];
    let t5 = t6 * 256 + s[5];
    let t4 = t5 * 256 + s[4];
    let t3 = t4 * 256 + s[3];
    let t2 = t3 * 256 + s[2];
    let t1 = t2 * 256 + s[1];
    let t0 = t1 * 256 + s[0];
    assert(t0 == u64_from_le(s));
    lemma_low_byte(t1, s[0] as int);
    lemma_low_byte(t2, s[1] as int);
    lemma_low_byte(t3, s[2] as int);
    lemma_low_byte(t4, s[3] as int);
    lemma_low_byte(t5, s[4] as int);
    lemma_low_byte(t6, s[5] as int);
    lemma_low_byte(t7, s[6] as int);
    lemma_next_byte(t0, 0x100);
    lemma_next_byte(t0, 0x1_0000);
    lemma_next_byte(t0, 0x100_0000);
    lemma_next_byte(t0, 0x1_0000_0000);
    lemma_next_byte(t0, 0x100_0000_0000);
    lemma_next_byte(t0, 0x1_0000_0000_0000);
    assert(t0 / 0x100 == t1);
    assert(t0 / 0x1_0000 == t2);
    assert(t0 / 0x100_0000 == t3);
    assert(t0 / 0x1_0000_0000 == t4);
    assert(t0 / 0x100_0000_0000 == t5);
    assert(t0 / 0x1_0000_0000_0000 == t6);
    assert(t0 / 0x100_0000_0000_0000 == t7);
    assert(u64_le_bytes(u64_from_le(s)) =~= s);
}

/// Reads the little-endian `u16` at offset `at`.
pub(crate) fn read_u16_le(bytes: &[u8], at: usize) -> (r: u16)
    requires
        at + 2 <= bytes@.len(),
    ensures
        r == u16_from_le(bytes@.subrange(at as int, at + 2)),
{
    let b0: u16 = bytes[at] as u16;
    let b1: u16 = bytes[at + 1] as u16;
    b0 + 0x100 * b1
}

/// Reads the little-endian `u32` at offset `at`.
pub(crate) fn read_u32_le(bytes: &[u8], at: usize) -> (r: u32)
    requires
        at + 4 <= bytes@.len(),
    ensures
        r == u32_from_le(bytes@.subrange(at as int, at + 4)),
{
    let b0: u32 = bytes[at] as u32;
    let b1: u32 = bytes[at + 1] as u32;
    let b2: u32 = bytes[at + 2] as u32;
    let b3: u32 = bytes[at + 3] as u32;
    b0 + 0x100 * b1 + 0x1_0000 * b2 + 0x100_0000 * b3
}

/// Reads the little-endian `u64` at offset `at`.
pub(crate) fn read_u64_le(bytes: &[u8], at: usize) -> (r: u64)
    requires
        at + 8 <= bytes@.len(),
    ensures
        r == u64_from_le(bytes@.subrange(at as int, at + 8)),
{
    let b0: u64 = bytes[at] as u64;
    let b1: u64 = bytes[at + 1] as u64;
    let b2: u64 = bytes[at + 2] as u64;
    let b3: u64 = bytes[at + 3] as u64;
    let b4: u64 = bytes[at + 4] as u64;
    let b5: u64 = bytes[at + 5] as u64;
    let b6: u64 = bytes[at + 6] as u64;
    let b7: u64 = bytes[at + 7] as u64;
    b0 + 0x100 * b1 + 0x1_0000 * b2 + 0x100_0000 * b3 + 0x1_0000_0000 * b4 + 0x100_0000_0000 * b5
        + 0x1_0000_0000_0000 * b6 + 0x100_0000_0000_0000 * b7
}

} // verus!
