use vstd::prelude::*;

verus! {

/// The two's-complement bit pattern of a signed 8-bit integer.
pub open spec fn i8_bits(v: i8) -> u8 {
    if v >= 0 {
        v as u8
    } else {
        (v + 0x100) as u8
    }
}

/// The signed 8-bit integer with the given two's-complement bit pattern.
pub open spec fn i8_of_bits(u: u8) -> i8 {
    if u < 0x80 {
        u as i8
    } else {
        (u - 0x100) as i8
    }
}

/// The two's-complement bit pattern of a signed 16-bit integer.
pub open spec fn i16_bits(v: i16) -> u16 {
    if v >= 0 {
        v as u16
    } else {
        (v + 0x1_0000) as u16
    }
}

/// The signed 16-bit integer with the given two's-complement bit pattern.
pub open spec fn i16_of_bits(u: u16) -> i16 {
    if u < 0x8000 {
        u as i16
    } else {
        (u - 0x1_0000) as i16
    }
}

/// The two's-complement bit pattern of a signed 32-bit integer.
pub open spec fn i32_bits(v: i32) -> u32 {
    if v >= 0 {
        v as u32
    } else {
        (v + 0x1_0000_0000) as u32
    }
}

/// The signed 32-bit integer with the given two's-complement bit pattern.
pub open spec fn i32_of_bits(u: u32) -> i32 {
    if u < 0x8000_0000 {
        u as i32
    } else {
        (u - 0x1_0000_0000) as i32
    }
}

/// The two's-complement bit pattern of a signed 64-bit integer.
pub open spec fn i64_bits(v: i64) -> u64 {
    if v >= 0 {
        v as u64
    } else {
        (v + 0x1_0000_0000_0000_0000) as u64
    }
}

/// The signed 64-bit integer with the given two's-complement bit pattern.
pub open spec fn i64_of_bits(u: u64) -> i64 {
    if u < 0x8000_0000_0000_0000 {
        u as i64
    } else {
        (u - 0x1_0000_0000_0000_0000) as i64
    }
}

/// The big-endian bytes of a 16-bit value, most significant first.
pub open spec fn be16(v: u16) -> Seq<u8> {
    seq![(v / 0x100) as u8, (v % 0x100) as u8]
}

/// The 16-bit value held big-endian in the first two bytes of `s`.
pub open spec fn from_be16(s: Seq<u8>) -> u16 {
    (s[0] * 0x100 + s[1]) as u16
}

/// The big-endian bytes of a 32-bit value, most significant first.
pub open spec fn be32(v: u32) -> Seq<u8> {
    be16((v / 0x1_0000) as u16) + be16((v % 0x1_0000) as u16)
}

/// The 32-bit value held big-endian in the first four bytes of `s`.
pub open spec fn from_be32(s: Seq<u8>) -> u32 {
    (from_be16(s) * 0x1_0000 + from_be16(s.skip(2))) as u32
}

/// The big-endian bytes of a 64-bit value, most significant first.
pub open spec fn be64(v: u64) -> Seq<u8> {
    be32((v / 0x1_0000_0000) as u32) + be32((v % 0x1_0000_0000) as u32)
}

/// The 64-bit value held big-endian in the first eight bytes of `s`.
pub open spec fn from_be64(s: Seq<u8>) -> u64 {
    (from_be32(s) * 0x1_0000_0000 + from_be32(s.skip(4))) as u64
}

/// Two big-endian bytes, followed by anything, read back as the value they were made from.
pub proof fn lemma_be16(a: u16, rest: Seq<u8>)
    ensures
        be16(a).len() == 2,
        from_be16(be16(a) + rest) == a,
{
    let s = be16(a) + rest;
    assert(s[0] == (a / 0x100) as u8);
    assert(s[1] == (a % 0x100) as u8);
}

/// Four big-endian bytes, followed by anything, read back as the value they were made from.
pub proof fn lemma_be32(b: u32, rest: Seq<u8>)
    ensures
        be32(b).len() == 4,
        from_be32(be32(b) + rest) == b,
{
    let hi = (b / 0x1_0000) as u16;
    let lo = (b % 0x1_0000) as u16;
    let s = be32(b) + rest;
    lemma_be16(hi, be16(lo) + rest);
    lemma_be16(lo, rest);
    assert(s =~= be16(hi) + (be16(lo) + rest));
    assert(s.skip(2) =~= be16(lo) + rest);
}

/// Eight big-endian bytes, followed by anything, read back as the value they were made from.
pub proof fn lemma_be64(c: u64, rest: Seq<u8>)
    ensures
        be64(c).len() == 8,
        from_be64(be64(c) + rest) == c,
{
    let hi = (c / 0x1_0000_0000) as u32;
    let lo = (c % 0x1_0000_0000) as u32;
    let s = be64(c) + rest;
    lemma_be32(hi, be32(lo) + rest);
    lemma_be32(lo, rest);
    assert(s =~= be32(hi) + (be32(lo) + rest));
    assert(s.skip(4) =~= be32(lo) + rest);
}

/// Appends the big-endian bytes of `v` to `out`.
pub fn push_be16(out: &mut Vec<u8>, v: u16)
    ensures
        final(out)@ == old(out)@ + be16(v),
{
    out.push((v / 0x100) as u8);
    out.push((v % 0x100) as u8);
    assert(out@ =~= old(out)@ + be16(v));
}

/// Appends the big-endian bytes of `v` to `out`.
pub fn push_be32(out: &mut Vec<u8>, v: u32)
    ensures
        final(out)@ == old(out)@ + be32(v),
{
    push_be16(out, (v / 0x1_0000) as u16);
    push_be16(out, (v % 0x1_0000) as u16);
    assert(out@ =~= old(out)@ + be32(v));
}

/// Appends the big-endian bytes of `v` to `out`.
pub fn push_be64(out: &mut Vec<u8>, v: u64)
    ensures
        final(out)@ == old(out)@ + be64(v),
{
    push_be32(out, (v / 0x1_0000_0000) as u32);
    push_be32(out, (v % 0x1_0000_0000) as u32);
    assert(out@ =~= old(out)@ + be64(v));
}

/// Reads the 16-bit big-endian value at `at`.
pub fn read_be16(bytes: &[u8], at: usize) -> (v: u16)
    requires
        at + 2 <= bytes.len(),
    ensures
        v == from_be16(bytes@.skip(at as int)),
{
    let hi: u16 = bytes[at] as u16;
    let lo: u16 = bytes[at + 1] as u16;
    hi * 0x100 + lo
}

/// Reads the 32-bit big-endian value at `at`.
pub fn read_be32(bytes: &[u8], at: usize) -> (v: u32)
    requires
        at + 4 <= bytes.len(),
    ensures
        v == from_be32(bytes@.skip(at as int)),
{
    let hi: u32 = read_be16(bytes, at) as u32;
    let lo: u32 = read_be16(bytes, at + 2) as u32;
    assert(bytes@.skip(at as int).skip(2) =~= bytes@.skip(at + 2));
    hi * 0x1_0000 + lo
}

/// Reads the 64-bit big-endian value at `at`.
pub fn read_be64(bytes: &[u8], at: usize) -> (v: u64)
    requires
        at + 8 <= bytes.len(),
    ensures
        v == from_be64(bytes@.skip(at as int)),
{
    let hi: u64 = read_be32(bytes, at) as u64;
    let lo: u64 = read_be32(bytes, at + 4) as u64;
    assert(bytes@.skip(at as int).skip(4) =~= bytes@.skip(at + 4));
    hi * 0x1_0000_0000 + lo
}

/// The two's-complement bit pattern of `v`.
pub fn bits_of_i8(v: i8) -> (u: u8)
    ensures
        u == i8_bits(v),
{
    if v >= 0 {
        v as u8
    } else {
        (v as i16 + 0x100) as u8
    }
}

/// The two's-complement bit pattern of `v`.
pub fn bits_of_i16(v: i16) -> (u: u16)
    ensures
        u == i16_bits(v),
{
    if v >= 0 {
        v as u16
    } else {
        (v as i32 + 0x1_0000) as u16
    }
}

/// The two's-complement bit pattern of `v`.
pub fn bits_of_i32(v: i32) -> (u: u32)
    ensures
        u == i32_bits(v),
{
    if v >= 0 {
        v as u32
    } else {
        (v as i64 + 0x1_0000_0000) as u32
    }
}

/// The two's-complement bit pattern of `v`.
pub fn bits_of_i64(v: i64) -> (u: u64)
    ensures
        u == i64_bits(v),
{
    if v >= 0 {
        v as u64
    } else {
        (v as i128 + 0x1_0000_0000_0000_0000) as u64
    }
}

/// The signed integer with bit pattern `u`.
pub fn i8_from_bits(u: u8) -> (v: i8)
    ensures
        v == i8_of_bits(u),
{
    if u < 0x80 {
        u as i8
    } else {
        (u as i16 - 0x100) as i8
    }
}

/// The signed integer with bit pattern `u`.
pub fn i16_from_bits(u: u16) -> (v: i16)
    ensures
        v == i16_of_bits(u),
{
    if u < 0x8000 {
        u as i16
    } else {
        (u as i32 - 0x1_0000) as i16
    }
}

/// The signed integer with bit pattern `u`.
pub fn i32_from_bits(u: u32) -> (v: i32)
    ensures
        v == i32_of_bits(u),
{
    if u < 0x8000_0000 {
        u as i32
    } else {
        (u as i64 - 0x1_0000_0000) as i32
    }
}

/// The signed integer with bit pattern `u`.
pub fn i64_from_bits(u: u64) -> (v: i64)
    ensures
        v == i64_of_bits(u),
{
    if u < 0x8000_0000_0000_0000 {
        u as i64
    } else {
        (u as i128 - 0x1_0000_0000_0000_0000) as i64
    }
}

} // verus!
