//! Byte-level decoding of fixed-width integers from packed binary data, in
//! little-endian (the platform's native order here) and big-endian order.
//!
//! The spec functions state the value of each decode arithmetically; the exec
//! readers are proved to return exactly those values.

use vstd::prelude::*;

verus! {

/// Little-endian 16-bit value of `s[pos], s[pos+1]`.
pub open spec fn le16(s: Seq<u8>, pos: int) -> nat
    recommends
        0 <= pos,
        pos + 2 <= s.len(),
{
    s[pos] as nat + 0x100 * (s[pos + 1] as nat)
}

/// Little-endian 32-bit value of the four bytes starting at `pos`.
pub open spec fn le32(s: Seq<u8>, pos: int) -> nat
    recommends
        0 <= pos,
        pos + 4 <= s.len(),
{
    le16(s, pos) + 0x1_0000 * le16(s, pos + 2)
}

/// Little-endian 64-bit value of the eight bytes starting at `pos`.
pub open spec fn le64(s: Seq<u8>, pos: int) -> nat
    recommends
        0 <= pos,
        pos + 8 <= s.len(),
{
    le32(s, pos) + 0x1_0000_0000 * le32(s, pos + 4)
}

/// Big-endian 16-bit value of `s[pos], s[pos+1]`.
pub open spec fn be16(s: Seq<u8>, pos: int) -> nat
    recommends
        0 <= pos,
        pos + 2 <= s.len(),
{
    0x100 * (s[pos] as nat) + s[pos + 1] as nat
}

/// Big-endian 32-bit value of the four bytes starting at `pos`.
pub open spec fn be32(s: Seq<u8>, pos: int) -> nat
    recommends
        0 <= pos,
        pos + 4 <= s.len(),
{
    0x1_0000 * be16(s, pos) + be16(s, pos + 2)
}

/// Big-endian 64-bit value of the eight bytes starting at `pos`.
pub open spec fn be64(s: Seq<u8>, pos: int) -> nat
    recommends
        0 <= pos,
        pos + 8 <= s.len(),
{
    0x1_0000_0000 * be32(s, pos) + be32(s, pos + 4)
}

/// The signed reading of an unsigned 8-bit value (two's complement).
pub open spec fn as_signed8(v: nat) -> int {
    if v < 0x80 {
        v as int
    } else {
        v - 0x100
    }
}

/// The signed reading of an unsigned 16-bit value (two's complement).
pub open spec fn as_signed16(v: nat) -> int {
    if v < 0x8000 {
        v as int
    } else {
        v - 0x1_0000
    }
}

/// The signed reading of an unsigned 32-bit value (two's complement).
pub open spec fn as_signed32(v: nat) -> int {
    if v < 0x8000_0000 {
        v as int
    } else {
        v - 0x1_0000_0000
    }
}

pub fn read_u16_le(s: &Vec<u8>, pos: usize) -> (r: u16)
    requires
        pos + 2 <= s.len(),
    ensures
        r as nat == le16(s@, pos as int),
{
    s[pos] as u16 + 0x100 * (s[pos + 1] as u16)
}

pub fn read_u32_le(s: &Vec<u8>, pos: usize) -> (r: u32)
    requires
        pos + 4 <= s.len(),
    ensures
        r as nat == le32(s@, pos as int),
{
    let lo = read_u16_le(s, pos);
    let hi = read_u16_le(s, pos + 2);
    lo as u32 + 0x1_0000 * (hi as u32)
}

pub fn read_u64_le(s: &Vec<u8>, pos: usize) -> (r: u64)
    requires
        pos + 8 <= s.len(),
    ensures
        r as nat == le64(s@, pos as int),
{
    let lo = read_u32_le(s, pos);
    let hi = read_u32_le(s, pos + 4);
    lo as u64 + 0x1_0000_0000 * (hi as u64)
}

pub fn read_u16_be(s: &Vec<u8>, pos: usize) -> (r: u16)
    requires
        pos + 2 <= s.len(),
    ensures
        r as nat == be16(s@, pos as int),
{
    0x100 * (s[pos] as u16) + s[pos + 1] as u16
}

pub fn read_u32_be(s: &Vec<u8>, pos: usize) -> (r: u32)
    requires
        pos + 4 <= s.len(),
    ensures
        r as nat == be32(s@, pos as int),
{
    let hi = read_u16_be(s, pos);
    let lo = read_u16_be(s, pos + 2);
    0x1_0000 * (hi as u32) + lo as u32
}

pub fn read_u64_be(s: &Vec<u8>, pos: usize) -> (r: u64)
    requires
        pos + 8 <= s.len(),
    ensures
        r as nat == be64(s@, pos as int),
{
    let hi = read_u32_be(s, pos);
    let lo = read_u32_be(s, pos + 4);
    0x1_0000_0000 * (hi as u64) + lo as u64
}

/// Reinterprets an unsigned 8-bit value as two's-complement signed.
pub fn signed8_of(v: u8) -> (r: i8)
    ensures
        r as int == as_signed8(v as nat),
{
    if v < 0x80 {
        v as i8
    } else {
        ((v as i16) - 0x100) as i8
    }
}

/// Reinterprets an unsigned 16-bit value as two's-complement signed.
pub fn signed16_of(v: u16) -> (r: i16)
    ensures
        r as int == as_signed16(v as nat),
{
    if v < 0x8000 {
        v as i16
    } else {
        ((v as i32) - 0x1_0000) as i16
    }
}

/// Reinterprets an unsigned 32-bit value as two's-complement signed.
pub fn signed32_of(v: u32) -> (r: i32)
    ensures
        r as int == as_signed32(v as nat),
{
    if v < 0x8000_0000 {
        v as i32
    } else {
        ((v as i64) - 0x1_0000_0000) as i32
    }
}

} // verus!
