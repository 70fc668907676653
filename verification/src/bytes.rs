//! Little-endian scalar decoding from a byte sequence.
//!
//! Every multi-byte field of the format is little-endian. The spec
//! functions here give the mathematical value of such a field; the
//! executable readers are proved to return exactly that value.

use vstd::prelude::*;

verus! {

/// Little-endian value of the two bytes of `s` at `pos`.
pub open spec fn le16(s: Seq<u8>, pos: int) -> int {
    s[pos] + 0x100 * s[pos + 1]
}

/// Little-endian value of the four bytes of `s` at `pos`.
pub open spec fn le32(s: Seq<u8>, pos: int) -> int {
    s[pos] + 0x100 * s[pos + 1] + 0x1_0000 * s[pos + 2] + 0x100_0000 * s[pos + 3]
}

/// Little-endian value of the eight bytes of `s` at `pos`.
pub open spec fn le64(s: Seq<u8>, pos: int) -> int {
    le32(s, pos) + 0x1_0000_0000 * le32(s, pos + 4)
}

/// The signed 16-bit value with two's-complement bit pattern `v`.
pub open spec fn as_i16(v: int) -> int {
    if v < 0x8000 {
        v
    } else {
        v - 0x1_0000
    }
}

/// The signed 32-bit value with two's-complement bit pattern `v`.
pub open spec fn as_i32(v: int) -> int {
    if v < 0x8000_0000 {
        v
    } else {
        v - 0x1_0000_0000
    }
}

/// The signed 64-bit value with two's-complement bit pattern `v`.
pub open spec fn as_i64(v: int) -> int {
    if v < 0x8000_0000_0000_0000 {
        v
    } else {
        v - 0x1_0000_0000_0000_0000
    }
}

/// The signed 8-bit value with two's-complement bit pattern `v`.
pub open spec fn as_i8(v: int) -> int {
    if v < 0x80 {
        v
    } else {
        v - 0x100
    }
}

pub fn read_u8(bytes: &[u8], pos: usize) -> (r: u8)
    requires
        pos < bytes@.len(),
    ensures
        r == bytes@[pos as int],
{
    bytes[pos]
}

pub fn read_le_u16(bytes: &[u8], pos: usize) -> (r: u16)
    requires
        pos + 2 <= bytes@.len(),
    ensures
        r == le16(bytes@, pos as int),
{
    let b0 = bytes[pos] as u16;
    let b1 = bytes[pos + 1] as u16;
    b0 + b1 * 0x100
}

pub fn read_le_u32(bytes: &[u8], pos: usize) -> (r: u32)
    requires
        pos + 4 <= bytes@.len(),
    ensures
        r == le32(bytes@, pos as int),
{
    let b0 = bytes[pos] as u32;
    let b1 = bytes[pos + 1] as u32;
    let b2 = bytes[pos + 2] as u32;
    let b3 = bytes[pos + 3] as u32;
    b0 + b1 * 0x100 + b2 * 0x1_0000 + b3 * 0x100_0000
}

pub fn read_le_u64(bytes: &[u8], pos: usize) -> (r: u64)
    requires
        pos + 8 <= bytes@.len(),
    ensures
        r == le64(bytes@, pos as int),
{
    let _n = bytes.len();
    let lo = read_le_u32(bytes, pos) as u64;
    let hi = read_le_u32(bytes, pos + 4) as u64;
    lo + hi * 0x1_0000_0000
}

pub fn read_le_i16(bytes: &[u8], pos: usize) -> (r: i16)
    requires
        pos + 2 <= bytes@.len(),
    ensures
        r as int == as_i16(le16(bytes@, pos as int)),
{
    let v = read_le_u16(bytes, pos) as i32;
    let w: i32 = if v < 0x8000 {
        v
    } else {
        v - 0x1_0000
    };
    w as i16
}

pub fn read_le_i32(bytes: &[u8], pos: usize) -> (r: i32)
    requires
        pos + 4 <= bytes@.len(),
    ensures
        r as int == as_i32(le32(bytes@, pos as int)),
{
    let v = read_le_u32(bytes, pos) as i64;
    let w: i64 = if v < 0x8000_0000 {
        v
    } else {
        v - 0x1_0000_0000
    };
    w as i32
}

pub fn read_le_i64(bytes: &[u8], pos: usize) -> (r: i64)
    requires
        pos + 8 <= bytes@.len(),
    ensures
        r as int == as_i64(le64(bytes@, pos as int)),
{
    let v = read_le_u64(bytes, pos) as i128;
    let w: i128 = if v < 0x8000_0000_0000_0000 {
        v
    } else {
        v - 0x1_0000_0000_0000_0000
    };
    w as i64
}

pub fn read_i8(bytes: &[u8], pos: usize) -> (r: i8)
    requires
        pos < bytes@.len(),
    ensures
        r as int == as_i8(bytes@[pos as int] as int),
{
    let v = bytes[pos] as i16;
    let w: i16 = if v < 0x80 {
        v
    } else {
        v - 0x100
    };
    w as i8
}

/// The bytes of `s` from `start` to `start + len`, as a fresh vector.
pub fn copy_range(bytes: &[u8], start: usize, len: usize) -> (r: Vec<u8>)
    requires
        start + len <= bytes@.len(),
    ensures
        r@ == bytes@.subrange(start as int, start as int + len as int),
{
    let n = bytes.len();
    let mut out: Vec<u8> = Vec::new();
    let mut i: usize = 0;
    while i < len
        invariant
            start + len <= n == bytes@.len(),
            i <= len,
            out@ == bytes@.subrange(start as int, start as int + i as int),
        decreases len - i,
    {
        out.push(bytes[start + i]);
        proof {
            assert(out@ =~= bytes@.subrange(start as int, start as int + (i + 1) as int));
        }
        i = i + 1;
    }
    out
}

} // verus!
