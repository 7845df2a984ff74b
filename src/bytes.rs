//! Big-endian integer reads from byte buffers.

use vstd::prelude::*;

verus! {

/// The unsigned 16-bit big-endian value stored at `at`.
pub open spec fn be_u16(b: Seq<u8>, at: int) -> int {
    b[at] as int * 0x100 + b[at + 1] as int
}

/// The unsigned 32-bit big-endian value stored at `at`.
pub open spec fn be_u32(b: Seq<u8>, at: int) -> int {
    b[at] as int * 0x100_0000 + b[at + 1] as int * 0x1_0000 + b[at + 2] as int * 0x100
        + b[at + 3] as int
}

/// The two's-complement reading of a 32-bit unsigned value.
pub open spec fn signed32(u: int) -> int {
    if u < 0x8000_0000 {
        u
    } else {
        u - 0x1_0000_0000
    }
}

/// The signed 32-bit big-endian value stored at `at`.
pub open spec fn be_i32(b: Seq<u8>, at: int) -> int {
    signed32(be_u32(b, at))
}

/// The two's-complement reading of one byte.
pub open spec fn signed8(b: u8) -> int {
    if b < 0x80 {
        b as int
    } else {
        b as int - 0x100
    }
}

/// Whether `n` bytes starting at `pos` lie within a buffer of length `len`,
/// computed without overflow.
pub fn fits(len: usize, pos: usize, n: usize) -> (r: bool)
    ensures
        r == (pos + n <= len),
{
    pos <= len && n <= len - pos
}

pub fn read_u16_be(b: &[u8], at: usize) -> (r: u16)
    requires
        at + 2 <= b@.len(),
    ensures
        r as int == be_u16(b@, at as int),
{
    (b[at] as u16) * 0x100 + (b[at + 1] as u16)
}

pub fn read_u32_be(b: &[u8], at: usize) -> (r: u32)
    requires
        at + 4 <= b@.len(),
    ensures
        r as int == be_u32(b@, at as int),
{
    (b[at] as u32) * 0x100_0000 + (b[at + 1] as u32) * 0x1_0000 + (b[at + 2] as u32) * 0x100
        + (b[at + 3] as u32)
}

pub fn read_i32_be(b: &[u8], at: usize) -> (r: i32)
    requires
        at + 4 <= b@.len(),
    ensures
        r as int == be_i32(b@, at as int),
{
    let u = read_u32_be(b, at);
    if u < 0x8000_0000 {
        u as i32
    } else {
        ((u - 0x8000_0000) as i32) - 0x7fff_ffff - 1
    }
}

pub fn read_i8(b: &[u8], at: usize) -> (r: i8)
    requires
        at < b@.len(),
    ensures
        r as int == signed8(b@[at as int]),
{
    let v = b[at];
    if v < 0x80 {
        v as i8
    } else {
        ((v - 0x80) as i8) - 0x7f - 1
    }
}

} // verus!
