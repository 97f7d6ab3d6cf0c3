//! Little-endian fixed-width reads from a byte sequence, with the arithmetic
//! statements the decoder's contracts are written over.

use vstd::prelude::*;

verus! {

/// The 16-bit unsigned value of two little-endian bytes.
pub open spec fn spec_le16_at(b: Seq<u8>, p: int) -> u16 {
    (b[p] + b[p + 1] * 0x100) as u16
}

/// The 32-bit unsigned value of four little-endian bytes.
pub open spec fn spec_le32_at(b: Seq<u8>, p: int) -> u32 {
    (b[p] + b[p + 1] * 0x100 + b[p + 2] * 0x10000 + b[p + 3] * 0x1000000) as u32
}

/// The 64-bit unsigned value of eight little-endian bytes.
pub open spec fn spec_le64_at(b: Seq<u8>, p: int) -> u64 {
    (b[p] + b[p + 1] * 0x100 + b[p + 2] * 0x10000 + b[p + 3] * 0x1000000
        + b[p + 4] * 0x100000000 + b[p + 5] * 0x10000000000 + b[p + 6] * 0x1000000000000
        + b[p + 7] * 0x100000000000000) as u64
}

/// Reads two little-endian bytes as a u16.
pub fn read_u16_le(buffer: &[u8], pos: usize) -> (r: u16)
    requires
        pos + 2 <= buffer@.len(),
    ensures
        r == spec_le16_at(buffer@, pos as int),
{
    buffer[pos] as u16 + (buffer[pos + 1] as u16) * 0x100
}

/// Reads four little-endian bytes as a u32.
pub fn read_u32_le(buffer: &[u8], pos: usize) -> (r: u32)
    requires
        pos + 4 <= buffer@.len(),
    ensures
        r == spec_le32_at(buffer@, pos as int),
{
    buffer[pos] as u32 + (buffer[pos + 1] as u32) * 0x100 + (buffer[pos + 2] as u32) * 0x10000
        + (buffer[pos + 3] as u32) * 0x1000000
}

/// Reads eight little-endian bytes as a u64.
pub fn read_u64_le(buffer: &[u8], pos: usize) -> (r: u64)
    requires
        pos + 8 <= buffer@.len(),
    ensures
        r == spec_le64_at(buffer@, pos as int),
{
    buffer[pos] as u64 + (buffer[pos + 1] as u64) * 0x100 + (buffer[pos + 2] as u64) * 0x10000
        + (buffer[pos + 3] as u64) * 0x1000000 + (buffer[pos + 4] as u64) * 0x100000000
        + (buffer[pos + 5] as u64) * 0x10000000000 + (buffer[pos + 6] as u64) * 0x1000000000000
        + (buffer[pos + 7] as u64) * 0x100000000000000
}

} // verus!
