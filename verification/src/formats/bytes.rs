//! Little-endian numbers in byte sequences.

use vstd::prelude::*;

verus! {

/// The 16-bit number at an offset, least significant byte first.
pub open spec fn le_u16_at(data: Seq<u8>, at: int) -> u16 {
    (data[at] as int + data[at + 1] as int * 0x100) as u16
}

/// The 32-bit number at an offset, least significant byte first.
pub open spec fn le_u32_at(data: Seq<u8>, at: int) -> u32 {
    (data[at] as int + data[at + 1] as int * 0x100 + data[at + 2] as int * 0x1_0000 + data[at
        + 3] as int * 0x100_0000) as u32
}

/// The 64-bit number at an offset, least significant byte first.
pub open spec fn le_u64_at(data: Seq<u8>, at: int) -> u64 {
    (le_u32_at(data, at) as int + le_u32_at(data, at + 4) as int * 0x1_0000_0000) as u64
}

/// Reads the 16-bit number at an offset.
pub fn read_u16(data: &[u8], at: usize) -> (r: u16)
    requires
        at + 2 <= data.len(),
    ensures
        r == le_u16_at(data@, at as int),
{
    (data[at] as u16) + (data[at + 1] as u16) * 0x100
}

/// Reads the 32-bit number at an offset.
pub fn read_u32(data: &[u8], at: usize) -> (r: u32)
    requires
        at + 4 <= data.len(),
    ensures
        r == le_u32_at(data@, at as int),
{
    (data[at] as u32) + (data[at + 1] as u32) * 0x100 + (data[at + 2] as u32) * 0x1_0000 + (data[at
        + 3] as u32) * 0x100_0000
}

/// Reads the 64-bit number at an offset.
pub fn read_u64(data: &[u8], at: usize) -> (r: u64)
    requires
        at + 8 <= data.len(),
    ensures
        r == le_u64_at(data@, at as int),
{
    (read_u32(data, at) as u64) + (read_u32(data, at + 4) as u64) * 0x1_0000_0000
}

} // verus!
