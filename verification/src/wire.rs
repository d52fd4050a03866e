//! Big-endian integers in byte buffers.

use vstd::prelude::*;

verus! {

/// The two bytes at `i` as a big-endian number.
pub open spec fn be16(data: Seq<u8>, i: int) -> u16 {
    (data[i] * 0x100 + data[i + 1]) as u16
}

/// The four bytes at `i` as a big-endian number.
pub open spec fn be32(data: Seq<u8>, i: int) -> u32 {
    (be16(data, i) * 0x1_0000 + be16(data, i + 2)) as u32
}

/// Reads the two bytes at `i` as a big-endian number.
pub fn read_be16(data: &[u8], i: usize) -> (res: u16)
    requires
        i + 2 <= data.len(),
    ensures
        res == be16(data@, i as int),
{
    data[i] as u16 * 0x100 + data[i + 1] as u16
}

/// Reads the four bytes at `i` as a big-endian number.
pub fn read_be32(data: &[u8], i: usize) -> (res: u32)
    requires
        i + 4 <= data.len(),
    ensures
        res == be32(data@, i as int),
{
    read_be16(data, i) as u32 * 0x1_0000 + read_be16(data, i + 2) as u32
}

} // verus!
