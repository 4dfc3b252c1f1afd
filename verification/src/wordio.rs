//! Little-endian readers for the 16-, 24- and 32-bit words that every
//! archive header and compressed stream of the engine is built from.

use vstd::prelude::*;

verus! {

/// The little-endian 16-bit word at byte index `i` of `b`.
pub open spec fn le16_at(b: Seq<u8>, i: int) -> int {
    b[i] + 0x100 * b[i + 1]
}

/// The little-endian 24-bit value at byte index `i` of `b`.
pub open spec fn le24_at(b: Seq<u8>, i: int) -> int {
    b[i] + 0x100 * b[i + 1] + 0x1_0000 * b[i + 2]
}

/// The little-endian 32-bit value at byte index `i` of `b`.
pub open spec fn le32_at(b: Seq<u8>, i: int) -> int {
    b[i] + 0x100 * b[i + 1] + 0x1_0000 * b[i + 2] + 0x100_0000 * b[i + 3]
}

/// Reads the little-endian 16-bit word at `pos`.
pub fn read_u16_le(data: &[u8], pos: usize) -> (r: u16)
    requires
        pos + 2 <= data@.len(),
    ensures
        r == le16_at(data@, pos as int),
{
    data[pos] as u16 + data[pos + 1] as u16 * 0x100
}

/// Reads the little-endian 24-bit value at `pos`.
pub fn read_u24_le(data: &[u8], pos: usize) -> (r: u32)
    requires
        pos + 3 <= data@.len(),
    ensures
        r == le24_at(data@, pos as int),
{
    data[pos] as u32 + data[pos + 1] as u32 * 0x100 + data[pos + 2] as u32 * 0x1_0000
}

/// Reads the little-endian 32-bit value at `pos`.
pub fn read_u32_le(data: &[u8], pos: usize) -> (r: u32)
    requires
        pos + 4 <= data@.len(),
    ensures
        r == le32_at(data@, pos as int),
{
    data[pos] as u32 + data[pos + 1] as u32 * 0x100 + data[pos + 2] as u32 * 0x1_0000
        + data[pos + 3] as u32 * 0x100_0000
}

} // verus!
