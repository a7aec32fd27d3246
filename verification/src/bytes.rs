use vstd::prelude::*;

verus! {

/// The little-endian value of the two bytes at `off`.
pub open spec fn le_u16(b: Seq<u8>, off: int) -> int {
    b[off] + 0x100 * b[off + 1]
}

/// The little-endian value of the four bytes at `off`.
pub open spec fn le_u32(b: Seq<u8>, off: int) -> int {
    le_u16(b, off) + 0x1_0000 * le_u16(b, off + 2)
}

/// The little-endian value of the eight bytes at `off`.
pub open spec fn le_u64(b: Seq<u8>, off: int) -> int {
    le_u32(b, off) + 0x1_0000_0000 * le_u32(b, off + 4)
}

/// Reads a little-endian `u16` at `off`.
pub fn read_u16(b: &[u8], off: usize) -> (v: u16)
    requires
        off + 2 <= b@.len(),
    ensures
        v == le_u16(b@, off as int),
{
    b[off] as u16 + 0x100 * (b[off + 1] as u16)
}

/// Reads a little-endian `u32` at `off`.
pub fn read_u32(b: &[u8], off: usize) -> (v: u32)
    requires
        off + 4 <= b@.len(),
    ensures
        v == le_u32(b@, off as int),
{
    assert(b.len() == b@.len());
    let lo = read_u16(b, off);
    let hi = read_u16(b, off + 2);
    lo as u32 + 0x1_0000 * (hi as u32)
}

/// Reads a little-endian `u64` at `off`.
pub fn read_u64(b: &[u8], off: usize) -> (v: u64)
    requires
        off + 8 <= b@.len(),
    ensures
        v == le_u64(b@, off as int),
{
    assert(b.len() == b@.len());
    let lo = read_u32(b, off);
    let hi = read_u32(b, off + 4);
    lo as u64 + 0x1_0000_0000 * (hi as u64)
}

} // verus!
