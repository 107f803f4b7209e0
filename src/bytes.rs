//! Little-endian integers read from byte sequences.
use byteorder::{ByteOrder, LittleEndian};
use vstd::prelude::*;

verus! {

/// The unsigned 16-bit little-endian integer stored at `off` in `b`.
pub open spec fn le_u16(b: Seq<u8>, off: int) -> int {
    b[off] + 256 * b[off + 1]
}

/// The unsigned 32-bit little-endian integer stored at `off` in `b`.
pub open spec fn le_u32(b: Seq<u8>, off: int) -> int {
    le_u16(b, off) + 65536 * le_u16(b, off + 2)
}

/// Relies on byteorder's `LittleEndian::read_u16`: the first two bytes of its
/// argument, least significant first.
#[verifier::external_body]
pub(crate) fn read_u16_at(b: &[u8], off: usize) -> (r: u16)
    requires
        off + 2 <= b@.len(),
    ensures
        r as int == le_u16(b@, off as int),
{
    LittleEndian::read_u16(&b[off..off + 2])
}

/// Relies on byteorder's `LittleEndian::read_u32`: the first four bytes of its
/// argument, least significant first.
#[verifier::external_body]
pub(crate) fn read_u32_at(b: &[u8], off: usize) -> (r: u32)
    requires
        off + 4 <= b@.len(),
    ensures
        r as int == le_u32(b@, off as int),
{
    LittleEndian::read_u32(&b[off..off + 4])
}

} // verus!
