//! Big-endian byte helpers used by the page layout.

use vstd::prelude::*;

verus! {

/// The big-endian 16-bit value stored at `off` in `b`.
pub open spec fn be16(b: Seq<u8>, off: int) -> int {
    b[off] as int * 256 + b[off + 1] as int
}

/// `b` with the big-endian encoding of `v` written at `off`.
pub open spec fn put16(b: Seq<u8>, off: int, v: int) -> Seq<u8> {
    b.update(off, (v / 256) as u8).update(off + 1, (v % 256) as u8)
}

/// Reading back a 16-bit value just written gives the value.
pub proof fn lemma_be16_put16(b: Seq<u8>, off: int, v: int)
    requires
        0 <= off,
        off + 2 <= b.len(),
        0 <= v < 0x10000,
    ensures
        be16(put16(b, off, v), off) == v,
        put16(b, off, v).len() == b.len(),
{
}

/// Writes one byte at `offset`.
pub fn write_u8(buffer: &mut [u8], offset: usize, value: u8)
    requires
        offset < old(buffer)@.len(),
    ensures
        final(buffer)@ == old(buffer)@.update(offset as int, value),
{
    buffer[offset] = value;
}

/// Reads the byte at `offset`.
pub fn read_u8(buffer: &[u8], offset: usize) -> (r: u8)
    requires
        offset < buffer@.len(),
    ensures
        r == buffer@[offset as int],
{
    buffer[offset]
}

/// Writes `value` big-endian at `offset..offset + 2`.
pub fn write_u16(buffer: &mut [u8], offset: usize, value: u16)
    requires
        offset + 2 <= old(buffer)@.len(),
    ensures
        final(buffer)@ == put16(old(buffer)@, offset as int, value as int),
{
    buffer[offset] = (value / 256) as u8;
    buffer[offset + 1] = (value % 256) as u8;
}

/// Reads the big-endian value at `offset..offset + 2`.
pub fn read_u16(buffer: &[u8], offset: usize) -> (r: u16)
    requires
        offset + 2 <= buffer@.len(),
    ensures
        r as int == be16(buffer@, offset as int),
{
    let hi = buffer[offset] as u16;
    let lo = buffer[offset + 1] as u16;
    hi * 256 + lo
}

} // verus!
