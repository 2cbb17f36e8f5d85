//! Big-endian readers for the fixed-width integer fields of the format.

use vstd::prelude::*;

verus! {

/// The 16-bit big-endian integer stored at `off` in `s`.
pub open spec fn be16(s: Seq<u8>, off: int) -> int {
    s[off] * 256 + s[off + 1]
}

/// The 32-bit big-endian integer stored at `off` in `s`.
pub open spec fn be32(s: Seq<u8>, off: int) -> int {
    ((s[off] * 256 + s[off + 1]) * 256 + s[off + 2]) * 256 + s[off + 3]
}

/// Reads the 16-bit big-endian integer at `off`.
pub fn read_u16_be(buf: &[u8], off: usize) -> (r: u16)
    requires
        off + 2 <= buf@.len(),
    ensures
        r == be16(buf@, off as int),
{
    let b0 = buf[off];
    let b1 = buf[off + 1];
    (b0 as u16) * 256 + (b1 as u16)
}

/// Reads the 32-bit big-endian integer at `off`.
pub fn read_u32_be(buf: &[u8], off: usize) -> (r: u32)
    requires
        off + 4 <= buf@.len(),
    ensures
        r == be32(buf@, off as int),
{
    let b0 = buf[off];
    let b1 = buf[off + 1];
    let b2 = buf[off + 2];
    let b3 = buf[off + 3];
    (((b0 as u32) * 256 + (b1 as u32)) * 256 + (b2 as u32)) * 256 + (b3 as u32)
}

/// Copies `buf[off .. off + len]` into a fresh vector.
pub fn copy_range(buf: &[u8], off: usize, len: usize) -> (r: Vec<u8>)
    requires
        off + len <= buf@.len(),
    ensures
        r@ == buf@.subrange(off as int, off as int + len as int),
{
    let n = buf.len();
    let mut out: Vec<u8> = Vec::new();
    let mut i: usize = 0;
    while i < len
        invariant
            i <= len,
            off + len <= n,
            n == buf@.len(),
            out@ == buf@.subrange(off as int, off as int + i as int),
        decreases len - i,
    {
        out.push(buf[off + i]);
        i = i + 1;
        proof {
            assert(out@ =~= buf@.subrange(off as int, off as int + i as int));
        }
    }
    out
}

} // verus!
