//! Little-endian field decoding.
//!
//! Every multi-byte field of the on-disk structures is little-endian and
//! may be unaligned, so each is decoded byte-wise from its offset.

use vstd::prelude::*;

verus! {

/// The 16-bit little-endian value at byte offset `off` of `s`.
pub open spec fn spec_le16(s: Seq<u8>, off: int) -> u16 {
    vstd::bytes::spec_u16_from_le_bytes(s.subrange(off, off + 2))
}

/// The 32-bit little-endian value at byte offset `off` of `s`.
pub open spec fn spec_le32(s: Seq<u8>, off: int) -> u32 {
    vstd::bytes::spec_u32_from_le_bytes(s.subrange(off, off + 4))
}

/// Reads the 16-bit little-endian value at byte offset `off` of `b`.
pub fn le16_at(b: &[u8], off: usize) -> (x: u16)
    requires
        off + 2 <= b@.len(),
        b@.len() <= usize::MAX,
    ensures
        x == spec_le16(b@, off as int),
{
    vstd::bytes::u16_from_le_bytes(vstd::slice::slice_subrange(b, off, off + 2))
}

/// Reads the 32-bit little-endian value at byte offset `off` of `b`.
pub fn le32_at(b: &[u8], off: usize) -> (x: u32)
    requires
        off + 4 <= b@.len(),
        b@.len() <= usize::MAX,
    ensures
        x == spec_le32(b@, off as int),
{
    vstd::bytes::u32_from_le_bytes(vstd::slice::slice_subrange(b, off, off + 4))
}

/// A sequence of `n` zero bytes.
pub open spec fn zero_bytes(n: nat) -> Seq<u8> {
    Seq::new(n, |i: int| 0u8)
}

/// Allocates a buffer of `n` zero bytes.
pub fn zeroed(n: usize) -> (v: Vec<u8>)
    ensures
        v@ == zero_bytes(n as nat),
{
    let mut v: Vec<u8> = Vec::new();
    proof {
        assert(v@ =~= zero_bytes(0));
    }
    let mut i: usize = 0;
    while i < n
        invariant
            i <= n,
            v@ == zero_bytes(i as nat),
        decreases n - i,
    {
        v.push(0u8);
        proof {
            assert(v@ =~= zero_bytes((i + 1) as nat));
        }
        i += 1;
    }
    v
}

/// What a zeroed buffer of length `len` holds after one sector read: the
/// front of the sector, up to the smaller of the buffer length and the
/// sector size, with zeros beyond it.
pub open spec fn spec_sector_read(sector: Seq<u8>, sector_size: u64, len: nat) -> Seq<u8> {
    let k = if len < sector_size { len as int } else { sector_size as int };
    sector.take(k) + zero_bytes(len).skip(k)
}

} // verus!
