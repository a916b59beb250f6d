//! Little-endian integers inside a byte sequence.
use vstd::prelude::*;

verus! {

/// The little-endian 16-bit value stored at `o`.
pub open spec fn le16(d: Seq<u8>, o: int) -> nat {
    (d[o] as nat) + 256 * (d[o + 1] as nat)
}

/// The little-endian 32-bit value stored at `o`.
pub open spec fn le32(d: Seq<u8>, o: int) -> nat {
    le16(d, o) + 65536 * le16(d, o + 2)
}

/// Reads the little-endian `u16` at `o`.
pub fn read_u16_le(d: &[u8], o: usize) -> (r: u16)
    requires
        o + 2 <= d@.len(),
    ensures
        r as nat == le16(d@, o as int),
{
    (d[o] as u16) + (d[o + 1] as u16) * 256
}

/// Reads the little-endian `u32` at `o`.
pub fn read_u32_le(d: &[u8], o: usize) -> (r: u32)
    requires
        o + 4 <= d.len(),
    ensures
        r as nat == le32(d@, o as int),
{
    let lo = read_u16_le(d, o);
    let hi = read_u16_le(d, o + 2);
    (lo as u32) + (hi as u32) * 65536
}

/// The two bytes of `v` (below 65536), low byte first.
pub open spec fn le16_bytes(v: nat) -> Seq<u8> {
    seq![(v % 256) as u8, (v / 256) as u8]
}

/// The four bytes of `v` (below 2^32), low byte first.
pub open spec fn le32_bytes(v: nat) -> Seq<u8> {
    le16_bytes(v % 65536) + le16_bytes(v / 65536)
}

/// `d` with the bytes from `o` on replaced by `b`.
pub open spec fn splice(d: Seq<u8>, o: int, b: Seq<u8>) -> Seq<u8> {
    d.subrange(0, o) + b + d.subrange(o + b.len(), d.len() as int)
}

/// The little-endian bytes of `v`.
pub fn u32_le_bytes(v: u32) -> (r: [u8; 4])
    ensures
        r@ == le32_bytes(v as nat),
{
    let lo = v % 65536;
    let hi = v / 65536;
    let r: [u8; 4] = [(lo % 256) as u8, (lo / 256) as u8, (hi % 256) as u8, (hi / 256) as u8];
    assert(r@ =~= le32_bytes(v as nat));
    r
}

/// The little-endian bytes of `v`.
pub fn u16_le_bytes(v: u16) -> (r: [u8; 2])
    ensures
        r@ == le16_bytes(v as nat),
{
    let r: [u8; 2] = [(v % 256) as u8, (v / 256) as u8];
    assert(r@ =~= le16_bytes(v as nat));
    r
}

/// Overwrites the bytes of `d` from `o` on with `b`.
pub fn write_bytes(d: &mut Vec<u8>, o: usize, b: &[u8])
    requires
        o + b@.len() <= old(d)@.len(),
    ensures
        final(d)@ == splice(old(d)@, o as int, b@),
{
    let n: usize = d.len();
    let mut k: usize = 0;
    while k < b.len()
        invariant
            k <= b@.len(),
            n == d@.len(),
            n == old(d)@.len(),
            o + b@.len() <= n,
            d@ == splice(old(d)@, o as int, b@.subrange(0, k as int)),
        decreases b@.len() - k,
    {
        d[o + k] = b[k];
        k = k + 1;
        assert(d@ =~= splice(old(d)@, o as int, b@.subrange(0, k as int)));
    }
    assert(b@.subrange(0, b@.len() as int) =~= b@);
}

} // verus!
