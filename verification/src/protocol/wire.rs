//! Big-endian encoding of the fixed-width integers that make up mDNS
//! records.

use vstd::prelude::*;

verus! {

/// The two bytes of `v`, most significant first.
pub open spec fn u16_be_bytes(v: u16) -> Seq<u8> {
    seq![(v / 256) as u8, (v % 256) as u8]
}

/// The 16-bit number whose big-endian bytes are `hi` and `lo`.
pub open spec fn u16_from_be(hi: u8, lo: u8) -> u16 {
    (hi * 256 + lo) as u16
}

/// The four bytes of `v`, most significant first.
pub open spec fn u32_be_bytes(v: u32) -> Seq<u8> {
    seq![
        (v / 0x100_0000) as u8,
        ((v / 0x1_0000) % 256) as u8,
        ((v / 256) % 256) as u8,
        (v % 256) as u8,
    ]
}

/// The 32-bit number whose big-endian bytes are `b0`, `b1`, `b2`, `b3`.
pub open spec fn u32_from_be(b0: u8, b1: u8, b2: u8, b3: u8) -> u32 {
    (b0 * 0x100_0000 + b1 * 0x1_0000 + b2 * 256 + b3) as u32
}

/// Reading back the bytes of a 16-bit number gives the number.
pub proof fn lemma_u16_be_roundtrip(v: u16)
    ensures
        u16_from_be(u16_be_bytes(v)[0], u16_be_bytes(v)[1]) == v,
{
}

/// Reading back the bytes of a 32-bit number gives the number.
pub proof fn lemma_u32_be_roundtrip(v: u32)
    ensures
        u32_from_be(u32_be_bytes(v)[0], u32_be_bytes(v)[1], u32_be_bytes(v)[2], u32_be_bytes(v)[3])
            == v,
{
}

/// The big-endian bytes of a 16-bit number.
pub fn u16_to_be(v: u16) -> (r: [u8; 2])
    ensures
        r@ == u16_be_bytes(v),
{
    let hi: u8 = (v >> 8) as u8;
    let lo: u8 = (v & 0xff) as u8;
    assert(((v >> 8) as u8) == (v / 256) as u8 && ((v & 0xff) as u8) == (v % 256) as u8)
        by (bit_vector);
    let r = [hi, lo];
    assert(r@ =~= u16_be_bytes(v));
    r
}

/// The 16-bit number whose big-endian bytes are `hi` and `lo`.
pub fn u16_of_be(hi: u8, lo: u8) -> (r: u16)
    ensures
        r == u16_from_be(hi, lo),
{
    let r: u16 = ((hi as u16) << 8) | (lo as u16);
    assert(((hi as u16) << 8) | (lo as u16) == (hi * 256 + lo) as u16) by (bit_vector);
    r
}

/// The big-endian bytes of a 32-bit number.
pub fn u32_to_be(v: u32) -> (r: [u8; 4])
    ensures
        r@ == u32_be_bytes(v),
{
    let b0: u8 = (v >> 24) as u8;
    let b1: u8 = ((v >> 16) & 0xff) as u8;
    let b2: u8 = ((v >> 8) & 0xff) as u8;
    let b3: u8 = (v & 0xff) as u8;
    assert(((v >> 24) as u8) == (v / 0x100_0000) as u8 && (((v >> 16) & 0xff) as u8) == ((v
        / 0x1_0000) % 256) as u8 && (((v >> 8) & 0xff) as u8) == ((v / 256) % 256) as u8 && ((v
        & 0xff) as u8) == (v % 256) as u8) by (bit_vector);
    let r = [b0, b1, b2, b3];
    assert(r@ =~= u32_be_bytes(v));
    r
}

/// The 32-bit number whose big-endian bytes are `b0` to `b3`.
pub fn u32_of_be(b0: u8, b1: u8, b2: u8, b3: u8) -> (r: u32)
    ensures
        r == u32_from_be(b0, b1, b2, b3),
{
    let r: u32 = ((b0 as u32) << 24) | ((b1 as u32) << 16) | ((b2 as u32) << 8) | (b3 as u32);
    assert(((b0 as u32) << 24) | ((b1 as u32) << 16) | ((b2 as u32) << 8) | (b3 as u32) == (b0
        * 0x100_0000 + b1 * 0x1_0000 + b2 * 256 + b3) as u32) by (bit_vector);
    r
}

/// Appends all of `src` to the end of `dst`.
pub fn extend_bytes(dst: &mut Vec<u8>, src: &[u8])
    ensures
        final(dst)@ == old(dst)@ + src@,
{
    let ghost start = dst@;
    let mut i: usize = 0;
    while i < src.len()
        invariant
            i <= src@.len(),
            dst@ == start + src@.subrange(0, i as int),
        decreases src@.len() - i,
    {
        dst.push(src[i]);
        i = i + 1;
        assert(dst@ =~= start + src@.subrange(0, i as int));
    }
    assert(src@.subrange(0, i as int) =~= src@);
}

} // verus!
