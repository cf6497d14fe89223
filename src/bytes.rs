use vstd::prelude::*;

verus! {

/// Big-endian encoding of a 16-bit value.
pub open spec fn u16_bytes(x: u16) -> Seq<u8> {
    seq![(x >> 8u16) as u8, x as u8]
}

/// Big-endian encoding of a 32-bit value.
pub open spec fn u32_bytes(x: u32) -> Seq<u8> {
    seq![(x >> 24u32) as u8, (x >> 16u32) as u8, (x >> 8u32) as u8, x as u8]
}

/// Big-endian encoding of a 64-bit value.
pub open spec fn u64_bytes(x: u64) -> Seq<u8> {
    u32_bytes((x >> 32u64) as u32) + u32_bytes(x as u32)
}

/// The 16-bit big-endian value at `b[i..i + 2]`.
pub open spec fn read_u16(b: Seq<u8>, i: int) -> u16 {
    ((b[i] as u16) << 8u16) | (b[i + 1] as u16)
}

/// The 24-bit big-endian value at `b[i..i + 3]`.
pub open spec fn read_u24(b: Seq<u8>, i: int) -> u32 {
    ((b[i] as u32) << 16u32) | ((b[i + 1] as u32) << 8u32) | (b[i + 2] as u32)
}

/// The 32-bit big-endian value at `b[i..i + 4]`.
pub open spec fn read_u32(b: Seq<u8>, i: int) -> u32 {
    ((b[i] as u32) << 24u32) | ((b[i + 1] as u32) << 16u32) | ((b[i + 2] as u32) << 8u32) | (
    b[i + 3] as u32)
}

/// The 64-bit big-endian value at `b[i..i + 8]`.
pub open spec fn read_u64(b: Seq<u8>, i: int) -> u64 {
    ((read_u32(b, i) as u64) << 32u64) | (read_u32(b, i + 4) as u64)
}

/// `b` with the bytes at `i..i + s.len()` replaced by `s`.
pub open spec fn splice(b: Seq<u8>, i: int, s: Seq<u8>) -> Seq<u8> {
    b.subrange(0, i) + s + b.subrange(i + s.len(), b.len() as int)
}

pub proof fn lemma_u16_round_trip(x: u16)
    ensures
        read_u16(u16_bytes(x), 0) == x,
{
    let b = u16_bytes(x);
    let (h, l) = (b[0], b[1]);
    assert(h == (x >> 8u16) as u8 && l == x as u8);
    assert((((h as u16) << 8u16) | (l as u16)) == x) by (bit_vector)
        requires
            h == (x >> 8u16) as u8,
            l == x as u8,
    ;
}

pub proof fn lemma_u32_round_trip(x: u32)
    ensures
        read_u32(u32_bytes(x), 0) == x,
{
    let b = u32_bytes(x);
    let (b0, b1, b2, b3) = (b[0], b[1], b[2], b[3]);
    assert((((b0 as u32) << 24u32) | ((b1 as u32) << 16u32) | ((b2 as u32) << 8u32) | (b3 as u32))
        == x) by (bit_vector)
        requires
            b0 == (x >> 24u32) as u8,
            b1 == (x >> 16u32) as u8,
            b2 == (x >> 8u32) as u8,
            b3 == x as u8,
    ;
}

/// Reading the 32-bit value back at any offset where it was placed.
pub proof fn lemma_u32_at(b: Seq<u8>, i: int, x: u32)
    requires
        0 <= i,
        i + 4 <= b.len(),
        b.subrange(i, i + 4) == u32_bytes(x),
    ensures
        read_u32(b, i) == x,
{
    lemma_u32_round_trip(x);
    let s = b.subrange(i, i + 4);
    assert(s[0] == b[i] && s[1] == b[i + 1] && s[2] == b[i + 2] && s[3] == b[i + 3]);
}

pub proof fn lemma_u64_at(b: Seq<u8>, i: int, x: u64)
    requires
        0 <= i,
        i + 8 <= b.len(),
        b.subrange(i, i + 8) == u64_bytes(x),
    ensures
        read_u64(b, i) == x,
{
    let hi = (x >> 32u64) as u32;
    let lo = x as u32;
    assert(b.subrange(i, i + 4) =~= b.subrange(i, i + 8).subrange(0, 4));
    assert(b.subrange(i + 4, i + 8) =~= b.subrange(i, i + 8).subrange(4, 8));
    assert(u64_bytes(x).subrange(0, 4) =~= u32_bytes(hi));
    assert(u64_bytes(x).subrange(4, 8) =~= u32_bytes(lo));
    lemma_u32_at(b, i, hi);
    lemma_u32_at(b, i + 4, lo);
    assert((((hi as u64) << 32u64) | (lo as u64)) == x) by (bit_vector)
        requires
            hi == (x >> 32u64) as u32,
            lo == x as u32,
    ;
}

/// Reads the 16-bit big-endian value at `buf[i..i + 2]`.
pub fn get_u16(buf: &[u8], i: usize) -> (r: u16)
    requires
        i + 2 <= buf@.len(),
    ensures
        r == read_u16(buf@, i as int),
{
    ((buf[i] as u16) << 8u16) | (buf[i + 1] as u16)
}

/// Reads the 24-bit big-endian value at `buf[i..i + 3]`.
pub fn get_u24(buf: &[u8], i: usize) -> (r: u32)
    requires
        i + 3 <= buf@.len(),
    ensures
        r == read_u24(buf@, i as int),
        r < 0x100_0000,
{
    let (a, b, c) = (buf[i], buf[i + 1], buf[i + 2]);
    let r = ((a as u32) << 16u32) | ((b as u32) << 8u32) | (c as u32);
    assert((((a as u32) << 16u32) | ((b as u32) << 8u32) | (c as u32)) < 0x100_0000u32)
        by (bit_vector);
    r
}

/// Reads the 32-bit big-endian value at `buf[i..i + 4]`.
pub fn get_u32(buf: &[u8], i: usize) -> (r: u32)
    requires
        i + 4 <= buf@.len(),
    ensures
        r == read_u32(buf@, i as int),
{
    ((buf[i] as u32) << 24u32) | ((buf[i + 1] as u32) << 16u32) | ((buf[i + 2] as u32) << 8u32) | (
    buf[i + 3] as u32)
}

/// Reads the 64-bit big-endian value at `buf[i..i + 8]`.
pub fn get_u64(buf: &[u8], i: usize) -> (r: u64)
    requires
        i + 8 <= buf@.len(),
    ensures
        r == read_u64(buf@, i as int),
{
    let _n = buf.len();
    ((get_u32(buf, i) as u64) << 32u64) | (get_u32(buf, i + 4) as u64)
}

/// Writes `x` big-endian at `buf[i..i + 2]`.
pub fn put_u16(buf: &mut [u8], i: usize, x: u16)
    requires
        i + 2 <= old(buf)@.len(),
    ensures
        final(buf)@ == splice(old(buf)@, i as int, u16_bytes(x)),
{
    buf[i] = (x >> 8u16) as u8;
    buf[i + 1] = x as u8;
    assert(buf@ =~= splice(old(buf)@, i as int, u16_bytes(x)));
}

/// Writes `x` big-endian at `buf[i..i + 4]`.
pub fn put_u32(buf: &mut [u8], i: usize, x: u32)
    requires
        i + 4 <= old(buf)@.len(),
    ensures
        final(buf)@ == splice(old(buf)@, i as int, u32_bytes(x)),
{
    buf[i] = (x >> 24u32) as u8;
    buf[i + 1] = (x >> 16u32) as u8;
    buf[i + 2] = (x >> 8u32) as u8;
    buf[i + 3] = x as u8;
    assert(buf@ =~= splice(old(buf)@, i as int, u32_bytes(x)));
}

/// Splicing two adjacent runs is splicing their concatenation.
pub proof fn lemma_splice_concat(b: Seq<u8>, i: int, s: Seq<u8>, t: Seq<u8>)
    requires
        0 <= i,
        i + s.len() + t.len() <= b.len(),
    ensures
        splice(splice(b, i, s), i + s.len(), t) == splice(b, i, s + t),
        splice(b, i, s).len() == b.len(),
{
    assert(splice(splice(b, i, s), i + s.len(), t) =~= splice(b, i, s + t));
}

/// Writes `x` big-endian at `buf[i..i + 8]`.
pub fn put_u64(buf: &mut [u8], i: usize, x: u64)
    requires
        i + 8 <= old(buf)@.len(),
    ensures
        final(buf)@ == splice(old(buf)@, i as int, u64_bytes(x)),
{
    let ghost b0 = buf@;
    let _n = buf.len();
    put_u32(buf, i, (x >> 32u64) as u32);
    put_u32(buf, i + 4, x as u32);
    proof {
        lemma_splice_concat(b0, i as int, u32_bytes((x >> 32u64) as u32), u32_bytes(x as u32));
    }
}

} // verus!
