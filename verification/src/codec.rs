//! Little-endian integers and byte ranges inside a buffer.

use vstd::prelude::*;

verus! {

/// The four bytes of `x`, least significant first.
pub open spec fn le32(x: u32) -> Seq<u8> {
    seq![
        (x & 0xff) as u8,
        ((x >> 8) & 0xff) as u8,
        ((x >> 16) & 0xff) as u8,
        ((x >> 24) & 0xff) as u8,
    ]
}

/// The eight bytes of `x`, least significant first.
pub open spec fn le64(x: u64) -> Seq<u8> {
    le32((x & 0xffff_ffff) as u32) + le32((x >> 32) as u32)
}

/// The integer whose little-endian bytes are `s[off..off + 4]`.
pub open spec fn get32(s: Seq<u8>, off: int) -> u32 {
    (s[off] as u32) | (s[off + 1] as u32) << 8 | (s[off + 2] as u32) << 16 | (s[off + 3] as u32)
        << 24
}

/// The integer whose little-endian bytes are `s[off..off + 8]`.
pub open spec fn get64(s: Seq<u8>, off: int) -> u64 {
    (get32(s, off) as u64) | (get32(s, off + 4) as u64) << 32
}

/// `s` with the bytes from `off` on replaced by `data`.
pub open spec fn splice(s: Seq<u8>, off: int, data: Seq<u8>) -> Seq<u8> {
    Seq::new(s.len(), |i: int| if off <= i < off + data.len() { data[i - off] } else { s[i] })
}

/// `n` zero bytes.
pub open spec fn zeros(n: nat) -> Seq<u8> {
    Seq::new(n, |i: int| 0u8)
}

/// Four bytes in little-endian order give back the number they were made
/// of.
pub proof fn lemma_le32_roundtrip(x: u32)
    ensures
        le32(x).len() == 4,
        get32(le32(x), 0) == x,
{
    let b0 = (x & 0xff) as u8;
    let b1 = ((x >> 8) & 0xff) as u8;
    let b2 = ((x >> 16) & 0xff) as u8;
    let b3 = ((x >> 24) & 0xff) as u8;
    assert((b0 as u32) | (b1 as u32) << 8 | (b2 as u32) << 16 | (b3 as u32) << 24 == x)
        by (bit_vector)
        requires
            b0 == (x & 0xff) as u8,
            b1 == ((x >> 8) & 0xff) as u8,
            b2 == ((x >> 16) & 0xff) as u8,
            b3 == ((x >> 24) & 0xff) as u8,
    ;
}

/// Eight bytes in little-endian order give back the number they were made
/// of.
pub proof fn lemma_le64_roundtrip(x: u64)
    ensures
        le64(x).len() == 8,
        get64(le64(x), 0) == x,
{
    let lo = (x & 0xffff_ffff) as u32;
    let hi = (x >> 32) as u32;
    lemma_le32_roundtrip(lo);
    lemma_le32_roundtrip(hi);
    let s = le64(x);
    assert(s[0] == le32(lo)[0] && s[1] == le32(lo)[1] && s[2] == le32(lo)[2] && s[3] == le32(
        lo,
    )[3]);
    assert(s[4] == le32(hi)[0] && s[5] == le32(hi)[1] && s[6] == le32(hi)[2] && s[7] == le32(
        hi,
    )[3]);
    assert(get32(s, 0) == lo);
    assert(get32(s, 4) == hi);
    assert((lo as u64) | (hi as u64) << 32 == x) by (bit_vector)
        requires
            lo == (x & 0xffff_ffff) as u32,
            hi == (x >> 32) as u32,
    ;
}

/// Reading an integer back from where it was spliced in gives the integer.
pub proof fn lemma_get32_splice_same(s: Seq<u8>, off: int, x: u32)
    requires
        0 <= off,
        off + 4 <= s.len(),
    ensures
        get32(splice(s, off, le32(x)), off) == x,
{
    lemma_le32_roundtrip(x);
    let t = splice(s, off, le32(x));
    assert(t[off] == le32(x)[0]);
    assert(t[off + 1] == le32(x)[1]);
    assert(t[off + 2] == le32(x)[2]);
    assert(t[off + 3] == le32(x)[3]);
}

/// A splice leaves an integer outside the spliced range as it was.
pub proof fn lemma_get32_splice_other(s: Seq<u8>, off: int, data: Seq<u8>, at: int)
    requires
        0 <= at,
        at + 4 <= s.len(),
        at + 4 <= off || off + data.len() <= at,
    ensures
        get32(splice(s, off, data), at) == get32(s, at),
{
}

/// Reads the little-endian integer at `off`.
pub fn read_u32(buf: &[u8], off: usize) -> (x: u32)
    requires
        off + 4 <= buf@.len(),
    ensures
        x == get32(buf@, off as int),
{
    (buf[off] as u32) | (buf[off + 1] as u32) << 8 | (buf[off + 2] as u32) << 16 | (buf[off
        + 3] as u32) << 24
}

/// Reads the little-endian 64-bit integer at `off`.
pub fn read_u64(buf: &[u8], off: usize) -> (x: u64)
    requires
        off + 8 <= buf@.len(),
    ensures
        x == get64(buf@, off as int),
{
    let len = buf.len();
    assert(off + 8 <= len);
    let lo = read_u32(buf, off);
    let hi = read_u32(buf, off + 4);
    (lo as u64) | (hi as u64) << 32
}

/// Writes `x` at `off`, least significant byte first.
pub fn write_u32(buf: &mut [u8], off: usize, x: u32)
    requires
        off + 4 <= old(buf)@.len(),
    ensures
        final(buf)@ == splice(old(buf)@, off as int, le32(x)),
{
    buf[off] = (x & 0xff) as u8;
    buf[off + 1] = ((x >> 8) & 0xff) as u8;
    buf[off + 2] = ((x >> 16) & 0xff) as u8;
    buf[off + 3] = ((x >> 24) & 0xff) as u8;
    assert(buf@ =~= splice(old(buf)@, off as int, le32(x)));
}

/// Writes `x` at `off`, least significant byte first.
pub fn write_u64(buf: &mut [u8], off: usize, x: u64)
    requires
        off + 8 <= old(buf)@.len(),
    ensures
        final(buf)@ == splice(old(buf)@, off as int, le64(x)),
{
    let len = buf.len();
    assert(off + 8 <= len);
    write_u32(buf, off, #[verifier::truncate] ((x & 0xffff_ffff) as u32));
    write_u32(buf, off + 4, #[verifier::truncate] ((x >> 32) as u32));
    assert(buf@ =~= splice(old(buf)@, off as int, le64(x)));
}

/// Copies `src` into `dst` from `off` on.
pub fn copy_into(dst: &mut [u8], off: usize, src: &[u8])
    requires
        off + src@.len() <= old(dst)@.len(),
    ensures
        final(dst)@ == splice(old(dst)@, off as int, src@),
{
    let len = dst.len();
    let mut i: usize = 0;
    while i < src.len()
        invariant
            i <= src@.len(),
            len == dst@.len(),
            off + src@.len() <= dst@.len(),
            dst@.len() == old(dst)@.len(),
            dst@ == splice(old(dst)@, off as int, src@.take(i as int)),
        decreases src@.len() - i,
    {
        dst[off + i] = src[i];
        i += 1;
        assert(dst@ =~= splice(old(dst)@, off as int, src@.take(i as int)));
    }
    assert(src@.take(i as int) =~= src@);
}

/// The `len` bytes of `src` from `off` on.
pub fn copy_out(src: &[u8], off: usize, len: usize) -> (out: Vec<u8>)
    requires
        off + len <= src@.len(),
    ensures
        out@ == src@.subrange(off as int, off + len),
{
    let total = src.len();
    let mut out: Vec<u8> = Vec::new();
    let mut i: usize = 0;
    while i < len
        invariant
            i <= len,
            total == src@.len(),
            off + len <= src@.len(),
            out@ == src@.subrange(off as int, off + i),
        decreases len - i,
    {
        out.push(src[off + i]);
        i += 1;
        assert(out@ =~= src@.subrange(off as int, off + i));
    }
    out
}

} // verus!
