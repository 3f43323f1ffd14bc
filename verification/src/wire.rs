//! Big-endian integer encoding on byte buffers.
use vstd::prelude::*;

verus! {

/// Big-endian bytes of a `u16`.
pub open spec fn be16(n: u16) -> Seq<u8> {
    seq![(n / 0x100) as u8, (n % 0x100) as u8]
}

/// Big-endian bytes of a `u32`.
pub open spec fn be32(n: u32) -> Seq<u8> {
    seq![
        (n / 0x1000000) as u8,
        ((n / 0x10000) % 0x100) as u8,
        ((n / 0x100) % 0x100) as u8,
        (n % 0x100) as u8,
    ]
}

/// Big-endian bytes of a `u64`.
pub open spec fn be64(n: u64) -> Seq<u8> {
    be32((n / 0x1_0000_0000) as u32) + be32((n % 0x1_0000_0000) as u32)
}

/// The `u16` stored big-endian at `pos`.
#[verifier::opaque]
pub closed spec fn read16(s: Seq<u8>, pos: int) -> u16 {
    (s[pos] as int * 0x100 + s[pos + 1] as int) as u16
}

/// The `u32` stored big-endian at `pos`.
#[verifier::opaque]
pub closed spec fn read32(s: Seq<u8>, pos: int) -> u32 {
    (s[pos] as int * 0x1000000 + s[pos + 1] as int * 0x10000 + s[pos + 2] as int * 0x100
        + s[pos + 3] as int) as u32
}

/// The `u64` stored big-endian at `pos`.
#[verifier::opaque]
pub closed spec fn read64(s: Seq<u8>, pos: int) -> u64 {
    (read32(s, pos) as int * 0x1_0000_0000 + read32(s, pos + 4) as int) as u64
}

/// The lengths of the encodings.
pub proof fn lemma_be_lens(a: u16, b: u32, c: u64)
    ensures
        be16(a).len() == 2,
        be32(b).len() == 4,
        be64(c).len() == 8,
{
}

/// Whether `s` holds the bytes `t` starting at `pos`.
pub open spec fn holds_at(s: Seq<u8>, pos: int, t: Seq<u8>) -> bool {
    0 <= pos && pos + t.len() <= s.len() && s.subrange(pos, pos + t.len()) == t
}

pub proof fn lemma_read16(s: Seq<u8>, pos: int, n: u16)
    requires
        holds_at(s, pos, be16(n)),
    ensures
        read16(s, pos) == n,
{
    reveal(read16);
    assert(s[pos] == s.subrange(pos, pos + 2)[0]);
    assert(s[pos + 1] == s.subrange(pos, pos + 2)[1]);
}

pub proof fn lemma_read32(s: Seq<u8>, pos: int, n: u32)
    requires
        holds_at(s, pos, be32(n)),
    ensures
        read32(s, pos) == n,
{
    reveal(read32);
    let t = s.subrange(pos, pos + 4);
    assert(s[pos] == t[0]);
    assert(s[pos + 1] == t[1]);
    assert(s[pos + 2] == t[2]);
    assert(s[pos + 3] == t[3]);
}

pub proof fn lemma_read64(s: Seq<u8>, pos: int, n: u64)
    requires
        holds_at(s, pos, be64(n)),
    ensures
        read64(s, pos) == n,
{
    reveal(read64);
    let hi: u32 = (n / 0x1_0000_0000) as u32;
    let lo: u32 = (n % 0x1_0000_0000) as u32;
    let t = s.subrange(pos, pos + 8);
    assert(s.subrange(pos, pos + 4) == t.subrange(0, 4));
    assert(t.subrange(0, 4) == be32(hi));
    assert(s.subrange(pos + 4, pos + 8) == t.subrange(4, 8));
    assert(t.subrange(4, 8) == be32(lo));
    lemma_read32(s, pos, hi);
    lemma_read32(s, pos + 4, lo);
}

/// Appends one byte.
pub fn put_u8(dst: &mut Vec<u8>, n: u8)
    ensures
        final(dst)@ == old(dst)@.push(n),
{
    dst.push(n);
}

/// Appends a `u16` in big-endian order.
pub fn put_u16(dst: &mut Vec<u8>, n: u16)
    ensures
        final(dst)@ == old(dst)@ + be16(n),
{
    dst.push((n / 0x100) as u8);
    dst.push((n % 0x100) as u8);
    assert(dst@ =~= old(dst)@ + be16(n));
}

/// Appends a `u32` in big-endian order.
pub fn put_u32(dst: &mut Vec<u8>, n: u32)
    ensures
        final(dst)@ == old(dst)@ + be32(n),
{
    dst.push((n / 0x1000000) as u8);
    dst.push(((n / 0x10000) % 0x100) as u8);
    dst.push(((n / 0x100) % 0x100) as u8);
    dst.push((n % 0x100) as u8);
    assert(dst@ =~= old(dst)@ + be32(n));
}

/// Appends a `u64` in big-endian order.
pub fn put_u64(dst: &mut Vec<u8>, n: u64)
    ensures
        final(dst)@ == old(dst)@ + be64(n),
{
    put_u32(dst, (n / 0x1_0000_0000) as u32);
    put_u32(dst, (n % 0x1_0000_0000) as u32);
    assert(dst@ =~= old(dst)@ + be64(n));
}

/// Appends a run of bytes.
pub fn put_slice(dst: &mut Vec<u8>, src: &[u8])
    ensures
        final(dst)@ == old(dst)@ + src@,
{
    let mut i: usize = 0;
    while i < src.len()
        invariant
            i <= src.len(),
            dst@ == old(dst)@ + src@.subrange(0, i as int),
        decreases src.len() - i,
    {
        dst.push(src[i]);
        i = i + 1;
        assert(dst@ =~= old(dst)@ + src@.subrange(0, i as int));
    }
    assert(src@.subrange(0, src.len() as int) =~= src@);
}

/// Reads a `u16` stored big-endian at `pos`.
pub fn get_u16(src: &[u8], pos: usize) -> (n: u16)
    requires
        pos + 2 <= src@.len(),
    ensures
        n == read16(src@, pos as int),
{
    reveal(read16);
    (src[pos] as u16) * 0x100 + (src[pos + 1] as u16)
}

/// Reads a `u32` stored big-endian at `pos`.
pub fn get_u32(src: &[u8], pos: usize) -> (n: u32)
    requires
        pos + 4 <= src@.len(),
    ensures
        n == read32(src@, pos as int),
{
    reveal(read32);
    (src[pos] as u32) * 0x1000000 + (src[pos + 1] as u32) * 0x10000 + (src[pos + 2] as u32)
        * 0x100 + (src[pos + 3] as u32)
}

/// Reads a `u64` stored big-endian at `pos`.
pub fn get_u64(src: &[u8], pos: usize) -> (n: u64)
    requires
        pos + 8 <= src@.len(),
    ensures
        n == read64(src@, pos as int),
{
    reveal(read64);
    let _len: usize = src.len();
    let hi: u32 = get_u32(src, pos);
    let lo: u32 = get_u32(src, pos + 4);
    (hi as u64) * 0x1_0000_0000 + (lo as u64)
}

/// Copies `len` bytes starting at `pos`.
pub fn copy_range(src: &[u8], pos: usize, len: usize) -> (out: Vec<u8>)
    requires
        pos + len <= src@.len(),
    ensures
        out@ == src@.subrange(pos as int, pos + len),
{
    let _total: usize = src.len();
    let mut out: Vec<u8> = Vec::with_capacity(len);
    let mut i: usize = 0;
    while i < len
        invariant
            i <= len,
            pos + len <= src@.len(),
            src@.len() == _total,
            out@ == src@.subrange(pos as int, pos + i),
        decreases len - i,
    {
        out.push(src[pos + i]);
        i = i + 1;
        assert(out@ =~= src@.subrange(pos as int, pos + i));
    }
    out
}

} // verus!
