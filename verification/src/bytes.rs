//! Big-endian integer fields of the wire format, and the 4-byte
//! alignment rule that pads chunks on the wire.

use vstd::prelude::*;

verus! {

/// The two big-endian bytes of a 16-bit field.
pub open spec fn be16(x: u16) -> Seq<u8> {
    seq![(x / 256) as u8, (x % 256) as u8]
}

/// The four big-endian bytes of a 32-bit field.
pub open spec fn be32(x: u32) -> Seq<u8> {
    seq![
        (x / 0x1000000) as u8,
        ((x / 0x10000) % 256) as u8,
        ((x / 256) % 256) as u8,
        (x % 256) as u8,
    ]
}

/// The 16-bit value read back from two big-endian bytes.
pub open spec fn read16(hi: u8, lo: u8) -> u16 {
    (hi as u16 * 256 + lo as u16) as u16
}

/// The 32-bit value read back from four big-endian bytes.
pub open spec fn read32(b0: u8, b1: u8, b2: u8, b3: u8) -> u32 {
    (b0 as u32 * 0x1000000 + b1 as u32 * 0x10000 + b2 as u32 * 256 + b3 as u32) as u32
}

/// A length rounded up to the next multiple of four, as chunk bodies
/// are padded on the wire.
pub open spec fn round4(n: int) -> int {
    if n % 4 == 0 {
        n
    } else {
        n + (4 - n % 4)
    }
}

pub proof fn lemma_round4_bounds(n: int)
    requires
        n >= 0,
    ensures
        round4(n) >= n,
        round4(n) < n + 4,
        round4(n) % 4 == 0,
{
}

/// Reading back the two big-endian bytes of `x` yields `x`.
pub proof fn lemma_be16_read(x: u16)
    ensures
        read16(be16(x)[0], be16(x)[1]) == x,
{
}

/// Reading back the four big-endian bytes of `x` yields `x`.
pub proof fn lemma_be32_read(x: u32)
    ensures
        read32(be32(x)[0], be32(x)[1], be32(x)[2], be32(x)[3]) == x,
{
}

/// Appends the two big-endian bytes of `x` to `out`.
pub fn push_be16(out: &mut Vec<u8>, x: u16)
    ensures
        final(out)@ == old(out)@ + be16(x),
{
    out.push((x / 256) as u8);
    out.push((x % 256) as u8);
    assert(final(out)@ =~= old(out)@ + be16(x));
}

/// Appends the four big-endian bytes of `x` to `out`.
pub fn push_be32(out: &mut Vec<u8>, x: u32)
    ensures
        final(out)@ == old(out)@ + be32(x),
{
    out.push((x / 0x1000000) as u8);
    out.push(((x / 0x10000) % 256) as u8);
    out.push(((x / 256) % 256) as u8);
    out.push((x % 256) as u8);
    assert(final(out)@ =~= old(out)@ + be32(x));
}

/// Reads a 16-bit big-endian field at `off`.
pub fn get16(buf: &Vec<u8>, off: usize) -> (r: u16)
    requires
        off + 2 <= buf@.len(),
    ensures
        r == read16(buf@[off as int], buf@[off + 1]),
{
    // binding the length as a usize bounds the index arithmetic below
    let n: usize = buf.len();
    let hi = buf[off];
    let lo = buf[off + 1];
    hi as u16 * 256 + lo as u16
}

/// Reads a 32-bit big-endian field at `off`.
pub fn get32(buf: &Vec<u8>, off: usize) -> (r: u32)
    requires
        off + 4 <= buf@.len(),
    ensures
        r == read32(buf@[off as int], buf@[off + 1], buf@[off + 2], buf@[off + 3]),
{
    // binding the length as a usize bounds the index arithmetic below
    let n: usize = buf.len();
    let b0 = buf[off];
    let b1 = buf[off + 1];
    let b2 = buf[off + 2];
    let b3 = buf[off + 3];
    b0 as u32 * 0x1000000 + b1 as u32 * 0x10000 + b2 as u32 * 256 + b3 as u32
}

/// Appends a whole byte buffer to `out`.
pub fn push_bytes(out: &mut Vec<u8>, v: &Vec<u8>)
    ensures
        final(out)@ == old(out)@ + v@,
{
    let n: usize = v.len();
    let mut i: usize = 0;
    while i < n
        invariant
            n == v@.len(),
            i <= n,
            out@ == old(out)@ + v@.subrange(0, i as int),
        decreases n - i,
    {
        out.push(v[i]);
        i += 1;
        assert(out@ =~= old(out)@ + v@.subrange(0, i as int));
    }
    assert(out@ =~= old(out)@ + v@);
}

/// Copies a byte buffer.
pub fn clone_bytes(v: &Vec<u8>) -> (r: Vec<u8>)
    ensures
        r@ == v@,
{
    let n: usize = v.len();
    let mut r: Vec<u8> = Vec::new();
    let mut i: usize = 0;
    while i < n
        invariant
            n == v@.len(),
            i <= n,
            r@ == v@.subrange(0, i as int),
        decreases n - i,
    {
        r.push(v[i]);
        i += 1;
        assert(r@ =~= v@.subrange(0, i as int));
    }
    assert(r@ =~= v@);
    r
}

/// Copies the bytes of `buf` between `start` and `end`.
pub fn copy_range(buf: &Vec<u8>, start: usize, end: usize) -> (r: Vec<u8>)
    requires
        start <= end <= buf@.len(),
    ensures
        r@ == buf@.subrange(start as int, end as int),
{
    let mut r: Vec<u8> = Vec::new();
    let mut i: usize = start;
    while i < end
        invariant
            start <= i <= end <= buf@.len(),
            r@ == buf@.subrange(start as int, i as int),
        decreases end - i,
    {
        r.push(buf[i]);
        i += 1;
        assert(r@ =~= buf@.subrange(start as int, i as int));
    }
    r
}

/// Rounds a chunk length up to the next multiple of four.
pub fn round_up4(n: usize) -> (r: usize)
    requires
        n + 3 <= usize::MAX,
    ensures
        r == round4(n as int),
{
    if n % 4 == 0 {
        n
    } else {
        n + (4 - n % 4)
    }
}

} // verus!
