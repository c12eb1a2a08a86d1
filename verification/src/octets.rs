//! Fixed-width integers as bytes, in both byte orders.

use vstd::prelude::*;

verus! {

/// `x.to_le_bytes()` for a `u32`.
pub open spec fn le32(x: u32) -> Seq<u8> {
    seq![(x & 0xff) as u8, ((x >> 8u32) & 0xff) as u8, ((x >> 16u32) & 0xff) as u8, ((x >> 24u32) & 0xff) as u8]
}

/// `x.to_le_bytes()` for a `u64`: the low word first.
pub open spec fn le64(x: u64) -> Seq<u8> {
    le32((x & 0xffff_ffff) as u32) + le32((x >> 32u64) as u32)
}

/// `x.to_be_bytes()` for a `u32`.
pub open spec fn be32(x: u32) -> Seq<u8> {
    seq![((x >> 24u32) & 0xff) as u8, ((x >> 16u32) & 0xff) as u8, ((x >> 8u32) & 0xff) as u8, (x & 0xff) as u8]
}

/// `x.to_be_bytes()` for a `u64`: the high word first.
pub open spec fn be64(x: u64) -> Seq<u8> {
    be32((x >> 32u64) as u32) + be32((x & 0xffff_ffff) as u32)
}

/// The little-endian `u32` at `at`.
pub open spec fn get_le32(b: Seq<u8>, at: int) -> u32 {
    (b[at] as u32) | ((b[at + 1] as u32) << 8u32) | ((b[at + 2] as u32) << 16u32) | ((b[at + 3] as u32) << 24u32)
}

/// The little-endian `u64` at `at`.
pub open spec fn get_le64(b: Seq<u8>, at: int) -> u64 {
    (get_le32(b, at) as u64) | ((get_le32(b, at + 4) as u64) << 32u64)
}

/// The big-endian `u32` at `at`.
pub open spec fn get_be32(b: Seq<u8>, at: int) -> u32 {
    ((b[at] as u32) << 24u32) | ((b[at + 1] as u32) << 16u32) | ((b[at + 2] as u32) << 8u32) | (b[at + 3] as u32)
}

/// The big-endian `u64` at `at`.
pub open spec fn get_be64(b: Seq<u8>, at: int) -> u64 {
    ((get_be32(b, at) as u64) << 32u64) | (get_be32(b, at + 4) as u64)
}

proof fn lemma_u32_split(x: u32)
    ensures
        ((((x >> 24u32) & 0xff) as u8) as u32) << 24u32 | ((((x >> 16u32) & 0xff) as u8) as u32) << 16u32
            | ((((x >> 8u32) & 0xff) as u8) as u32) << 8u32 | (((x & 0xff) as u8) as u32) == x,
{
    assert(((((x >> 24u32) & 0xff) as u8) as u32) << 24u32 | ((((x >> 16u32) & 0xff) as u8) as u32) << 16u32
            | ((((x >> 8u32) & 0xff) as u8) as u32) << 8u32 | (((x & 0xff) as u8) as u32) == x) by (bit_vector);
}

proof fn lemma_u64_split(x: u64)
    ensures
        (((x >> 32u64) as u32) as u64) << 32u64 | (((x & 0xffff_ffff) as u32) as u64) == x,
{
    assert((((x >> 32u64) as u32) as u64) << 32u64 | (((x & 0xffff_ffff) as u32) as u64) == x) by (bit_vector);
}

/// Reading back a big-endian `u32` wherever it was written gives the value.
pub proof fn lemma_be32_at(pre: Seq<u8>, x: u32, post: Seq<u8>)
    ensures
        get_be32(pre + be32(x) + post, pre.len() as int) == x,
{
    let b = pre + be32(x) + post;
    let n = pre.len() as int;
    assert(b[n] == ((x >> 24u32) & 0xff) as u8);
    assert(b[n + 1] == ((x >> 16u32) & 0xff) as u8);
    assert(b[n + 2] == ((x >> 8u32) & 0xff) as u8);
    assert(b[n + 3] == (x & 0xff) as u8);
    lemma_u32_split(x);
}

/// Reading back a big-endian `u64` wherever it was written gives the value.
pub proof fn lemma_be64_at(pre: Seq<u8>, x: u64, post: Seq<u8>)
    ensures
        get_be64(pre + be64(x) + post, pre.len() as int) == x,
{
    let hi = (x >> 32u64) as u32;
    let lo = (x & 0xffff_ffff) as u32;
    assert(pre + be64(x) + post == pre + be32(hi) + (be32(lo) + post));
    assert(pre + be64(x) + post == (pre + be32(hi)) + be32(lo) + post);
    lemma_be32_at(pre, hi, be32(lo) + post);
    lemma_be32_at(pre + be32(hi), lo, post);
    lemma_u64_split(x);
}

/// Reading back a little-endian `u32` wherever it was written gives the value.
pub proof fn lemma_le32_at(pre: Seq<u8>, x: u32, post: Seq<u8>)
    ensures
        get_le32(pre + le32(x) + post, pre.len() as int) == x,
{
    let b = pre + le32(x) + post;
    let n = pre.len() as int;
    assert(b[n] == (x & 0xff) as u8);
    assert(b[n + 1] == ((x >> 8u32) & 0xff) as u8);
    assert(b[n + 2] == ((x >> 16u32) & 0xff) as u8);
    assert(b[n + 3] == ((x >> 24u32) & 0xff) as u8);
    assert((((x & 0xff) as u8) as u32) | ((((x >> 8u32) & 0xff) as u8) as u32) << 8u32
        | ((((x >> 16u32) & 0xff) as u8) as u32) << 16u32 | ((((x >> 24u32) & 0xff) as u8) as u32) << 24u32 == x)
        by (bit_vector);
}

/// Reading back a little-endian `u64` wherever it was written gives the value.
pub proof fn lemma_le64_at(pre: Seq<u8>, x: u64, post: Seq<u8>)
    ensures
        get_le64(pre + le64(x) + post, pre.len() as int) == x,
{
    let hi = (x >> 32u64) as u32;
    let lo = (x & 0xffff_ffff) as u32;
    assert(pre + le64(x) + post == pre + le32(lo) + (le32(hi) + post));
    assert(pre + le64(x) + post == (pre + le32(lo)) + le32(hi) + post);
    lemma_le32_at(pre, lo, le32(hi) + post);
    lemma_le32_at(pre + le32(lo), hi, post);
    assert((((x & 0xffff_ffff) as u32) as u64) | (((x >> 32u64) as u32) as u64) << 32u64 == x) by (bit_vector);
}

/// Append `x` in little-endian order.
pub fn push_le32(out: &mut Vec<u8>, x: u32)
    ensures
        final(out)@ == old(out)@ + le32(x),
{
    out.push((x & 0xff) as u8);
    out.push(((x >> 8) & 0xff) as u8);
    out.push(((x >> 16) & 0xff) as u8);
    out.push(((x >> 24) & 0xff) as u8);
}

/// Append `x` in little-endian order.
pub fn push_le64(out: &mut Vec<u8>, x: u64)
    ensures
        final(out)@ == old(out)@ + le64(x),
{
    push_le32(out, (x & 0xffff_ffff) as u32);
    push_le32(out, (x >> 32) as u32);
}

/// Append `x` in big-endian order.
pub fn push_be32(out: &mut Vec<u8>, x: u32)
    ensures
        final(out)@ == old(out)@ + be32(x),
{
    out.push(((x >> 24) & 0xff) as u8);
    out.push(((x >> 16) & 0xff) as u8);
    out.push(((x >> 8) & 0xff) as u8);
    out.push((x & 0xff) as u8);
}

/// Append `x` in big-endian order.
pub fn push_be64(out: &mut Vec<u8>, x: u64)
    ensures
        final(out)@ == old(out)@ + be64(x),
{
    push_be32(out, (x >> 32) as u32);
    push_be32(out, (x & 0xffff_ffff) as u32);
}

/// The big-endian `u32` at `at`.
pub fn read_be32(b: &[u8], at: usize) -> (r: u32)
    requires
        at + 4 <= b@.len(),
    ensures
        r == get_be32(b@, at as int),
{
    ((b[at] as u32) << 24) | ((b[at + 1] as u32) << 16) | ((b[at + 2] as u32) << 8) | (b[at + 3] as u32)
}

/// The big-endian `u64` at `at`.
pub fn read_be64(b: &[u8], at: usize) -> (r: u64)
    requires
        at + 8 <= b@.len(),
    ensures
        r == get_be64(b@, at as int),
{
    let _n = b.len();
    ((read_be32(b, at) as u64) << 32) | (read_be32(b, at + 4) as u64)
}

/// The little-endian `u32` at `at`.
pub fn read_le32(b: &[u8], at: usize) -> (r: u32)
    requires
        at + 4 <= b@.len(),
    ensures
        r == get_le32(b@, at as int),
{
    (b[at] as u32) | ((b[at + 1] as u32) << 8) | ((b[at + 2] as u32) << 16) | ((b[at + 3] as u32) << 24)
}

/// The little-endian `u64` at `at`.
pub fn read_le64(b: &[u8], at: usize) -> (r: u64)
    requires
        at + 8 <= b@.len(),
    ensures
        r == get_le64(b@, at as int),
{
    let _n = b.len();
    (read_le32(b, at) as u64) | ((read_le32(b, at + 4) as u64) << 32)
}

/// Append the bytes of `bytes`.
pub fn push_bytes(out: &mut Vec<u8>, bytes: &[u8])
    ensures
        final(out)@ == old(out)@ + bytes@,
{
    let mut i: usize = 0;
    while i < bytes.len()
        invariant
            0 <= i <= bytes@.len(),
            out@ == old(out)@ + bytes@.take(i as int),
        decreases bytes@.len() - i,
    {
        out.push(bytes[i]);
        i = i + 1;
        assert(out@ =~= old(out)@ + bytes@.take(i as int));
    }
    assert(bytes@.take(bytes@.len() as int) =~= bytes@);
}

} // verus!
