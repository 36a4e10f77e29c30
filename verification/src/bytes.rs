//! Fixed-width integers on the wire, in both byte orders.
//!
//! The SMB2 side of the bridge is little-endian, the SFTP side big-endian.
//! Every layout in the crate is stated as a concatenation of the pieces
//! defined here.

use vstd::prelude::*;
use vstd::slice::slice_subrange;

verus! {

/// The two bytes of `v`, least significant first.
pub open spec fn le16(v: u16) -> Seq<u8> {
    seq![v as u8, (v >> 8) as u8]
}

/// The four bytes of `v`, least significant first.
pub open spec fn le32(v: u32) -> Seq<u8> {
    seq![v as u8, (v >> 8) as u8, (v >> 16) as u8, (v >> 24) as u8]
}

/// The eight bytes of `v`, least significant first.
pub open spec fn le64(v: u64) -> Seq<u8> {
    seq![
        v as u8,
        (v >> 8) as u8,
        (v >> 16) as u8,
        (v >> 24) as u8,
        (v >> 32) as u8,
        (v >> 40) as u8,
        (v >> 48) as u8,
        (v >> 56) as u8,
    ]
}

/// The four bytes of `v`, most significant first.
pub open spec fn be32(v: u32) -> Seq<u8> {
    seq![(v >> 24) as u8, (v >> 16) as u8, (v >> 8) as u8, v as u8]
}

/// The eight bytes of `v`, most significant first.
pub open spec fn be64(v: u64) -> Seq<u8> {
    seq![
        (v >> 56) as u8,
        (v >> 48) as u8,
        (v >> 40) as u8,
        (v >> 32) as u8,
        (v >> 24) as u8,
        (v >> 16) as u8,
        (v >> 8) as u8,
        v as u8,
    ]
}

/// `n` zero bytes.
pub open spec fn zeros(n: nat) -> Seq<u8> {
    Seq::new(n, |i: int| 0u8)
}

/// The little-endian 16-bit number at `at`.
pub open spec fn le16_at(s: Seq<u8>, at: int) -> u16 {
    (s[at] as u16) | ((s[at + 1] as u16) << 8)
}

/// The little-endian 32-bit number at `at`.
pub open spec fn le32_at(s: Seq<u8>, at: int) -> u32 {
    (s[at] as u32) | ((s[at + 1] as u32) << 8) | ((s[at + 2] as u32) << 16) | ((s[at + 3] as u32)
        << 24)
}

/// The little-endian 64-bit number at `at`.
pub open spec fn le64_at(s: Seq<u8>, at: int) -> u64 {
    (le32_at(s, at) as u64) | ((le32_at(s, at + 4) as u64) << 32)
}

/// The big-endian 32-bit number at `at`.
pub open spec fn be32_at(s: Seq<u8>, at: int) -> u32 {
    ((s[at] as u32) << 24) | ((s[at + 1] as u32) << 16) | ((s[at + 2] as u32) << 8) | (s[at
        + 3] as u32)
}

/// The big-endian 64-bit number at `at`.
pub open spec fn be64_at(s: Seq<u8>, at: int) -> u64 {
    ((be32_at(s, at) as u64) << 32) | (be32_at(s, at + 4) as u64)
}

/// A number in little-endian order is the sum of its bytes, the first of which
/// counts once and each further one 256 times the one before it.
pub proof fn law_little_end_first(s: Seq<u8>, at: int)
    ensures
        le16_at(s, at) == s[at] + 0x100 * s[at + 1],
        le32_at(s, at) == s[at] + 0x100 * s[at + 1] + 0x1_0000 * s[at + 2] + 0x100_0000 * s[at + 3],
        le64_at(s, at) == le32_at(s, at) + 0x1_0000_0000 * le32_at(s, at + 4),
{
    let a = s[at];
    let b = s[at + 1];
    let c = s[at + 2];
    let d = s[at + 3];
    let low = le32_at(s, at);
    let high = le32_at(s, at + 4);
    assert((a as u16) | ((b as u16) << 8) == a + 0x100 * b) by (bit_vector);
    assert((a as u32) | ((b as u32) << 8) | ((c as u32) << 16) | ((d as u32) << 24) == a + 0x100 * b
        + 0x1_0000 * c + 0x100_0000 * d) by (bit_vector);
    assert((low as u64) | ((high as u64) << 32) == low + 0x1_0000_0000 * high) by (bit_vector);
}

/// In big-endian order the last byte counts once.
pub proof fn law_big_end_first(s: Seq<u8>, at: int)
    ensures
        be32_at(s, at) == s[at + 3] + 0x100 * s[at + 2] + 0x1_0000 * s[at + 1] + 0x100_0000 * s[at],
        be64_at(s, at) == be32_at(s, at + 4) + 0x1_0000_0000 * be32_at(s, at),
{
    let a = s[at];
    let b = s[at + 1];
    let c = s[at + 2];
    let d = s[at + 3];
    let high = be32_at(s, at);
    let low = be32_at(s, at + 4);
    assert(((a as u32) << 24) | ((b as u32) << 16) | ((c as u32) << 8) | (d as u32) == d + 0x100 * c
        + 0x1_0000 * b + 0x100_0000 * a) by (bit_vector);
    assert(((high as u64) << 32) | (low as u64) == low + 0x1_0000_0000 * high) by (bit_vector);
}

/// Reading a little-endian 16-bit number gives back the one that was written.
pub proof fn law_le16_round_trip(v: u16)
    ensures
        le16(v).len() == 2,
        le16_at(le16(v), 0) == v,
{
    assert(((v as u8) as u16) | (((v >> 8) as u8) as u16) << 8 == v) by (bit_vector);
}

/// Reading a little-endian 32-bit number gives back the one that was written.
pub proof fn law_le32_round_trip(v: u32)
    ensures
        le32(v).len() == 4,
        le32_at(le32(v), 0) == v,
{
    assert(((v as u8) as u32) | (((v >> 8) as u8) as u32) << 8 | (((v >> 16) as u8) as u32) << 16
        | (((v >> 24) as u8) as u32) << 24 == v) by (bit_vector);
}

/// Reading a little-endian 64-bit number gives back the one that was written.
pub proof fn law_le64_round_trip(v: u64)
    ensures
        le64(v).len() == 8,
        le64_at(le64(v), 0) == v,
{
    assert(((((v as u8) as u32) | (((v >> 8) as u8) as u32) << 8 | (((v >> 16) as u8) as u32) << 16
        | (((v >> 24) as u8) as u32) << 24) as u64) | ((((((v >> 32) as u8) as u32) | (((v
        >> 40) as u8) as u32) << 8 | (((v >> 48) as u8) as u32) << 16 | (((v >> 56) as u8) as u32)
        << 24) as u64) << 32) == v) by (bit_vector);
}

/// Reading a big-endian 32-bit number gives back the one that was written.
pub proof fn law_be32_round_trip(v: u32)
    ensures
        be32(v).len() == 4,
        be32_at(be32(v), 0) == v,
{
    assert((((v >> 24) as u8) as u32) << 24 | (((v >> 16) as u8) as u32) << 16 | (((v
        >> 8) as u8) as u32) << 8 | ((v as u8) as u32) == v) by (bit_vector);
}

/// Reading a big-endian 64-bit number gives back the one that was written.
pub proof fn law_be64_round_trip(v: u64)
    ensures
        be64(v).len() == 8,
        be64_at(be64(v), 0) == v,
{
    assert((((((v >> 56) as u8) as u32) << 24 | (((v >> 48) as u8) as u32) << 16 | (((v
        >> 40) as u8) as u32) << 8 | (((v >> 32) as u8) as u32)) as u64) << 32 | ((((((v
        >> 24) as u8) as u32) << 24 | (((v >> 16) as u8) as u32) << 16 | (((v >> 8) as u8) as u32)
        << 8 | ((v as u8) as u32)) as u64)) == v) by (bit_vector);
}

pub(crate) proof fn lemma_le16_in(s: Seq<u8>, at: int, v: u16)
    requires
        0 <= at,
        at + 2 <= s.len(),
        s.subrange(at, at + 2) == le16(v),
    ensures
        le16_at(s, at) == v,
{
    law_le16_round_trip(v);
    let p = s.subrange(at, at + 2);
    assert(p[0] == s[at] && p[1] == s[at + 1]);
}

pub(crate) proof fn lemma_le32_in(s: Seq<u8>, at: int, v: u32)
    requires
        0 <= at,
        at + 4 <= s.len(),
        s.subrange(at, at + 4) == le32(v),
    ensures
        le32_at(s, at) == v,
{
    law_le32_round_trip(v);
    let p = s.subrange(at, at + 4);
    assert(p[0] == s[at] && p[1] == s[at + 1] && p[2] == s[at + 2] && p[3] == s[at + 3]);
}

pub(crate) proof fn lemma_le64_in(s: Seq<u8>, at: int, v: u64)
    requires
        0 <= at,
        at + 8 <= s.len(),
        s.subrange(at, at + 8) == le64(v),
    ensures
        le64_at(s, at) == v,
{
    law_le64_round_trip(v);
    let p = s.subrange(at, at + 8);
    assert(p[0] == s[at] && p[1] == s[at + 1] && p[2] == s[at + 2] && p[3] == s[at + 3]);
    assert(p[4] == s[at + 4] && p[5] == s[at + 5] && p[6] == s[at + 6] && p[7] == s[at + 7]);
}

pub(crate) proof fn lemma_be32_in(s: Seq<u8>, at: int, v: u32)
    requires
        0 <= at,
        at + 4 <= s.len(),
        s.subrange(at, at + 4) == be32(v),
    ensures
        be32_at(s, at) == v,
{
    law_be32_round_trip(v);
    let p = s.subrange(at, at + 4);
    assert(p[0] == s[at] && p[1] == s[at + 1] && p[2] == s[at + 2] && p[3] == s[at + 3]);
}

pub(crate) proof fn lemma_be64_in(s: Seq<u8>, at: int, v: u64)
    requires
        0 <= at,
        at + 8 <= s.len(),
        s.subrange(at, at + 8) == be64(v),
    ensures
        be64_at(s, at) == v,
{
    law_be64_round_trip(v);
    let p = s.subrange(at, at + 8);
    assert(p[0] == s[at] && p[1] == s[at + 1] && p[2] == s[at + 2] && p[3] == s[at + 3]);
    assert(p[4] == s[at + 4] && p[5] == s[at + 5] && p[6] == s[at + 6] && p[7] == s[at + 7]);
}

/// Appends `v`, least significant byte first.
pub fn put_u16_le(out: &mut Vec<u8>, v: u16)
    ensures
        final(out)@ == old(out)@ + le16(v),
{
    out.push(#[verifier::truncate] (v as u8));
    out.push(#[verifier::truncate] ((v >> 8) as u8));
    assert(out@ =~= old(out)@ + le16(v));
}

/// Appends `v`, least significant byte first.
pub fn put_u32_le(out: &mut Vec<u8>, v: u32)
    ensures
        final(out)@ == old(out)@ + le32(v),
{
    out.push(#[verifier::truncate] (v as u8));
    out.push(#[verifier::truncate] ((v >> 8) as u8));
    out.push(#[verifier::truncate] ((v >> 16) as u8));
    out.push(#[verifier::truncate] ((v >> 24) as u8));
    assert(out@ =~= old(out)@ + le32(v));
}

/// Appends `v`, least significant byte first.
pub fn put_u64_le(out: &mut Vec<u8>, v: u64)
    ensures
        final(out)@ == old(out)@ + le64(v),
{
    out.push(#[verifier::truncate] (v as u8));
    out.push(#[verifier::truncate] ((v >> 8) as u8));
    out.push(#[verifier::truncate] ((v >> 16) as u8));
    out.push(#[verifier::truncate] ((v >> 24) as u8));
    out.push(#[verifier::truncate] ((v >> 32) as u8));
    out.push(#[verifier::truncate] ((v >> 40) as u8));
    out.push(#[verifier::truncate] ((v >> 48) as u8));
    out.push(#[verifier::truncate] ((v >> 56) as u8));
    assert(out@ =~= old(out)@ + le64(v));
}

/// Appends `v`, most significant byte first.
pub fn put_u32_be(out: &mut Vec<u8>, v: u32)
    ensures
        final(out)@ == old(out)@ + be32(v),
{
    out.push(#[verifier::truncate] ((v >> 24) as u8));
    out.push(#[verifier::truncate] ((v >> 16) as u8));
    out.push(#[verifier::truncate] ((v >> 8) as u8));
    out.push(#[verifier::truncate] (v as u8));
    assert(out@ =~= old(out)@ + be32(v));
}

/// Appends `v`, most significant byte first.
pub fn put_u64_be(out: &mut Vec<u8>, v: u64)
    ensures
        final(out)@ == old(out)@ + be64(v),
{
    out.push(#[verifier::truncate] ((v >> 56) as u8));
    out.push(#[verifier::truncate] ((v >> 48) as u8));
    out.push(#[verifier::truncate] ((v >> 40) as u8));
    out.push(#[verifier::truncate] ((v >> 32) as u8));
    out.push(#[verifier::truncate] ((v >> 24) as u8));
    out.push(#[verifier::truncate] ((v >> 16) as u8));
    out.push(#[verifier::truncate] ((v >> 8) as u8));
    out.push(#[verifier::truncate] (v as u8));
    assert(out@ =~= old(out)@ + be64(v));
}

/// Appends one byte.
pub fn put_u8(out: &mut Vec<u8>, v: u8)
    ensures
        final(out)@ == old(out)@ + seq![v],
{
    out.push(v);
    assert(out@ =~= old(out)@ + seq![v]);
}

/// Appends every byte of `data`.
pub fn put_all(out: &mut Vec<u8>, data: &[u8])
    ensures
        final(out)@ == old(out)@ + data@,
{
    out.extend_from_slice(data);
    assert(out@ =~= old(out)@ + data@);
}

/// Appends `n` zero bytes.
pub fn put_zeros(out: &mut Vec<u8>, n: usize)
    ensures
        final(out)@ == old(out)@ + zeros(n as nat),
{
    let mut i: usize = 0;
    assert(out@ =~= old(out)@ + zeros(0));
    while i < n
        invariant
            i <= n,
            out@ == old(out)@ + zeros(i as nat),
        decreases n - i,
    {
        out.push(0);
        i += 1;
        assert(out@ =~= old(out)@ + zeros(i as nat));
    }
}

/// Reads the little-endian 16-bit number at `at`.
pub fn read_u16_le(data: &[u8], at: usize) -> (v: u16)
    requires
        at + 2 <= data@.len(),
    ensures
        v == le16_at(data@, at as int),
{
    (data[at] as u16) | ((data[at + 1] as u16) << 8)
}

/// Reads the little-endian 32-bit number at `at`.
pub fn read_u32_le(data: &[u8], at: usize) -> (v: u32)
    requires
        at + 4 <= data@.len(),
    ensures
        v == le32_at(data@, at as int),
{
    (data[at] as u32) | ((data[at + 1] as u32) << 8) | ((data[at + 2] as u32) << 16) | ((data[at
        + 3] as u32) << 24)
}

/// Reads the little-endian 64-bit number at `at`.
pub fn read_u64_le(data: &[u8], at: usize) -> (v: u64)
    requires
        at + 8 <= data@.len(),
    ensures
        v == le64_at(data@, at as int),
{
    assert(data.len() <= usize::MAX);
    (read_u32_le(data, at) as u64) | ((read_u32_le(data, at + 4) as u64) << 32)
}

/// Reads the big-endian 32-bit number at `at`.
pub fn read_u32_be(data: &[u8], at: usize) -> (v: u32)
    requires
        at + 4 <= data@.len(),
    ensures
        v == be32_at(data@, at as int),
{
    ((data[at] as u32) << 24) | ((data[at + 1] as u32) << 16) | ((data[at + 2] as u32) << 8) | (
    data[at + 3] as u32)
}

/// Reads the big-endian 64-bit number at `at`.
pub fn read_u64_be(data: &[u8], at: usize) -> (v: u64)
    requires
        at + 8 <= data@.len(),
    ensures
        v == be64_at(data@, at as int),
{
    assert(data.len() <= usize::MAX);
    ((read_u32_be(data, at) as u64) << 32) | (read_u32_be(data, at + 4) as u64)
}

/// Copies the bytes of `data` from `from` up to `to`.
pub fn copy_range(data: &[u8], from: usize, to: usize) -> (out: Vec<u8>)
    requires
        from <= to <= data@.len(),
    ensures
        out@ == data@.subrange(from as int, to as int),
{
    let mut out: Vec<u8> = Vec::new();
    put_all(&mut out, slice_subrange(data, from, to));
    assert(out@ =~= data@.subrange(from as int, to as int));
    out
}

/// Copies all of `data`.
pub fn slice_copy(data: &[u8]) -> (out: Vec<u8>)
    ensures
        out@ == data@,
{
    let out = copy_range(data, 0, data.len());
    assert(out@ =~= data@);
    out
}

/// Says whether two byte strings are equal.
pub fn bytes_equal(a: &[u8], b: &[u8]) -> (r: bool)
    ensures
        r == (a@ == b@),
{
    if a.len() != b.len() {
        return false;
    }
    let mut i: usize = 0;
    while i < a.len()
        invariant
            i <= a@.len(),
            a@.len() == b@.len(),
            forall|k: int| 0 <= k < i ==> a@[k] == b@[k],
        decreases a@.len() - i,
    {
        if a[i] != b[i] {
            return false;
        }
        i += 1;
    }
    assert(a@ =~= b@);
    true
}

} // verus!
