//! Byte strings: fixed-width integers in both byte orders, padding, and the
//! small building blocks that every serializer of this crate is made of.

use vstd::prelude::*;
use vstd::slice::slice_to_vec;

use byteorder::{BigEndian, LittleEndian, WriteBytesExt};

verus! {

/// `n` in two bytes, least significant first.
pub open spec fn le16(n: u16) -> Seq<u8> {
    seq![(n % 256) as u8, (n / 256) as u8]
}

/// `n` in four bytes, least significant first.
pub open spec fn le32(n: u32) -> Seq<u8> {
    seq![
        (n % 256) as u8,
        (n / 256 % 256) as u8,
        (n / 65536 % 256) as u8,
        (n / 16777216) as u8,
    ]
}

/// `n` in eight bytes, least significant first.
pub open spec fn le64(n: u64) -> Seq<u8> {
    le32((n % 0x1_0000_0000) as u32) + le32((n / 0x1_0000_0000) as u32)
}

/// `n` in two bytes, most significant first.
pub open spec fn be16(n: u16) -> Seq<u8> {
    seq![(n / 256) as u8, (n % 256) as u8]
}

/// `n` in four bytes, most significant first.
pub open spec fn be32(n: u32) -> Seq<u8> {
    seq![
        (n / 16777216) as u8,
        (n / 65536 % 256) as u8,
        (n / 256 % 256) as u8,
        (n % 256) as u8,
    ]
}

/// `n` zero bytes.
pub open spec fn zeros(n: nat) -> Seq<u8> {
    Seq::new(n, |i: int| 0u8)
}

/// `s` cut down or padded with zeros to exactly `n` bytes.
pub open spec fn fitted(s: Seq<u8>, n: nat) -> Seq<u8> {
    if s.len() >= n {
        s.take(n as int)
    } else {
        s + zeros((n - s.len()) as nat)
    }
}

/// `s` padded with zeros to at least `n` bytes.
pub open spec fn padded(s: Seq<u8>, n: nat) -> Seq<u8> {
    if s.len() >= n {
        s
    } else {
        s + zeros((n - s.len()) as nat)
    }
}

/// `buf` with `data` written at `at`.
pub open spec fn written(buf: Seq<u8>, at: int, data: Seq<u8>) -> Seq<u8> {
    Seq::new(
        buf.len(),
        |i: int|
            if at <= i < at + data.len() {
                data[i - at]
            } else {
                buf[i]
            },
    )
}

/// The sixteen-bit number stored at `at`, least significant byte first.
pub open spec fn read_le16(s: Seq<u8>, at: int) -> nat {
    (s[at] + 256 * s[at + 1]) as nat
}

/// The thirty-two-bit number stored at `at`, least significant byte first.
pub open spec fn read_le32(s: Seq<u8>, at: int) -> nat {
    (s[at] + 256 * s[at + 1] + 65536 * s[at + 2] + 16777216 * s[at + 3]) as nat
}

/// The thirty-two-bit number stored at `at`, most significant byte first.
pub open spec fn read_be32(s: Seq<u8>, at: int) -> nat {
    (16777216 * s[at] + 65536 * s[at + 1] + 256 * s[at + 2] + s[at + 3]) as nat
}

/// The sixteen-bit number stored at `at`, most significant byte first.
pub open spec fn read_be16(s: Seq<u8>, at: int) -> nat {
    (256 * s[at] + s[at + 1]) as nat
}

/// The contents of a list of byte vectors.
pub open spec fn contents(v: Seq<Vec<u8>>) -> Seq<Seq<u8>> {
    Seq::new(v.len(), |i: int| v[i]@)
}

/// The contents of a list of pairs of byte vectors.
pub open spec fn pair_contents(v: Seq<(Vec<u8>, Vec<u8>)>) -> Seq<(Seq<u8>, Seq<u8>)> {
    Seq::new(v.len(), |i: int| (v[i].0@, v[i].1@))
}

/// Reading gives back what was written: wherever the bytes of `n` stand in `s`,
/// reading there yields `n`.
pub proof fn le16_reads_back(s: Seq<u8>, at: int, n: u16)
    requires
        0 <= at,
        at + 2 <= s.len(),
        s.subrange(at, at + 2) == le16(n),
    ensures
        read_le16(s, at) == n,
{
    let w = s.subrange(at, at + 2);
    assert(w[0] == s[at] && w[1] == s[at + 1]);
}

/// Reading gives back what was written, for four little-endian bytes.
pub proof fn le32_reads_back(s: Seq<u8>, at: int, n: u32)
    requires
        0 <= at,
        at + 4 <= s.len(),
        s.subrange(at, at + 4) == le32(n),
    ensures
        read_le32(s, at) == n,
{
    let w = s.subrange(at, at + 4);
    assert(w[0] == s[at] && w[1] == s[at + 1] && w[2] == s[at + 2] && w[3] == s[at + 3]);
}

/// Reading gives back what was written, for two big-endian bytes.
pub proof fn be16_reads_back(s: Seq<u8>, at: int, n: u16)
    requires
        0 <= at,
        at + 2 <= s.len(),
        s.subrange(at, at + 2) == be16(n),
    ensures
        read_be16(s, at) == n,
{
    let w = s.subrange(at, at + 2);
    assert(w[0] == s[at] && w[1] == s[at + 1]);
}

/// Reading gives back what was written, for four big-endian bytes.
pub proof fn be32_reads_back(s: Seq<u8>, at: int, n: u32)
    requires
        0 <= at,
        at + 4 <= s.len(),
        s.subrange(at, at + 4) == be32(n),
    ensures
        read_be32(s, at) == n,
{
    let w = s.subrange(at, at + 4);
    assert(w[0] == s[at] && w[1] == s[at + 1] && w[2] == s[at + 2] && w[3] == s[at + 3]);
}

/// A number that was appended reads back.
pub proof fn lemma_appended_le32(s: Seq<u8>, n: u32)
    ensures
        read_le32(s + le32(n), s.len() as int) == n,
{
    let all = s + le32(n);
    let at = s.len() as int;
    assert(all.subrange(at, at + 4) =~= le32(n));
    le32_reads_back(all, at, n);
}

/// A number that was appended reads back.
pub proof fn lemma_appended_le16(s: Seq<u8>, n: u16)
    ensures
        read_le16(s + le16(n), s.len() as int) == n,
{
    let all = s + le16(n);
    let at = s.len() as int;
    assert(all.subrange(at, at + 2) =~= le16(n));
    le16_reads_back(all, at, n);
}

/// Nothing in front of a byte string leaves it as it is.
pub broadcast proof fn lemma_empty_prefix(s: Seq<u8>)
    ensures
        #[trigger] (Seq::<u8>::empty() + s) == s,
{
    assert(Seq::<u8>::empty() + s =~= s);
}

/// `byteorder`'s `WriteBytesExt::write_u16::<LittleEndian>` on a vector: writing
/// to a `Vec` never fails and appends the two bytes of `n`, the low one first.
#[verifier::external_body]
pub(crate) fn put_le16(out: &mut Vec<u8>, n: u16)
    ensures
        final(out)@ == old(out)@ + le16(n),
{
    out.write_u16::<LittleEndian>(n).unwrap();
}

/// `byteorder`'s `WriteBytesExt::write_u32::<LittleEndian>` on a vector: writing
/// to a `Vec` never fails and appends the four bytes of `n`, the lowest first.
#[verifier::external_body]
pub(crate) fn put_le32(out: &mut Vec<u8>, n: u32)
    ensures
        final(out)@ == old(out)@ + le32(n),
{
    out.write_u32::<LittleEndian>(n).unwrap();
}

/// `byteorder`'s `WriteBytesExt::write_u64::<LittleEndian>` on a vector: writing
/// to a `Vec` never fails and appends the eight bytes of `n`, the lowest first.
#[verifier::external_body]
pub(crate) fn put_le64(out: &mut Vec<u8>, n: u64)
    ensures
        final(out)@ == old(out)@ + le64(n),
{
    out.write_u64::<LittleEndian>(n).unwrap();
}

/// `byteorder`'s `WriteBytesExt::write_u16::<BigEndian>` on a vector: writing to
/// a `Vec` never fails and appends the two bytes of `n`, the high one first.
#[verifier::external_body]
pub(crate) fn put_be16(out: &mut Vec<u8>, n: u16)
    ensures
        final(out)@ == old(out)@ + be16(n),
{
    out.write_u16::<BigEndian>(n).unwrap();
}

/// `byteorder`'s `WriteBytesExt::write_u32::<BigEndian>` on a vector: writing to
/// a `Vec` never fails and appends the four bytes of `n`, the highest first.
#[verifier::external_body]
pub(crate) fn put_be32(out: &mut Vec<u8>, n: u32)
    ensures
        final(out)@ == old(out)@ + be32(n),
{
    out.write_u32::<BigEndian>(n).unwrap();
}

/// Appends `data` to `out`.
pub fn put_bytes(out: &mut Vec<u8>, data: &[u8])
    ensures
        final(out)@ == old(out)@ + data@,
{
    out.extend_from_slice(data);
    assert(out@ =~= old(out)@ + data@);
}

/// Appends `n` zero bytes to `out`.
pub fn put_zeros(out: &mut Vec<u8>, n: usize)
    ensures
        final(out)@ == old(out)@ + zeros(n as nat),
{
    let mut i: usize = 0;
    while i < n
        invariant
            i <= n,
            out@ == old(out)@ + zeros(i as nat),
        decreases n - i,
    {
        out.push(0);
        i = i + 1;
        assert(out@ =~= old(out)@ + zeros(i as nat));
    }
}

/// Cuts `out` down or pads it with zeros to exactly `n` bytes.
pub fn fit(out: &mut Vec<u8>, n: usize)
    ensures
        final(out)@ == fitted(old(out)@, n as nat),
{
    out.resize(n, 0);
    assert(out@ =~= fitted(old(out)@, n as nat));
}

/// Pads `out` with zeros to at least `n` bytes.
pub fn pad(out: &mut Vec<u8>, n: usize)
    ensures
        final(out)@ == padded(old(out)@, n as nat),
{
    if out.len() < n {
        fit(out, n);
    }
}

/// A fresh vector with the contents of `data`.
pub fn copy_of(data: &[u8]) -> (out: Vec<u8>)
    ensures
        out@ == data@,
{
    slice_to_vec(data)
}

/// Copies `len` bytes of `data`, from `start` on, into `buf` at `at`.
pub fn write_at(buf: &mut Vec<u8>, at: usize, data: &[u8], start: usize, len: usize)
    requires
        at + len <= old(buf)@.len(),
        start + len <= data@.len(),
    ensures
        final(buf)@ == written(old(buf)@, at as int, data@.subrange(start as int, start + len)),
{
    let ghost part = data@.subrange(start as int, start + len);
    let size: usize = buf.len();
    let available: usize = data.len();
    let mut i: usize = 0;
    assert(buf@ =~= written(buf@, at as int, part.take(0)));
    while i < len
        invariant
            i <= len,
            at + len <= size,
            size == old(buf)@.len(),
            start + len <= available,
            available == data@.len(),
            part == data@.subrange(start as int, start + len),
            buf@ == written(old(buf)@, at as int, part.take(i as int)),
        decreases len - i,
    {
        buf.set(at + i, data[start + i]);
        i = i + 1;
        assert(buf@ =~= written(old(buf)@, at as int, part.take(i as int)));
    }
    assert(part.take(i as int) =~= part);
}

/// Whether two byte strings are the same.
pub fn same_bytes(a: &[u8], b: &[u8]) -> (same: bool)
    ensures
        same == (a@ == b@),
{
    if a.len() != b.len() {
        return false;
    }
    let mut i: usize = 0;
    while i < a.len()
        invariant
            i <= a@.len(),
            a@.len() == b@.len(),
            forall|j: int| 0 <= j < i ==> a@[j] == b@[j],
        decreases a.len() - i,
    {
        if a[i] != b[i] {
            return false;
        }
        i = i + 1;
    }
    assert(a@ =~= b@);
    true
}

/// Reads four little-endian bytes.
pub fn get_le32(data: &[u8], at: usize) -> (n: u32)
    requires
        at + 4 <= data@.len(),
    ensures
        n == read_le32(data@, at as int),
{
    data[at] as u32 + 256 * data[at + 1] as u32 + 65536 * data[at + 2] as u32 + 16777216 * data[at
        + 3] as u32
}

/// Reads two big-endian bytes.
pub fn get_be16(data: &[u8], at: usize) -> (n: u32)
    requires
        at + 2 <= data@.len(),
    ensures
        n == read_be16(data@, at as int),
{
    256 * data[at] as u32 + data[at + 1] as u32
}

} // verus!
