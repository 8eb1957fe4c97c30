//! Big-endian and little-endian integer layouts used by every wire format
//! of the library, stated over `Seq<u8>`, with the executable writers and
//! readers that produce and consume them.

use vstd::prelude::*;

verus! {

/// Two bytes, most significant first.
pub open spec fn be16(v: u16) -> Seq<u8> {
    seq![(v / 256) as u8, (v % 256) as u8]
}

/// Three bytes, most significant first, of a value below 2^24.
pub open spec fn be24(v: u32) -> Seq<u8> {
    seq![((v / 65536) % 256) as u8, ((v / 256) % 256) as u8, (v % 256) as u8]
}

/// Four bytes, most significant first.
pub open spec fn be32(v: u32) -> Seq<u8> {
    seq![(v / 16777216) as u8, ((v / 65536) % 256) as u8, ((v / 256) % 256) as u8, (v % 256) as u8]
}

/// Eight bytes, most significant first.
pub open spec fn be64(v: u64) -> Seq<u8> {
    be32((v / 4294967296) as u32) + be32((v % 4294967296) as u32)
}

/// Two bytes, least significant first.
pub open spec fn le16(v: u16) -> Seq<u8> {
    seq![(v % 256) as u8, (v / 256) as u8]
}

/// Four bytes, least significant first.
pub open spec fn le32(v: u32) -> Seq<u8> {
    seq![(v % 256) as u8, ((v / 256) % 256) as u8, ((v / 65536) % 256) as u8, (v / 16777216) as u8]
}

/// Eight bytes, least significant first.
pub open spec fn le64(v: u64) -> Seq<u8> {
    le32((v % 4294967296) as u32) + le32((v / 4294967296) as u32)
}

/// The value of two bytes read most significant first.
pub open spec fn from_be16(b0: u8, b1: u8) -> u16 {
    (b0 * 256 + b1) as u16
}

/// The value of three bytes read most significant first.
pub open spec fn from_be24(b0: u8, b1: u8, b2: u8) -> u32 {
    (b0 * 65536 + b1 * 256 + b2) as u32
}

/// The value of four bytes read most significant first.
pub open spec fn from_be32(b0: u8, b1: u8, b2: u8, b3: u8) -> u32 {
    (b0 * 16777216 + b1 * 65536 + b2 * 256 + b3) as u32
}

/// The value of two bytes read least significant first.
pub open spec fn from_le16(b0: u8, b1: u8) -> u16 {
    (b0 + b1 * 256) as u16
}

/// The value of four bytes read least significant first.
pub open spec fn from_le32(b0: u8, b1: u8, b2: u8, b3: u8) -> u32 {
    (b0 + b1 * 256 + b2 * 65536 + b3 * 16777216) as u32
}

/// The value of the big-endian `u16` at `s[i..i + 2]`.
pub open spec fn read_be16(s: Seq<u8>, i: int) -> u16 {
    from_be16(s[i], s[i + 1])
}

/// The value of the big-endian `u32` at `s[i..i + 4]`.
pub open spec fn read_be32(s: Seq<u8>, i: int) -> u32 {
    from_be32(s[i], s[i + 1], s[i + 2], s[i + 3])
}

/// The value of the big-endian `u64` at `s[i..i + 8]`.
pub open spec fn read_be64(s: Seq<u8>, i: int) -> u64 {
    (read_be32(s, i) * 4294967296 + read_be32(s, i + 4)) as u64
}

/// The value of the little-endian `u16` at `s[i..i + 2]`.
pub open spec fn read_le16(s: Seq<u8>, i: int) -> u16 {
    from_le16(s[i], s[i + 1])
}

/// The value of the little-endian `u32` at `s[i..i + 4]`.
pub open spec fn read_le32(s: Seq<u8>, i: int) -> u32 {
    from_le32(s[i], s[i + 1], s[i + 2], s[i + 3])
}

/// The value of the little-endian `u64` at `s[i..i + 8]`.
pub open spec fn read_le64(s: Seq<u8>, i: int) -> u64 {
    (read_le32(s, i) + read_le32(s, i + 4) * 4294967296) as u64
}

pub proof fn lemma_be16_roundtrip(v: u16)
    ensures
        be16(v).len() == 2,
        from_be16(be16(v)[0], be16(v)[1]) == v,
{
}

pub proof fn lemma_be24_roundtrip(v: u32)
    requires
        v < 16777216,
    ensures
        be24(v).len() == 3,
        from_be24(be24(v)[0], be24(v)[1], be24(v)[2]) == v,
{
}

pub proof fn lemma_be32_roundtrip(v: u32)
    ensures
        be32(v).len() == 4,
        from_be32(be32(v)[0], be32(v)[1], be32(v)[2], be32(v)[3]) == v,
{
}

pub proof fn lemma_be64_roundtrip(v: u64)
    ensures
        be64(v).len() == 8,
        read_be64(be64(v), 0) == v,
{
    lemma_be32_roundtrip((v / 4294967296) as u32);
    lemma_be32_roundtrip((v % 4294967296) as u32);
    let s = be64(v);
    assert(s.subrange(0, 4) =~= be32((v / 4294967296) as u32));
    assert(s.subrange(4, 8) =~= be32((v % 4294967296) as u32));
}

pub proof fn lemma_le16_roundtrip(v: u16)
    ensures
        le16(v).len() == 2,
        from_le16(le16(v)[0], le16(v)[1]) == v,
{
}

pub proof fn lemma_le32_roundtrip(v: u32)
    ensures
        le32(v).len() == 4,
        from_le32(le32(v)[0], le32(v)[1], le32(v)[2], le32(v)[3]) == v,
{
}

pub proof fn lemma_le64_roundtrip(v: u64)
    ensures
        le64(v).len() == 8,
        read_le64(le64(v), 0) == v,
{
    lemma_le32_roundtrip((v % 4294967296) as u32);
    lemma_le32_roundtrip((v / 4294967296) as u32);
    let s = le64(v);
    assert(s.subrange(0, 4) =~= le32((v % 4294967296) as u32));
    assert(s.subrange(4, 8) =~= le32((v / 4294967296) as u32));
}

/// The big-endian bytes of the value that two bytes encode are those bytes.
pub proof fn lemma_be16_of_bytes(b0: u8, b1: u8)
    ensures
        be16(from_be16(b0, b1)) == seq![b0, b1],
{
    assert((b0 * 256 + b1) / 256 == b0 && (b0 * 256 + b1) % 256 == b1) by (nonlinear_arith)
        requires
            b0 < 256,
            b1 < 256,
    ;
    assert(be16(from_be16(b0, b1)) =~= seq![b0, b1]);
}

/// The big-endian bytes of the value that three bytes encode are those bytes.
pub proof fn lemma_be24_of_bytes(b0: u8, b1: u8, b2: u8)
    ensures
        from_be24(b0, b1, b2) < 16777216,
        be24(from_be24(b0, b1, b2)) == seq![b0, b1, b2],
{
    let v: int = b0 * 65536 + b1 * 256 + b2;
    assert(v < 16777216 && (v / 65536) % 256 == b0 && (v / 256) % 256 == b1 && v % 256 == b2)
        by (nonlinear_arith)
        requires
            v == b0 * 65536 + b1 * 256 + b2,
            b0 < 256,
            b1 < 256,
            b2 < 256,
    ;
    assert(be24(from_be24(b0, b1, b2)) =~= seq![b0, b1, b2]);
}

/// The big-endian bytes of the value that four bytes encode are those bytes.
pub proof fn lemma_be32_of_bytes(b0: u8, b1: u8, b2: u8, b3: u8)
    ensures
        be32(from_be32(b0, b1, b2, b3)) == seq![b0, b1, b2, b3],
{
    let v: int = b0 * 16777216 + b1 * 65536 + b2 * 256 + b3;
    assert(v / 16777216 == b0 && (v / 65536) % 256 == b1 && (v / 256) % 256 == b2 && v % 256 == b3)
        by (nonlinear_arith)
        requires
            v == b0 * 16777216 + b1 * 65536 + b2 * 256 + b3,
            b0 < 256,
            b1 < 256,
            b2 < 256,
            b3 < 256,
    ;
    assert(be32(from_be32(b0, b1, b2, b3)) =~= seq![b0, b1, b2, b3]);
}

/// Appends the big-endian bytes of `v`.
pub fn push_be16(out: &mut Vec<u8>, v: u16)
    ensures
        final(out)@ == old(out)@ + be16(v),
{
    out.push((v / 256) as u8);
    out.push((v % 256) as u8);
    assert(final(out)@ =~= old(out)@ + be16(v));
}

/// Appends the big-endian bytes of `v`.
pub fn push_be32(out: &mut Vec<u8>, v: u32)
    ensures
        final(out)@ == old(out)@ + be32(v),
{
    out.push((v / 16777216) as u8);
    out.push(((v / 65536) % 256) as u8);
    out.push(((v / 256) % 256) as u8);
    out.push((v % 256) as u8);
    assert(final(out)@ =~= old(out)@ + be32(v));
}

/// Appends the big-endian bytes of `v`.
pub fn push_be64(out: &mut Vec<u8>, v: u64)
    ensures
        final(out)@ == old(out)@ + be64(v),
{
    let ghost start = out@;
    push_be32(out, (v / 4294967296) as u32);
    push_be32(out, (v % 4294967296) as u32);
    assert(out@ =~= start + be64(v));
}

/// Appends the little-endian bytes of `v`.
pub fn push_le16(out: &mut Vec<u8>, v: u16)
    ensures
        final(out)@ == old(out)@ + le16(v),
{
    out.push((v % 256) as u8);
    out.push((v / 256) as u8);
    assert(final(out)@ =~= old(out)@ + le16(v));
}

/// Appends the little-endian bytes of `v`.
pub fn push_le32(out: &mut Vec<u8>, v: u32)
    ensures
        final(out)@ == old(out)@ + le32(v),
{
    out.push((v % 256) as u8);
    out.push(((v / 256) % 256) as u8);
    out.push(((v / 65536) % 256) as u8);
    out.push((v / 16777216) as u8);
    assert(final(out)@ =~= old(out)@ + le32(v));
}

/// Appends the little-endian bytes of `v`.
pub fn push_le64(out: &mut Vec<u8>, v: u64)
    ensures
        final(out)@ == old(out)@ + le64(v),
{
    let ghost start = out@;
    push_le32(out, (v % 4294967296) as u32);
    push_le32(out, (v / 4294967296) as u32);
    assert(out@ =~= start + le64(v));
}

/// Appends every byte of `src`.
pub fn push_all(out: &mut Vec<u8>, src: &[u8])
    ensures
        final(out)@ == old(out)@ + src@,
{
    let ghost start = out@;
    let mut i: usize = 0;
    while i < src.len()
        invariant
            i <= src@.len(),
            out@ == start + src@.subrange(0, i as int),
        decreases src@.len() - i,
    {
        out.push(src[i]);
        i = i + 1;
        assert(out@ =~= start + src@.subrange(0, i as int));
    }
    assert(src@.subrange(0, src@.len() as int) =~= src@);
}

/// A fresh vector holding `s[from..to]`.
pub fn copy_range(s: &[u8], from: usize, to: usize) -> (r: Vec<u8>)
    requires
        from <= to <= s@.len(),
    ensures
        r@ == s@.subrange(from as int, to as int),
{
    let mut r: Vec<u8> = Vec::new();
    let mut i: usize = from;
    while i < to
        invariant
            from <= i <= to <= s@.len(),
            r@ == s@.subrange(from as int, i as int),
        decreases to - i,
    {
        r.push(s[i]);
        i = i + 1;
        assert(r@ =~= s@.subrange(from as int, i as int));
    }
    r
}

/// The big-endian `u16` at `s[i..i + 2]`.
pub fn get_be16(s: &[u8], i: usize) -> (r: u16)
    requires
        i + 2 <= s@.len(),
    ensures
        r == read_be16(s@, i as int),
{
    (s[i] as u16) * 256 + (s[i + 1] as u16)
}

/// The big-endian `u32` at `s[i..i + 4]`.
pub fn get_be32(s: &[u8], i: usize) -> (r: u32)
    requires
        i + 4 <= s@.len(),
    ensures
        r == read_be32(s@, i as int),
{
    (s[i] as u32) * 16777216 + (s[i + 1] as u32) * 65536 + (s[i + 2] as u32) * 256 + (s[i + 3] as u32)
}

/// The big-endian `u64` at `s[i..i + 8]`.
pub fn get_be64(s: &[u8], i: usize) -> (r: u64)
    requires
        i + 8 <= s@.len(),
    ensures
        r == read_be64(s@, i as int),
{
    let _n = s.len();
    let hi = get_be32(s, i);
    let lo = get_be32(s, i + 4);
    (hi as u64) * 4294967296 + (lo as u64)
}

/// The little-endian `u16` at `s[i..i + 2]`.
pub fn get_le16(s: &[u8], i: usize) -> (r: u16)
    requires
        i + 2 <= s@.len(),
    ensures
        r == read_le16(s@, i as int),
{
    (s[i] as u16) + (s[i + 1] as u16) * 256
}

/// The little-endian `u64` at `s[i..i + 8]`.
pub fn get_le64(s: &[u8], i: usize) -> (r: u64)
    requires
        i + 8 <= s@.len(),
    ensures
        r == read_le64(s@, i as int),
{
    let _n = s.len();
    let lo = get_le32(s, i);
    let hi = get_le32(s, i + 4);
    (lo as u64) + (hi as u64) * 4294967296
}

/// The little-endian `u32` at `s[i..i + 4]`.
pub fn get_le32(s: &[u8], i: usize) -> (r: u32)
    requires
        i + 4 <= s@.len(),
    ensures
        r == read_le32(s@, i as int),
{
    (s[i] as u32) + (s[i + 1] as u32) * 256 + (s[i + 2] as u32) * 65536 + (s[i + 3] as u32) * 16777216
}

} // verus!
