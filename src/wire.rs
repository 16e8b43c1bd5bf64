//! Little-endian fixed-width fields and length-prefixed byte fields, with
//! readers that never look past the end of the buffer.
use vstd::prelude::*;
use vstd::slice::{slice_subrange, slice_to_vec};

verus! {

/// The four little-endian bytes of `v`.
#[verifier::opaque]
pub open spec fn le32(v: u32) -> Seq<u8> {
    seq![v as u8, (v >> 8u32) as u8, (v >> 16u32) as u8, (v >> 24u32) as u8]
}

/// The value of four little-endian bytes.
pub open spec fn from_le32(s: Seq<u8>) -> u32
    recommends
        s.len() == 4,
{
    (s[0] as u32) | ((s[1] as u32) << 8u32) | ((s[2] as u32) << 16u32) | ((s[3] as u32) << 24u32)
}

/// The eight little-endian bytes of `v`.
#[verifier::opaque]
pub open spec fn le64(v: u64) -> Seq<u8> {
    seq![
        v as u8,
        (v >> 8u64) as u8,
        (v >> 16u64) as u8,
        (v >> 24u64) as u8,
        (v >> 32u64) as u8,
        (v >> 40u64) as u8,
        (v >> 48u64) as u8,
        (v >> 56u64) as u8,
    ]
}

/// The value of eight little-endian bytes.
pub open spec fn from_le64(s: Seq<u8>) -> u64
    recommends
        s.len() == 8,
{
    (s[0] as u64) | ((s[1] as u64) << 8u64) | ((s[2] as u64) << 16u64) | ((s[3] as u64) << 24u64)
        | ((s[4] as u64) << 32u64) | ((s[5] as u64) << 40u64) | ((s[6] as u64) << 48u64) | ((
    s[7] as u64) << 56u64)
}

/// A byte field: its length as eight little-endian bytes, then its bytes.
pub open spec fn blob(b: Seq<u8>) -> Seq<u8> {
    le64(b.len() as u64) + b
}

/// A signed 32-bit field, in two's complement.
pub open spec fn le_i32(v: i32) -> Seq<u8> {
    le32(v as u32)
}

/// A signed 64-bit field, in two's complement.
pub open spec fn le_i64(v: i64) -> Seq<u8> {
    le64(v as u64)
}

/// A `usize` field, always eight bytes wide.
pub open spec fn le_usize(v: usize) -> Seq<u8> {
    le64(v as u64)
}

pub proof fn lemma_le32_len(v: u32)
    ensures
        le32(v).len() == 4,
{
    reveal(le32);
}

pub proof fn lemma_le64_len(v: u64)
    ensures
        le64(v).len() == 8,
{
    reveal(le64);
}

pub proof fn lemma_le32_round_trip(v: u32)
    ensures
        from_le32(le32(v)) == v,
{
    reveal(le32);
    let s = le32(v);
    let (b0, b1, b2, b3) = (s[0], s[1], s[2], s[3]);
    assert(b0 == v as u8 && b1 == (v >> 8u32) as u8 && b2 == (v >> 16u32) as u8 && b3 == (v
        >> 24u32) as u8);
    assert((b0 as u32) | ((b1 as u32) << 8u32) | ((b2 as u32) << 16u32) | ((b3 as u32) << 24u32)
        == v) by (bit_vector)
        requires
            b0 == v as u8,
            b1 == (v >> 8u32) as u8,
            b2 == (v >> 16u32) as u8,
            b3 == (v >> 24u32) as u8,
    ;
}

pub proof fn lemma_le32_canonical(s: Seq<u8>)
    requires
        s.len() == 4,
    ensures
        le32(from_le32(s)) == s,
{
    reveal(le32);
    let (b0, b1, b2, b3) = (s[0], s[1], s[2], s[3]);
    let v = from_le32(s);
    assert(v == (b0 as u32) | ((b1 as u32) << 8u32) | ((b2 as u32) << 16u32) | ((b3 as u32)
        << 24u32));
    assert(b0 == v as u8 && b1 == (v >> 8u32) as u8 && b2 == (v >> 16u32) as u8 && b3 == (v
        >> 24u32) as u8) by (bit_vector)
        requires
            v == (b0 as u32) | ((b1 as u32) << 8u32) | ((b2 as u32) << 16u32) | ((b3 as u32)
                << 24u32),
    ;
    assert(le32(v) =~= s);
}

/// An `i32` survives the trip through its 32 bits.
pub proof fn lemma_i32_bits(a: i32)
    ensures
        (a as u32) as i32 == a,
{
    assert((a as u32) as i32 == a) by (bit_vector);
}

/// 32 bits survive the trip through an `i32`.
pub proof fn lemma_u32_bits(u: u32)
    ensures
        (u as i32) as u32 == u,
{
    assert((u as i32) as u32 == u) by (bit_vector);
}

/// An `i64` survives the trip through its 64 bits.
pub proof fn lemma_i64_bits(a: i64)
    ensures
        (a as u64) as i64 == a,
{
    assert((a as u64) as i64 == a) by (bit_vector);
}

/// 64 bits survive the trip through an `i64`.
pub proof fn lemma_u64_bits(u: u64)
    ensures
        (u as i64) as u64 == u,
{
    assert((u as i64) as u64 == u) by (bit_vector);
}

pub proof fn lemma_le64_round_trip(v: u64)
    ensures
        from_le64(le64(v)) == v,
{
    reveal(le64);
    let s = le64(v);
    let (b0, b1, b2, b3, b4, b5, b6, b7) = (s[0], s[1], s[2], s[3], s[4], s[5], s[6], s[7]);
    assert((b0 as u64) | ((b1 as u64) << 8u64) | ((b2 as u64) << 16u64) | ((b3 as u64) << 24u64)
        | ((b4 as u64) << 32u64) | ((b5 as u64) << 40u64) | ((b6 as u64) << 48u64) | ((b7 as u64)
        << 56u64) == v) by (bit_vector)
        requires
            b0 == v as u8,
            b1 == (v >> 8u64) as u8,
            b2 == (v >> 16u64) as u8,
            b3 == (v >> 24u64) as u8,
            b4 == (v >> 32u64) as u8,
            b5 == (v >> 40u64) as u8,
            b6 == (v >> 48u64) as u8,
            b7 == (v >> 56u64) as u8,
    ;
}

pub proof fn lemma_le64_canonical(s: Seq<u8>)
    requires
        s.len() == 8,
    ensures
        le64(from_le64(s)) == s,
{
    reveal(le64);
    let (b0, b1, b2, b3, b4, b5, b6, b7) = (s[0], s[1], s[2], s[3], s[4], s[5], s[6], s[7]);
    let v = from_le64(s);
    assert(b0 == v as u8 && b1 == (v >> 8u64) as u8 && b2 == (v >> 16u64) as u8 && b3 == (v
        >> 24u64) as u8 && b4 == (v >> 32u64) as u8 && b5 == (v >> 40u64) as u8 && b6 == (v
        >> 48u64) as u8 && b7 == (v >> 56u64) as u8) by (bit_vector)
        requires
            v == (b0 as u64) | ((b1 as u64) << 8u64) | ((b2 as u64) << 16u64) | ((b3 as u64)
                << 24u64) | ((b4 as u64) << 32u64) | ((b5 as u64) << 40u64) | ((b6 as u64)
                << 48u64) | ((b7 as u64) << 56u64),
    ;
    assert(le64(v) =~= s);
}

/// Reads a 32-bit field at `pos`, giving the value and the position after it.
pub open spec fn read32(b: Seq<u8>, pos: int) -> Option<(u32, int)> {
    if 0 <= pos && pos + 4 <= b.len() {
        Some((from_le32(b.subrange(pos, pos + 4)), pos + 4))
    } else {
        None
    }
}

/// Reads a 64-bit field at `pos`, giving the value and the position after it.
pub open spec fn read64(b: Seq<u8>, pos: int) -> Option<(u64, int)> {
    if 0 <= pos && pos + 8 <= b.len() {
        Some((from_le64(b.subrange(pos, pos + 8)), pos + 8))
    } else {
        None
    }
}

/// Reads a byte field at `pos`: its length, then that many bytes, all inside `b`.
pub open spec fn read_blob(b: Seq<u8>, pos: int) -> Option<(Seq<u8>, int)> {
    match read64(b, pos) {
        Some((n, p)) => if p + n <= b.len() {
            Some((b.subrange(p, p + n), p + n))
        } else {
            None
        },
        None => None,
    }
}

/// A 32-bit field placed between `pre` and `post` reads back as itself.
pub proof fn lemma_read32_at(pre: Seq<u8>, v: u32, post: Seq<u8>)
    ensures
        read32(pre + le32(v) + post, pre.len() as int) == Some((v, pre.len() + 4int)),
{
    lemma_le32_len(v);
    assert((pre + le32(v) + post).subrange(pre.len() as int, pre.len() + 4int) =~= le32(v));
    lemma_le32_round_trip(v);
}

/// A 64-bit field placed between `pre` and `post` reads back as itself.
pub proof fn lemma_read64_at(pre: Seq<u8>, v: u64, post: Seq<u8>)
    ensures
        read64(pre + le64(v) + post, pre.len() as int) == Some((v, pre.len() + 8int)),
{
    lemma_le64_len(v);
    assert((pre + le64(v) + post).subrange(pre.len() as int, pre.len() + 8int) =~= le64(v));
    lemma_le64_round_trip(v);
}

/// A byte field placed between `pre` and `post` reads back as itself.
pub proof fn lemma_read_blob_at(pre: Seq<u8>, v: Seq<u8>, post: Seq<u8>)
    requires
        v.len() <= u64::MAX,
    ensures
        read_blob(pre + blob(v) + post, pre.len() as int) == Some((v, pre.len() + 8int + v.len())),
{
    let b = pre + blob(v) + post;
    lemma_le64_len(v.len() as u64);
    assert(b =~= pre + le64(v.len() as u64) + (v + post));
    lemma_read64_at(pre, v.len() as u64, v + post);
    assert(b.subrange(pre.len() + 8int, pre.len() + 8int + v.len()) =~= v);
}

/// What a 32-bit read consumed is the encoding of what it gave.
pub proof fn lemma_read32_span(b: Seq<u8>, pos: int)
    requires
        read32(b, pos) is Some,
    ensures
        b.subrange(pos, pos + 4) == le32(read32(b, pos).unwrap().0),
{
    lemma_le32_canonical(b.subrange(pos, pos + 4));
}

/// What a 64-bit read consumed is the encoding of what it gave.
pub proof fn lemma_read64_span(b: Seq<u8>, pos: int)
    requires
        read64(b, pos) is Some,
    ensures
        b.subrange(pos, pos + 8) == le64(read64(b, pos).unwrap().0),
{
    lemma_le64_canonical(b.subrange(pos, pos + 8));
}

/// What a byte-field read consumed is the encoding of what it gave.
pub proof fn lemma_read_blob_span(b: Seq<u8>, pos: int)
    requires
        read_blob(b, pos) is Some,
    ensures
        b.subrange(pos, read_blob(b, pos).unwrap().1) == blob(read_blob(b, pos).unwrap().0),
{
    lemma_read64_span(b, pos);
    let (v, q) = read_blob(b, pos).unwrap();
    lemma_le64_len(v.len() as u64);
    assert(b.subrange(pos, q) =~= b.subrange(pos, pos + 8) + b.subrange(pos + 8, q));
}

/// Appends the four little-endian bytes of `v`.
pub fn put_u32(out: &mut Vec<u8>, v: u32)
    ensures
        final(out)@ == old(out)@ + le32(v),
{
    out.push(v as u8);
    out.push((v >> 8u32) as u8);
    out.push((v >> 16u32) as u8);
    out.push((v >> 24u32) as u8);
    reveal(le32);
    assert(final(out)@ =~= old(out)@ + le32(v));
}

/// Appends the eight little-endian bytes of `v`.
pub fn put_u64(out: &mut Vec<u8>, v: u64)
    ensures
        final(out)@ == old(out)@ + le64(v),
{
    out.push(v as u8);
    out.push((v >> 8u64) as u8);
    out.push((v >> 16u64) as u8);
    out.push((v >> 24u64) as u8);
    out.push((v >> 32u64) as u8);
    out.push((v >> 40u64) as u8);
    out.push((v >> 48u64) as u8);
    out.push((v >> 56u64) as u8);
    reveal(le64);
    assert(final(out)@ =~= old(out)@ + le64(v));
}

/// Appends a byte field: the length of `v`, then its bytes.
pub fn put_blob(out: &mut Vec<u8>, v: &[u8])
    ensures
        final(out)@ == old(out)@ + blob(v@),
{
    put_u64(out, v.len() as u64);
    proof {
        lemma_le64_len(v@.len() as u64);
    }
    let ghost start = out@;
    let mut i: usize = 0;
    while i < v.len()
        invariant
            i <= v@.len(),
            out@ == start + v@.subrange(0, i as int),
        decreases v@.len() - i,
    {
        out.push(v[i]);
        i = i + 1;
        assert(out@ =~= start + v@.subrange(0, i as int));
    }
    assert(v@.subrange(0, v@.len() as int) =~= v@);
    assert(final(out)@ =~= old(out)@ + blob(v@));
}

/// Reads a 32-bit field at `pos`.
pub fn get_u32(b: &[u8], pos: usize) -> (r: Option<(u32, usize)>)
    ensures
        match r {
            Some((v, p)) => read32(b@, pos as int) == Some((v, p as int)),
            None => read32(b@, pos as int) is None,
        },
{
    if pos > b.len() || b.len() - pos < 4 {
        return None;
    }
    let v = (b[pos] as u32) | ((b[pos + 1] as u32) << 8u32) | ((b[pos + 2] as u32) << 16u32) | ((
    b[pos + 3] as u32) << 24u32);
    assert(b@.subrange(pos as int, pos + 4)[3] == b@[pos + 3]);
    Some((v, pos + 4))
}

/// Reads a 64-bit field at `pos`.
pub fn get_u64(b: &[u8], pos: usize) -> (r: Option<(u64, usize)>)
    ensures
        match r {
            Some((v, p)) => read64(b@, pos as int) == Some((v, p as int)),
            None => read64(b@, pos as int) is None,
        },
{
    if pos > b.len() || b.len() - pos < 8 {
        return None;
    }
    let v = (b[pos] as u64) | ((b[pos + 1] as u64) << 8u64) | ((b[pos + 2] as u64) << 16u64) | ((
    b[pos + 3] as u64) << 24u64) | ((b[pos + 4] as u64) << 32u64) | ((b[pos + 5] as u64) << 40u64)
        | ((b[pos + 6] as u64) << 48u64) | ((b[pos + 7] as u64) << 56u64);
    assert(b@.subrange(pos as int, pos + 8)[7] == b@[pos + 7]);
    Some((v, pos + 8))
}

/// Reads a byte field at `pos`, copying its bytes out of `b` once.
pub fn get_blob(b: &[u8], pos: usize) -> (r: Option<(Vec<u8>, usize)>)
    ensures
        match r {
            Some((v, p)) => read_blob(b@, pos as int) == Some((v@, p as int)),
            None => read_blob(b@, pos as int) is None,
        },
{
    match get_u64(b, pos) {
        Some((n, p)) => {
            if n > (b.len() - p) as u64 {
                None
            } else {
                let q = p + n as usize;
                let v = slice_to_vec(slice_subrange(b, p, q));
                Some((v, q))
            }
        },
        None => None,
    }
}

} // verus!
