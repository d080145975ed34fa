//! Big-endian integers on the wire.

use vstd::prelude::*;
use vstd::slice::slice_index_get;

verus! {

/// The 16-bit value whose high byte is `hi` and whose low byte is `lo`.
pub open spec fn be16(hi: u8, lo: u8) -> u16 {
    (hi as int * 256 + lo as int) as u16
}

/// The 32-bit value of four bytes, most significant first.
pub open spec fn be32(b0: u8, b1: u8, b2: u8, b3: u8) -> u32 {
    (b0 as int * 16777216 + b1 as int * 65536 + b2 as int * 256 + b3 as int) as u32
}

/// The two bytes of `v`, most significant first.
pub open spec fn u16_bytes(v: u16) -> Seq<u8> {
    seq![(v as int / 256) as u8, (v as int % 256) as u8]
}

/// The four bytes of `v`, most significant first.
pub open spec fn u32_bytes(v: u32) -> Seq<u8> {
    seq![
        (v as int / 16777216) as u8,
        (v as int / 65536 % 256) as u8,
        (v as int / 256 % 256) as u8,
        (v as int % 256) as u8,
    ]
}

/// The 16-bit value that `buf` holds at `at`.
pub open spec fn u16_at(buf: Seq<u8>, at: int) -> u16 {
    be16(buf[at], buf[at + 1])
}

/// The 32-bit value that `buf` holds at `at`.
pub open spec fn u32_at(buf: Seq<u8>, at: int) -> u32 {
    be32(buf[at], buf[at + 1], buf[at + 2], buf[at + 3])
}

/// `buf` holds the bytes `part` from offset `at` on.
pub open spec fn holds_at(buf: Seq<u8>, at: int, part: Seq<u8>) -> bool {
    &&& 0 <= at
    &&& at + part.len() <= buf.len()
    &&& buf.subrange(at, at + part.len()) == part
}

/// Reads the big-endian 16-bit value at `at`, if two bytes are there.
pub fn read_u16(buf: &[u8], at: usize) -> (r: Option<u16>)
    ensures
        r == (if at + 2 <= buf@.len() {
            Some(u16_at(buf@, at as int))
        } else {
            None
        }),
{
    if buf.len() < 2 || at > buf.len() - 2 {
        return None;
    }
    let hi: u8 = *slice_index_get(buf, at);
    let lo: u8 = *slice_index_get(buf, at + 1);
    Some((hi as u16) * 256 + (lo as u16))
}

/// Reads the big-endian 32-bit value at `at`, if four bytes are there.
pub fn read_u32(buf: &[u8], at: usize) -> (r: Option<u32>)
    ensures
        r == (if at + 4 <= buf@.len() {
            Some(u32_at(buf@, at as int))
        } else {
            None
        }),
{
    if buf.len() < 4 || at > buf.len() - 4 {
        return None;
    }
    let b0: u8 = *slice_index_get(buf, at);
    let b1: u8 = *slice_index_get(buf, at + 1);
    let b2: u8 = *slice_index_get(buf, at + 2);
    let b3: u8 = *slice_index_get(buf, at + 3);
    Some((b0 as u32) * 16777216 + (b1 as u32) * 65536 + (b2 as u32) * 256 + (b3 as u32))
}

/// Appends the two bytes of `v`, most significant first.
pub fn push_u16(out: &mut Vec<u8>, v: u16)
    ensures
        final(out)@ == old(out)@ + u16_bytes(v),
{
    out.push((v / 256) as u8);
    out.push((v % 256) as u8);
}

/// Appends the four bytes of `v`, most significant first.
pub fn push_u32(out: &mut Vec<u8>, v: u32)
    ensures
        final(out)@ == old(out)@ + u32_bytes(v),
{
    out.push((v / 16777216) as u8);
    out.push((v / 65536 % 256) as u8);
    out.push((v / 256 % 256) as u8);
    out.push((v % 256) as u8);
}

/// Appends every byte of `part`.
pub fn push_all(out: &mut Vec<u8>, part: &[u8])
    ensures
        final(out)@ == old(out)@ + part@,
{
    let mut i: usize = 0;
    while i < part.len()
        invariant
            i <= part@.len(),
            out@ == old(out)@ + part@.subrange(0, i as int),
        decreases part@.len() - i,
    {
        out.push(*slice_index_get(part, i));
        i += 1;
    }
    assert(part@.subrange(0, part@.len() as int) == part@);
}

/// Whether two runs of bytes are the same: as long, and byte for byte.
pub fn same_bytes(a: &[u8], b: &[u8]) -> (r: bool)
    ensures
        r == (a@ == b@),
{
    if a.len() != b.len() {
        return false;
    }
    let mut i: usize = 0;
    while i < a.len()
        invariant
            i <= a@.len(),
            a@.len() == b@.len(),
            a@.subrange(0, i as int) == b@.subrange(0, i as int),
        decreases a@.len() - i,
    {
        if *slice_index_get(a, i) != *slice_index_get(b, i) {
            return false;
        }
        i += 1;
    }
    assert(a@.subrange(0, a@.len() as int) =~= a@);
    assert(b@.subrange(0, b@.len() as int) =~= b@);
    true
}

/// What was written as two bytes reads back as the same value.
pub proof fn lemma_u16_round_trip(v: u16)
    ensures
        u16_bytes(v).len() == 2,
        be16(u16_bytes(v)[0], u16_bytes(v)[1]) == v,
{
}

/// What was written as four bytes reads back as the same value.
pub proof fn lemma_u32_round_trip(v: u32)
    ensures
        u32_bytes(v).len() == 4,
        be32(u32_bytes(v)[0], u32_bytes(v)[1], u32_bytes(v)[2], u32_bytes(v)[3]) == v,
{
}

/// A buffer that holds the two bytes of `v` at `at` reads as `v` there.
pub proof fn lemma_u16_held(buf: Seq<u8>, at: int, v: u16)
    requires
        holds_at(buf, at, u16_bytes(v)),
    ensures
        at + 2 <= buf.len(),
        u16_at(buf, at) == v,
{
    lemma_u16_round_trip(v);
}

/// A buffer that holds the four bytes of `v` at `at` reads as `v` there.
pub proof fn lemma_u32_held(buf: Seq<u8>, at: int, v: u32)
    requires
        holds_at(buf, at, u32_bytes(v)),
    ensures
        at + 4 <= buf.len(),
        u32_at(buf, at) == v,
{
    lemma_u32_round_trip(v);
}

/// A buffer that holds two parts one after the other holds each of them.
pub proof fn lemma_holds_split(buf: Seq<u8>, at: int, first: Seq<u8>, second: Seq<u8>)
    requires
        holds_at(buf, at, first + second),
    ensures
        holds_at(buf, at, first),
        holds_at(buf, at + first.len(), second),
{
    let whole = first + second;
    assert(buf.subrange(at, at + first.len()) =~= whole.subrange(0, first.len() as int));
    assert(whole.subrange(0, first.len() as int) =~= first);
    assert(buf.subrange(at + first.len(), at + first.len() + second.len()) =~= whole.subrange(
        first.len() as int,
        whole.len() as int,
    ));
    assert(whole.subrange(first.len() as int, whole.len() as int) =~= second);
}

} // verus!
