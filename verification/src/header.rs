//! The fixed header of twelve bytes: transaction id, flags and the four
//! section counts, all big-endian.

use vstd::prelude::*;
use crate::error::{ErrorKind, Fault};
use crate::flags::{Flags, decoded, lemma_flags_round_trip, pack};
use crate::wire::{holds_at, lemma_u16_round_trip, push_all, push_u16, u16_at, u16_bytes};

verus! {

/// The length of the header on the wire.
pub const HEADER_LEN: usize = 12;

/// The header of a message.
#[derive(Clone, Copy, Debug, PartialEq, Eq, Structural)]
pub struct Header {
    /// Transaction id, which a response repeats from its request.
    pub id: u16,
    pub flags: Flags,
    /// Number of entries in the question section.
    pub qdcount: u16,
    /// Number of records in the answer section.
    pub ancount: u16,
    /// Number of records in the authority section.
    pub nscount: u16,
    /// Number of records in the additional section.
    pub arcount: u16,
}

/// The twelve bytes of a header.
pub open spec fn encode_header(h: Header) -> Seq<u8> {
    u16_bytes(h.id) + pack(h.flags) + u16_bytes(h.qdcount) + u16_bytes(h.ancount) + u16_bytes(
        h.nscount,
    ) + u16_bytes(h.arcount)
}

/// The header that `buf` starts with, and the offset just past it. A
/// buffer of fewer than twelve bytes holds none.
pub open spec fn header_at(buf: Seq<u8>) -> Result<(Header, int), Fault> {
    if buf.len() < 12 {
        Err((ErrorKind::Truncated, 0))
    } else {
        Ok(
            (
                Header {
                    id: u16_at(buf, 0),
                    flags: decoded(buf[2], buf[3]),
                    qdcount: u16_at(buf, 4),
                    ancount: u16_at(buf, 6),
                    nscount: u16_at(buf, 8),
                    arcount: u16_at(buf, 10),
                },
                12,
            ),
        )
    }
}

impl Header {
    /// Appends the twelve bytes of the header to `out`.
    pub fn encode_into(&self, out: &mut Vec<u8>)
        ensures
            final(out)@ == old(out)@ + encode_header(*self),
    {
        push_u16(out, self.id);
        let flags = self.flags.to_be_bytes();
        push_all(out, flags.as_slice());
        push_u16(out, self.qdcount);
        push_u16(out, self.ancount);
        push_u16(out, self.nscount);
        push_u16(out, self.arcount);
    }

    /// The twelve bytes of the header.
    pub fn to_vec(&self) -> (r: Vec<u8>)
        ensures
            r@ == encode_header(*self),
            r@.len() == HEADER_LEN,
    {
        let mut out: Vec<u8> = Vec::new();
        self.encode_into(&mut out);
        out
    }
}

/// Where a buffer starts with the twelve bytes of a header, the header
/// read from it has the same id and counts, and the flags that decoding
/// makes of the packed ones.
pub proof fn lemma_header_held(buf: Seq<u8>, h: Header)
    requires
        holds_at(buf, 0, encode_header(h)),
    ensures
        header_at(buf) == Ok::<(Header, int), Fault>(
            (Header { flags: decoded(pack(h.flags)[0], pack(h.flags)[1]), ..h }, 12),
        ),
{
    assert(forall|i: int| 0 <= i < 12 ==> buf[i] == encode_header(h)[i]);
    lemma_u16_round_trip(h.id);
    lemma_u16_round_trip(h.qdcount);
    lemma_u16_round_trip(h.ancount);
    lemma_u16_round_trip(h.nscount);
    lemma_u16_round_trip(h.arcount);
}

/// A header with well-formed flags reads back from its twelve bytes as
/// itself.
pub proof fn lemma_header_round_trip(buf: Seq<u8>, h: Header)
    requires
        h.flags.wf(),
        holds_at(buf, 0, encode_header(h)),
    ensures
        header_at(buf) == Ok::<(Header, int), Fault>((h, 12)),
{
    lemma_header_held(buf, h);
    lemma_flags_round_trip(h.flags);
}

} // verus!
