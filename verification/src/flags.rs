//! The sixteen flag bits of the header.
//!
//! On the wire the first octet holds, from its most significant bit down,
//! the response indicator (1 bit), the operation code (4), authoritative
//! answer (1), truncation (1) and recursion desired (1); the second octet
//! holds recursion available (1), three reserved bits and the response
//! code (4).

use vstd::prelude::*;
use crate::error::ErrorKind;

verus! {

/// The flag fields, each held as its own small number.
#[derive(Clone, Copy, Debug, PartialEq, Eq, Structural)]
pub struct Flags {
    /// Response indicator: 0 for a query, 1 for a response.
    pub qr: u8,
    /// Operation code, 0 to 15. Only 0, the standard query, is supported.
    pub opcode: u8,
    /// Authoritative answer.
    pub aa: u8,
    /// Truncation.
    pub tc: u8,
    /// Recursion desired.
    pub rd: u8,
    /// Recursion available.
    pub ra: u8,
    /// The reserved bits. They are zero in every encoding.
    pub z: u8,
    /// Response code, which follows from the operation code.
    pub rcode: u8,
}

/// The response code that belongs to an operation code: success for the
/// standard query, "not implemented" for every other.
pub open spec fn rcode_for(opcode: u8) -> u8 {
    if opcode == 0 {
        0
    } else {
        4
    }
}

/// The first octet of the packed flags. Each field counts by its low bits
/// only, so no field reaches into another.
pub open spec fn pack_high(f: Flags) -> u8 {
    ((f.qr as int % 2) * 128 + (f.opcode as int % 16) * 8 + (f.aa as int % 2) * 4 + (f.tc as int
        % 2) * 2 + (f.rd as int % 2)) as u8
}

/// The second octet of the packed flags. The reserved bits are zero
/// whatever `f.z` holds.
pub open spec fn pack_low(f: Flags) -> u8 {
    ((f.ra as int % 2) * 128 + (f.rcode as int % 16)) as u8
}

/// The two octets of the packed flags.
pub open spec fn pack(f: Flags) -> Seq<u8> {
    seq![pack_high(f), pack_low(f)]
}

/// The fields that two octets hold, each taken from its own bits.
pub open spec fn unpack(hi: u8, lo: u8) -> Flags {
    Flags {
        qr: (hi as int / 128) as u8,
        opcode: (hi as int / 8 % 16) as u8,
        aa: (hi as int / 4 % 2) as u8,
        tc: (hi as int / 2 % 2) as u8,
        rd: (hi as int % 2) as u8,
        ra: (lo as int / 128) as u8,
        z: (lo as int / 16 % 8) as u8,
        rcode: (lo as int % 16) as u8,
    }
}

/// `f` with each field cut down to the bits that its width allows, and
/// the reserved bits cleared: what packing keeps of `f`.
pub open spec fn masked(f: Flags) -> Flags {
    Flags {
        qr: (f.qr as int % 2) as u8,
        opcode: (f.opcode as int % 16) as u8,
        aa: (f.aa as int % 2) as u8,
        tc: (f.tc as int % 2) as u8,
        rd: (f.rd as int % 2) as u8,
        ra: (f.ra as int % 2) as u8,
        z: 0,
        rcode: (f.rcode as int % 16) as u8,
    }
}

/// `f` with the reserved bits cleared and the response code that its
/// operation code calls for.
pub open spec fn settled(f: Flags) -> Flags {
    Flags { z: 0, rcode: rcode_for(f.opcode), ..f }
}

/// The flags that decoding makes of two octets.
pub open spec fn decoded(hi: u8, lo: u8) -> Flags {
    settled(unpack(hi, lo))
}

/// What decoding two flag octets has to remark on, without failing: set
/// reserved bits first, then an operation code that is not supported.
pub open spec fn remarks(hi: u8, lo: u8) -> Seq<ErrorKind> {
    let reserved = if unpack(hi, lo).z != 0 {
        seq![ErrorKind::ReservedBitsViolation]
    } else {
        Seq::<ErrorKind>::empty()
    };
    let unsupported = if unpack(hi, lo).opcode != 0 {
        seq![ErrorKind::UnsupportedOperationCode]
    } else {
        Seq::<ErrorKind>::empty()
    };
    reserved + unsupported
}

impl Flags {
    /// Every field fits its width, the reserved bits are zero, and the
    /// response code is the one that the operation code calls for.
    pub open spec fn wf(self) -> bool {
        &&& self.qr <= 1
        &&& self.opcode <= 15
        &&& self.aa <= 1
        &&& self.tc <= 1
        &&& self.rd <= 1
        &&& self.ra <= 1
        &&& self.z == 0
        &&& self.rcode == rcode_for(self.opcode)
    }

    /// Marks the flags as those of a response. Nothing else changes.
    pub fn set_response_flag(&mut self)
        ensures
            *final(self) == (Flags { qr: 1, ..*old(self) }),
    {
        self.qr = 1;
    }

    /// Packs the fields into their two octets. A value wider than its
    /// field counts by its low bits only; the reserved bits come out zero.
    pub fn to_be_bytes(&self) -> (r: [u8; 2])
        ensures
            r@ == pack(*self),
    {
        let qr: u8 = self.qr;
        let opcode: u8 = self.opcode;
        let aa: u8 = self.aa;
        let tc: u8 = self.tc;
        let rd: u8 = self.rd;
        let ra: u8 = self.ra;
        let rcode: u8 = self.rcode;
        let hi: u8 = (qr & 1) << 7 | (opcode & 0x0f) << 3 | (aa & 1) << 2 | (tc & 1) << 1 | (rd & 1);
        let lo: u8 = (ra & 1) << 7 | (rcode & 0x0f);
        assert(hi == (qr % 2) * 128 + (opcode % 16) * 8 + (aa % 2) * 4 + (tc % 2) * 2 + (rd % 2))
            by (bit_vector)
            requires
                hi == (qr & 1) << 7 | (opcode & 0x0f) << 3 | (aa & 1) << 2 | (tc & 1) << 1 | (rd
                    & 1),
        ;
        assert(lo == (ra % 2) * 128 + (rcode % 16)) by (bit_vector)
            requires
                lo == (ra & 1) << 7 | (rcode & 0x0f),
        ;
        let r: [u8; 2] = [hi, lo];
        assert(r@ =~= pack(*self));
        r
    }

    /// Unpacks two octets into the fields, each from its own bits. The
    /// reserved bits and the response code are taken as they stand.
    pub fn from_be_bytes(bytes: [u8; 2]) -> (r: Flags)
        ensures
            r == unpack(bytes@[0], bytes@[1]),
    {
        let hi: u8 = bytes[0];
        let lo: u8 = bytes[1];
        let r = Flags {
            qr: hi >> 7,
            opcode: (hi >> 3) & 0x0f,
            aa: (hi >> 2) & 1,
            tc: (hi >> 1) & 1,
            rd: hi & 1,
            ra: lo >> 7,
            z: (lo >> 4) & 0x07,
            rcode: lo & 0x0f,
        };
        assert(hi >> 7 == hi / 128 && (hi >> 3) & 0x0f == hi / 8 % 16 && (hi >> 2) & 1 == hi / 4
            % 2 && (hi >> 1) & 1 == hi / 2 % 2 && hi & 1 == hi % 2) by (bit_vector);
        assert(lo >> 7 == lo / 128 && (lo >> 4) & 0x07 == lo / 16 % 8 && lo & 0x0f == lo % 16)
            by (bit_vector);
        r
    }

    /// The flags that decoding makes of two octets: the fields as
    /// unpacked, but with the reserved bits cleared and the response code
    /// set from the operation code.
    pub fn decode(hi: u8, lo: u8) -> (r: Flags)
        ensures
            r == decoded(hi, lo),
            r.wf(),
    {
        let raw = Flags::from_be_bytes([hi, lo]);
        let rcode: u8 = if raw.opcode == 0 {
            0
        } else {
            4
        };
        Flags { z: 0, rcode, ..raw }
    }
}

/// What decoding these two flag octets remarks on without failing.
pub fn flag_remarks(hi: u8, lo: u8) -> (r: Vec<ErrorKind>)
    ensures
        r@ == remarks(hi, lo),
{
    let raw = Flags::from_be_bytes([hi, lo]);
    let mut r: Vec<ErrorKind> = Vec::new();
    if raw.z != 0 {
        r.push(ErrorKind::ReservedBitsViolation);
    }
    if raw.opcode != 0 {
        r.push(ErrorKind::UnsupportedOperationCode);
    }
    assert(r@ =~= remarks(hi, lo));
    r
}

/// Unpacking and packing again gives back both octets, but for the
/// reserved bits of the second, which come back as zero.
pub proof fn lemma_pack_unpack(hi: u8, lo: u8)
    ensures
        pack(unpack(hi, lo)) == seq![hi, lo & 0x8f],
{
    let f = unpack(hi, lo);
    assert(pack_high(f) == hi) by {
        assert((hi / 128 % 2) * 128 + (hi / 8 % 16 % 16) * 8 + (hi / 4 % 2 % 2) * 4 + (hi / 2 % 2
            % 2) * 2 + (hi % 2 % 2) == hi) by (bit_vector);
    }
    assert(pack_low(f) == lo & 0x8f) by {
        assert((lo / 128 % 2) * 128 + (lo % 16 % 16) == lo & 0x8f) by (bit_vector);
    }
    assert(pack(f) =~= seq![hi, lo & 0x8f]);
}

/// Packing what was unpacked and packed once changes nothing more.
pub proof fn lemma_pack_unpack_idempotent(hi: u8, lo: u8)
    ensures
        pack(unpack(pack(unpack(hi, lo))[0], pack(unpack(hi, lo))[1])) == pack(unpack(hi, lo)),
{
    lemma_pack_unpack(hi, lo);
    lemma_pack_unpack(hi, lo & 0x8f);
    assert((lo & 0x8f) & 0x8f == lo & 0x8f) by (bit_vector);
}

/// The fields are independent: what is unpacked from the packed form of
/// any flags is each field by its own low bits, whatever the other fields
/// held, and zero for the reserved bits.
pub proof fn lemma_unpack_pack(f: Flags)
    ensures
        unpack(pack(f)[0], pack(f)[1]) == masked(f),
{
    let (qr, opcode, aa, tc, rd) = (f.qr, f.opcode, f.aa, f.tc, f.rd);
    let (ra, rcode) = (f.ra, f.rcode);
    let hi = pack_high(f);
    let lo = pack_low(f);
    assert(hi / 128 == qr % 2 && hi / 8 % 16 == opcode % 16 && hi / 4 % 2 == aa % 2 && hi / 2 % 2
        == tc % 2 && hi % 2 == rd % 2) by (bit_vector)
        requires
            hi == (qr % 2) * 128 + (opcode % 16) * 8 + (aa % 2) * 4 + (tc % 2) * 2 + (rd % 2),
    ;
    assert(lo / 128 == ra % 2 && lo / 16 % 8 == 0 && lo % 16 == rcode % 16) by (bit_vector)
        requires
            lo == (ra % 2) * 128 + (rcode % 16),
    ;
}

/// Well-formed flags come back from their packed form unchanged.
pub proof fn lemma_flags_round_trip(f: Flags)
    requires
        f.wf(),
    ensures
        decoded(pack(f)[0], pack(f)[1]) == f,
{
    lemma_unpack_pack(f);
}

} // verus!
