use dns_codec::flags::flag_remarks;
use dns_codec::{ErrorKind, Flags};

fn plain() -> Flags {
    Flags { qr: 0, opcode: 0, aa: 0, tc: 0, rd: 0, ra: 0, z: 0, rcode: 0 }
}

#[test]
fn packs_each_field_into_its_own_bits() {
    let f = Flags { qr: 1, opcode: 2, aa: 1, tc: 0, rd: 1, ra: 1, z: 0, rcode: 4 };
    assert_eq!(f.to_be_bytes(), [0b1001_0101, 0b1000_0100]);
}

#[test]
fn packs_single_fields() {
    assert_eq!(Flags { qr: 1, ..plain() }.to_be_bytes(), [0x80, 0x00]);
    assert_eq!(Flags { opcode: 15, ..plain() }.to_be_bytes(), [0x78, 0x00]);
    assert_eq!(Flags { aa: 1, ..plain() }.to_be_bytes(), [0x04, 0x00]);
    assert_eq!(Flags { tc: 1, ..plain() }.to_be_bytes(), [0x02, 0x00]);
    assert_eq!(Flags { rd: 1, ..plain() }.to_be_bytes(), [0x01, 0x00]);
    assert_eq!(Flags { ra: 1, ..plain() }.to_be_bytes(), [0x00, 0x80]);
    assert_eq!(Flags { rcode: 15, ..plain() }.to_be_bytes(), [0x00, 0x0f]);
}

#[test]
fn reserved_bits_are_never_written() {
    assert_eq!(Flags { z: 7, ..plain() }.to_be_bytes(), [0x00, 0x00]);
    assert_eq!(Flags { z: 255, ra: 1, rcode: 4, ..plain() }.to_be_bytes(), [0x00, 0x84]);
}

#[test]
fn a_field_that_is_too_wide_does_not_reach_its_neighbours() {
    // Added up, rd = 3 would carry into tc, and tc = 3 into aa.
    assert_eq!(Flags { rd: 3, ..plain() }.to_be_bytes(), [0x01, 0x00]);
    assert_eq!(Flags { tc: 3, ..plain() }.to_be_bytes(), [0x02, 0x00]);
    assert_eq!(Flags { opcode: 0x1f, ..plain() }.to_be_bytes(), [0x78, 0x00]);
    assert_eq!(Flags { rcode: 0x1f, ..plain() }.to_be_bytes(), [0x00, 0x0f]);
    assert_eq!(Flags { qr: 2, ..plain() }.to_be_bytes(), [0x00, 0x00]);
}

#[test]
fn unpacks_each_field_from_its_own_bits() {
    let f = Flags::from_be_bytes([0b1001_0101, 0b1111_0100]);
    assert_eq!(f, Flags { qr: 1, opcode: 2, aa: 1, tc: 0, rd: 1, ra: 1, z: 7, rcode: 4 });
    let g = Flags::from_be_bytes([0x7a, 0x0f]);
    assert_eq!(g, Flags { qr: 0, opcode: 15, aa: 0, tc: 1, rd: 0, ra: 0, z: 0, rcode: 15 });
}

#[test]
fn packing_what_was_unpacked_gives_the_bytes_back_without_reserved_bits() {
    for hi in 0..=255u8 {
        for lo in 0..=255u8 {
            let packed = Flags::from_be_bytes([hi, lo]).to_be_bytes();
            assert_eq!(packed, [hi, lo & 0x8f]);
            let again = Flags::from_be_bytes(packed).to_be_bytes();
            assert_eq!(again, packed);
        }
    }
}

#[test]
fn decoding_clears_reserved_bits_and_derives_the_response_code() {
    // Standard query, reserved bits set, response code 3 on the wire.
    let f = Flags::decode(0x01, 0x73);
    assert_eq!(f, Flags { qr: 0, opcode: 0, aa: 0, tc: 0, rd: 1, ra: 0, z: 0, rcode: 0 });
    // Operation code 2: the response code becomes "not implemented".
    let g = Flags::decode(0x10, 0x00);
    assert_eq!(g, Flags { qr: 0, opcode: 2, aa: 0, tc: 0, rd: 0, ra: 0, z: 0, rcode: 4 });
}

#[test]
fn well_formed_flags_survive_packing_and_decoding() {
    for opcode in 0..16u8 {
        for bits in 0..32u8 {
            let f = Flags {
                qr: bits & 1,
                opcode,
                aa: (bits >> 1) & 1,
                tc: (bits >> 2) & 1,
                rd: (bits >> 3) & 1,
                ra: (bits >> 4) & 1,
                z: 0,
                rcode: if opcode == 0 { 0 } else { 4 },
            };
            let b = f.to_be_bytes();
            assert_eq!(Flags::decode(b[0], b[1]), f);
        }
    }
}

#[test]
fn set_response_flag_touches_only_the_indicator() {
    let mut f = Flags { qr: 0, opcode: 3, aa: 1, tc: 0, rd: 1, ra: 0, z: 0, rcode: 4 };
    f.set_response_flag();
    assert_eq!(f, Flags { qr: 1, opcode: 3, aa: 1, tc: 0, rd: 1, ra: 0, z: 0, rcode: 4 });
    f.set_response_flag();
    assert_eq!(f.qr, 1);
    assert_eq!(f.to_be_bytes()[0] & 0x80, 0x80);
}

#[test]
fn remarks_name_reserved_bits_and_unsupported_operation_codes() {
    assert_eq!(flag_remarks(0x01, 0x00), Vec::<ErrorKind>::new());
    assert_eq!(flag_remarks(0x00, 0x10), vec![ErrorKind::ReservedBitsViolation]);
    assert_eq!(flag_remarks(0x08, 0x00), vec![ErrorKind::UnsupportedOperationCode]);
    assert_eq!(
        flag_remarks(0x28, 0x70),
        vec![ErrorKind::ReservedBitsViolation, ErrorKind::UnsupportedOperationCode]
    );
}
