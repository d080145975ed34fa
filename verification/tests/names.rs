use dns_codec::{DomainName, ErrorKind, MalformedMessage, Stage};

fn name(labels: &[&[u8]]) -> DomainName {
    DomainName::new(labels.iter().map(|l| l.to_vec()).collect()).unwrap()
}

fn fault(kind: ErrorKind, offset: usize) -> MalformedMessage {
    MalformedMessage { kind, stage: Stage::Question, offset }
}

#[test]
fn a_name_is_written_as_length_prefixed_labels() {
    let n = name(&[b"example", b"com"]);
    assert_eq!(n.to_vec(), b"\x07example\x03com\x00".to_vec());
    assert_eq!(n.to_vec().len(), 13);
}

#[test]
fn the_root_name_is_one_zero_octet() {
    assert_eq!(DomainName::root().to_vec(), vec![0u8]);
    assert_eq!(DomainName::root().labels().len(), 0);
    assert_eq!(DomainName::decode(&[0], 0, Stage::Question), Ok((DomainName::root(), 1)));
}

#[test]
fn label_round_trip_without_compression() {
    let n = name(&[b"example", b"com"]);
    let wire = n.to_vec();
    let (back, end) = DomainName::decode(&wire, 0, Stage::Question).unwrap();
    assert_eq!(back.labels(), &vec![b"example".to_vec(), b"com".to_vec()]);
    assert_eq!(back, n);
    assert_eq!(end, 1 + 7 + 1 + 3 + 1);
}

#[test]
fn a_name_reads_back_from_the_middle_of_a_buffer() {
    let n = name(&[b"a", b"bc", b"def"]);
    let mut buf = vec![0xc0u8, 0xff, 0x40];
    buf.extend_from_slice(&n.to_vec());
    buf.extend_from_slice(&[0xc0, 0x00]);
    let (back, end) = DomainName::decode(&buf, 3, Stage::Answer).unwrap();
    assert_eq!(back, n);
    assert_eq!(end, 3 + 10);
}

#[test]
fn labels_may_hold_any_byte() {
    let n = name(&[&[0u8, 0xc0, 0xff], &[0x40]]);
    let wire = n.to_vec();
    assert_eq!(wire, vec![3, 0, 0xc0, 0xff, 1, 0x40, 0]);
    assert_eq!(DomainName::decode(&wire, 0, Stage::Question), Ok((n, 7)));
}

#[test]
fn labels_of_63_bytes_are_the_longest() {
    let long = vec![b'x'; 63];
    let n = DomainName::new(vec![long.clone()]).unwrap();
    let wire = n.to_vec();
    assert_eq!(wire.len(), 65);
    assert_eq!(wire[0], 63);
    assert_eq!(DomainName::decode(&wire, 0, Stage::Question), Ok((n, 65)));
    assert_eq!(DomainName::new(vec![vec![b'x'; 64]]), None);
    assert_eq!(DomainName::new(vec![b"ok".to_vec(), Vec::new()]), None);
    assert_eq!(DomainName::new(vec![Vec::new()]), None);
    assert_eq!(DomainName::new(Vec::new()), Some(DomainName::root()));
}

#[test]
fn a_clone_is_equal() {
    let n = name(&[b"example", b"com"]);
    assert_eq!(n.clone(), n);
    assert_ne!(n, name(&[b"Example", b"com"]));
    assert_ne!(n, name(&[b"example"]));
}

#[test]
fn compression_pointer_resolution() {
    let mut buf = vec![0u8; 27];
    buf[12..21].copy_from_slice(b"\x07example\x00");
    buf[25] = 0xc0;
    buf[26] = 0x0c;
    let (n, end) = DomainName::decode(&buf, 25, Stage::Answer).unwrap();
    assert_eq!(n.labels(), &vec![b"example".to_vec()]);
    assert_eq!(end, 25 + 2);
}

#[test]
fn labels_before_a_pointer_are_joined_with_its_target() {
    // 12: example.com, 25: www followed by a pointer to 12.
    let mut buf = vec![0u8; 12];
    buf.extend_from_slice(b"\x07example\x03com\x00");
    assert_eq!(buf.len(), 25);
    buf.extend_from_slice(b"\x03www\xc0\x0c");
    buf.extend_from_slice(&[0xaa, 0xbb]);
    let (n, end) = DomainName::decode(&buf, 25, Stage::Answer).unwrap();
    assert_eq!(n, name(&[b"www", b"example", b"com"]));
    assert_eq!(end, 31);
}

#[test]
fn a_pointer_may_lead_to_another_pointer() {
    // 0: "com", 5: "example" + pointer to 0, 15: "www" + pointer to 5.
    let mut buf = b"\x03com\x00".to_vec();
    buf.extend_from_slice(b"\x07example\xc0\x00");
    buf.extend_from_slice(b"\x03www\xc0\x05");
    let (n, end) = DomainName::decode(&buf, 15, Stage::Answer).unwrap();
    assert_eq!(n, name(&[b"www", b"example", b"com"]));
    assert_eq!(end, 21);
    let (m, end) = DomainName::decode(&buf, 5, Stage::Answer).unwrap();
    assert_eq!(m, name(&[b"example", b"com"]));
    assert_eq!(end, 15);
}

#[test]
fn the_pointer_uses_all_fourteen_bits() {
    let mut buf = vec![0u8; 0x0305];
    buf[0x0300] = 1;
    buf[0x0301] = b'a';
    buf[0x0302] = 0;
    buf[0x0303] = 0xc3;
    buf[0x0304] = 0x00;
    let (n, end) = DomainName::decode(&buf, 0x0303, Stage::Question).unwrap();
    assert_eq!(n, name(&[b"a"]));
    assert_eq!(end, 0x0305);
}

#[test]
fn forward_pointer_rejection() {
    let mut buf = vec![0u8; 60];
    buf[10] = 0xc0;
    buf[11] = 50;
    buf[50] = 0;
    assert_eq!(
        DomainName::decode(&buf, 10, Stage::Question),
        Err(fault(ErrorKind::InvalidPointer, 10))
    );
}

#[test]
fn a_pointer_to_itself_is_rejected() {
    let mut buf = vec![0u8; 12];
    buf[10] = 0xc0;
    buf[11] = 10;
    assert_eq!(
        DomainName::decode(&buf, 10, Stage::Question),
        Err(fault(ErrorKind::InvalidPointer, 10))
    );
}

#[test]
fn a_pointer_beyond_the_buffer_is_rejected() {
    let buf = [0u8, 0xff, 0xff];
    assert_eq!(
        DomainName::decode(&buf, 1, Stage::Question),
        Err(fault(ErrorKind::InvalidPointer, 1))
    );
}

#[test]
fn a_loop_of_backward_pointers_ends_in_a_fault() {
    // 0: a label of three bytes, 4: a pointer back to 0. Each pointer points
    // backward, yet the name never ends.
    let buf = b"\x03abc\xc0\x00".to_vec();
    assert_eq!(
        DomainName::decode(&buf, 0, Stage::Question),
        Err(fault(ErrorKind::InvalidPointer, 0))
    );
    assert_eq!(
        DomainName::decode(&buf, 4, Stage::Question),
        Err(fault(ErrorKind::InvalidPointer, 0))
    );
}

#[test]
fn reserved_length_octets_are_rejected() {
    assert_eq!(
        DomainName::decode(&[0x40, 0, 0], 0, Stage::Question),
        Err(fault(ErrorKind::InvalidPointer, 0))
    );
    assert_eq!(
        DomainName::decode(&[0x01, b'a', 0x80, 0], 0, Stage::Question),
        Err(fault(ErrorKind::InvalidPointer, 2))
    );
    assert_eq!(
        DomainName::decode(&[0xbf, 0, 0], 0, Stage::Question),
        Err(fault(ErrorKind::InvalidPointer, 0))
    );
}

#[test]
fn a_name_without_its_end_is_truncated() {
    assert_eq!(
        DomainName::decode(&[], 0, Stage::Question),
        Err(fault(ErrorKind::Truncated, 0))
    );
    assert_eq!(
        DomainName::decode(b"\x03abc", 0, Stage::Question),
        Err(fault(ErrorKind::Truncated, 4))
    );
    assert_eq!(
        DomainName::decode(b"\x03abc\x00", 9, Stage::Question),
        Err(fault(ErrorKind::Truncated, 9))
    );
    assert_eq!(
        DomainName::decode(b"\x00\xc0", 1, Stage::Question),
        Err(fault(ErrorKind::Truncated, 1))
    );
}

#[test]
fn a_label_longer_than_the_buffer_is_reported_at_its_length_octet() {
    assert_eq!(
        DomainName::decode(b"\x01a\x05abcd", 0, Stage::Question),
        Err(fault(ErrorKind::DeclaredLengthExceedsBuffer, 2))
    );
    assert_eq!(
        DomainName::decode(b"\x3f", 0, Stage::Question),
        Err(fault(ErrorKind::DeclaredLengthExceedsBuffer, 0))
    );
}

#[test]
fn a_fault_carries_the_stage_it_was_given() {
    for stage in [Stage::Header, Stage::Question, Stage::Answer, Stage::Authority, Stage::Additional]
    {
        assert_eq!(
            DomainName::decode(&[], 0, stage),
            Err(MalformedMessage { kind: ErrorKind::Truncated, stage, offset: 0 })
        );
    }
}

#[test]
fn a_long_chain_of_pointers_is_followed_to_its_end() {
    // 0: the name "a". Then a hundred pointers, each to the one before it.
    let mut buf = b"\x01a\x00".to_vec();
    let mut previous = 0usize;
    for _ in 0..100 {
        let here = buf.len();
        buf.push(0xc0 | (previous >> 8) as u8);
        buf.push((previous & 0xff) as u8);
        previous = here;
    }
    let (n, end) = DomainName::decode(&buf, previous, Stage::Answer).unwrap();
    assert_eq!(n, name(&[b"a"]));
    assert_eq!(end, previous + 2);
}

#[test]
fn a_name_may_not_read_more_label_bytes_than_the_buffer_holds() {
    // 0: a label of 60 bytes. Its data holds, at 1, a label of 58 bytes and,
    // at 60, the end of a name. 61: a pointer to 1. Read from 0, the name
    // never comes by the same offset twice, but it would take 61 label bytes
    // at 0 and 59 more at 1, and the buffer has 63.
    let mut buf = vec![60u8, 58];
    buf.extend_from_slice(&[b'x'; 58]);
    buf.push(0);
    buf.extend_from_slice(&[0xc0, 0x01]);
    assert_eq!(buf.len(), 63);
    assert_eq!(
        DomainName::decode(&buf, 1, Stage::Question),
        Ok((name(&[&[b'x'; 58]]), 61))
    );
    assert_eq!(
        DomainName::decode(&buf, 61, Stage::Question),
        Ok((name(&[&[b'x'; 58]]), 63))
    );
    assert_eq!(
        DomainName::decode(&buf, 0, Stage::Question),
        Err(fault(ErrorKind::InvalidPointer, 1))
    );
}
