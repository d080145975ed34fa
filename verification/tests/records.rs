use dns_codec::parser::{parse_answer, parse_answers};
use dns_codec::{
    parse_question, parse_questions, Answer, DomainName, ErrorKind, MalformedMessage, Question,
    Stage,
};

fn name(labels: &[&[u8]]) -> DomainName {
    DomainName::new(labels.iter().map(|l| l.to_vec()).collect()).unwrap()
}

fn question() -> Question {
    Question { qname: name(&[b"example", b"com"]), qtype: 1, qclass: 0x0102 }
}

fn answer() -> Answer {
    Answer {
        aname: name(&[b"a", b"b"]),
        atype: 16,
        aclass: 1,
        ttl: 0x0102_0304,
        rdlenth: 5,
        rdata: b"hello".to_vec(),
    }
}

#[test]
fn a_question_is_name_type_class() {
    assert_eq!(question().to_vec(), b"\x07example\x03com\x00\x00\x01\x01\x02".to_vec());
}

#[test]
fn a_question_reads_back() {
    let mut buf = vec![0xeeu8; 5];
    buf.extend_from_slice(&question().to_vec());
    buf.push(0xee);
    assert_eq!(parse_question(&buf, 5), Ok((question(), 5 + 17)));
}

#[test]
fn a_question_needs_four_bytes_after_its_name() {
    let wire = question().to_vec();
    for len in 13..17 {
        assert_eq!(
            parse_question(&wire[..len], 0),
            Err(MalformedMessage {
                kind: ErrorKind::Truncated,
                stage: Stage::Question,
                offset: 13
            })
        );
    }
    assert_eq!(
        parse_question(&wire[..12], 0),
        Err(MalformedMessage { kind: ErrorKind::Truncated, stage: Stage::Question, offset: 12 })
    );
}

#[test]
fn a_question_may_end_in_a_pointer() {
    let mut buf = b"\x03com\x00".to_vec();
    buf.extend_from_slice(b"\x07example\xc0\x00\x00\x1c\x00\x01");
    let (q, end) = parse_question(&buf, 5).unwrap();
    assert_eq!(q, Question { qname: name(&[b"example", b"com"]), qtype: 28, qclass: 1 });
    assert_eq!(end, 19);
}

#[test]
fn exactly_the_counted_questions_are_read() {
    let mut buf = question().to_vec();
    buf.extend_from_slice(b"\x01x\x00\x00\x02\x00\x03");
    let second = Question { qname: name(&[b"x"]), qtype: 2, qclass: 3 };
    assert_eq!(parse_questions(&buf, 0, 0), Ok((Vec::new(), 0)));
    assert_eq!(parse_questions(&buf, 0, 1), Ok((vec![question()], 17)));
    assert_eq!(parse_questions(&buf, 0, 2), Ok((vec![question(), second], 24)));
    assert_eq!(
        parse_questions(&buf, 0, 3),
        Err(MalformedMessage { kind: ErrorKind::Truncated, stage: Stage::Question, offset: 24 })
    );
}

#[test]
fn a_record_is_name_type_class_ttl_length_data() {
    assert_eq!(
        answer().to_vec(),
        Ok(b"\x01a\x01b\x00\x00\x10\x00\x01\x01\x02\x03\x04\x00\x05hello".to_vec())
    );
}

#[test]
fn the_length_written_is_that_of_the_data() {
    let stale = Answer { rdlenth: 999, ..answer() };
    assert_eq!(stale.to_vec(), answer().to_vec());
    let empty = Answer { rdlenth: 7, rdata: Vec::new(), ..answer() };
    assert_eq!(empty.to_vec(), Ok(b"\x01a\x01b\x00\x00\x10\x00\x01\x01\x02\x03\x04\x00\x00".to_vec()));
}

#[test]
fn a_record_reads_back() {
    let mut buf = vec![0u8; 3];
    buf.extend_from_slice(&answer().to_vec().unwrap());
    buf.extend_from_slice(&[1, 2, 3]);
    assert_eq!(parse_answer(&buf, 3, Stage::Answer), Ok((answer(), 3 + 20)));
}

#[test]
fn the_longest_record_data_is_65535_bytes() {
    let big = Answer { rdlenth: 65535, rdata: vec![0xab; 65535], ..answer() };
    let wire = big.clone().to_vec().unwrap();
    assert_eq!(wire.len(), 5 + 10 + 65535);
    assert_eq!(&wire[13..15], &[0xff, 0xff]);
    assert_eq!(parse_answer(&wire, 0, Stage::Answer), Ok((big, wire.len())));
}

#[test]
fn record_data_of_65536_bytes_is_too_large() {
    let big = Answer { rdata: vec![0; 65536], ..answer() };
    assert_eq!(big.to_vec(), Err(ErrorKind::RecordTooLarge));
    let mut out = vec![1u8, 2, 3];
    let big = Answer { rdata: vec![0; 70000], ..answer() };
    assert_eq!(big.encode_into(&mut out), Err(ErrorKind::RecordTooLarge));
    assert_eq!(out, vec![1, 2, 3]);
}

#[test]
fn a_record_needs_ten_bytes_after_its_name() {
    let wire = answer().to_vec().unwrap();
    for len in 5..15 {
        assert_eq!(
            parse_answer(&wire[..len], 0, Stage::Authority),
            Err(MalformedMessage {
                kind: ErrorKind::Truncated,
                stage: Stage::Authority,
                offset: 5
            })
        );
    }
}

#[test]
fn record_data_must_fit_the_buffer() {
    let wire = answer().to_vec().unwrap();
    for len in 15..20 {
        assert_eq!(
            parse_answer(&wire[..len], 0, Stage::Additional),
            Err(MalformedMessage {
                kind: ErrorKind::DeclaredLengthExceedsBuffer,
                stage: Stage::Additional,
                offset: 13
            })
        );
    }
    assert_eq!(parse_answer(&wire[..20], 0, Stage::Additional), Ok((answer(), 20)));
}

#[test]
fn exactly_the_counted_records_are_read() {
    let mut buf = answer().to_vec().unwrap();
    buf.extend_from_slice(&answer().to_vec().unwrap());
    assert_eq!(parse_answers(&buf, 0, 0, Stage::Answer), Ok((Vec::new(), 0)));
    assert_eq!(parse_answers(&buf, 20, 1, Stage::Answer), Ok((vec![answer()], 40)));
    assert_eq!(parse_answers(&buf, 0, 2, Stage::Answer), Ok((vec![answer(), answer()], 40)));
    assert_eq!(
        parse_answers(&buf, 0, 3, Stage::Answer),
        Err(MalformedMessage { kind: ErrorKind::Truncated, stage: Stage::Answer, offset: 40 })
    );
    assert_eq!(
        parse_answers(&buf[..39], 0, 2, Stage::Answer),
        Err(MalformedMessage {
            kind: ErrorKind::DeclaredLengthExceedsBuffer,
            stage: Stage::Answer,
            offset: 33
        })
    );
}

#[test]
fn the_fixed_answer_is_an_address_record() {
    let a = Answer::from(b"\x07example\x03com\x00\x00\x01\x00\x01").unwrap();
    assert_eq!(
        a,
        Answer {
            aname: name(&[b"example", b"com"]),
            atype: 1,
            aclass: 1,
            ttl: 255,
            rdlenth: 4,
            rdata: vec![8, 8, 8, 8],
        }
    );
    assert_eq!(
        a.to_vec(),
        Ok(b"\x07example\x03com\x00\x00\x01\x00\x01\x00\x00\x00\xff\x00\x04\x08\x08\x08\x08"
            .to_vec())
    );
}

#[test]
fn the_fixed_answer_needs_a_name() {
    assert_eq!(
        Answer::from(b"\x07exam"),
        Err(MalformedMessage {
            kind: ErrorKind::DeclaredLengthExceedsBuffer,
            stage: Stage::Answer,
            offset: 0
        })
    );
    assert_eq!(
        Answer::from(b""),
        Err(MalformedMessage { kind: ErrorKind::Truncated, stage: Stage::Answer, offset: 0 })
    );
    assert_eq!(Answer::from(&[0]).unwrap().aname, DomainName::root());
}

#[test]
fn questions_differ_by_any_field() {
    assert_eq!(question(), question().clone());
    assert_ne!(question(), Question { qname: name(&[b"example"]), ..question() });
    assert_ne!(question(), Question { qtype: 2, ..question() });
    assert_ne!(question(), Question { qclass: 1, ..question() });
}

#[test]
fn records_differ_by_any_field() {
    assert_eq!(answer(), answer().clone());
    assert_ne!(answer(), Answer { aname: name(&[b"a", b"c"]), ..answer() });
    assert_ne!(answer(), Answer { atype: 1, ..answer() });
    assert_ne!(answer(), Answer { aclass: 3, ..answer() });
    assert_ne!(answer(), Answer { ttl: 0, ..answer() });
    assert_ne!(answer(), Answer { rdlenth: 4, ..answer() });
    assert_ne!(answer(), Answer { rdata: b"hellp".to_vec(), ..answer() });
    assert_ne!(answer(), Answer { rdata: b"hell".to_vec(), ..answer() });
}
