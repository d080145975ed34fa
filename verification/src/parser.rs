//! Decoding: from the bytes of a buffer to the parts of a message.
//!
//! Every function takes the whole buffer and, where the part does not
//! start the buffer, the offset at which to read; it returns what it read
//! with the offset just past it. Nothing is kept between calls.
//!
//! How long a datagram may be is tested where a whole one comes in, by
//! `parse_message`. The functions for the parts read any buffer that they
//! are handed, so that a record with all the data its length field can
//! state is still a record.

use vstd::prelude::*;
use vstd::slice::{slice_subrange, slice_to_vec};
use crate::error::{ErrorKind, Fault, MalformedMessage, Stage, malformed};
use crate::flags::{Flags, decoded};
use crate::header::{HEADER_LEN, Header, header_at};
use crate::message::{
    MAX_PAYLOAD, Message, answer_views, answers_at, datagram_at, question_views, questions_at,
    resumed_run, valid_message,
};
use crate::name::DomainName;
use crate::record::{
    Answer, Question, answer_at, question_at, valid_answer, valid_question,
};
use crate::wire::{read_u16, read_u32};

verus! {

/// The flags that `buf` starts with, and the offset just past them.
pub open spec fn flags_at(buf: Seq<u8>) -> Result<(Flags, int), Fault> {
    if buf.len() < 2 {
        Err((ErrorKind::Truncated, 0))
    } else {
        Ok((decoded(buf[0], buf[1]), 2))
    }
}

/// Decodes the two flag octets that `input` starts with. Set reserved
/// bits are cleared, and the response code is set from the operation
/// code: neither fails the decoding.
pub fn parse_flags(input: &[u8]) -> (r: Result<(Flags, usize), MalformedMessage>)
    ensures
        match flags_at(input@) {
            Ok((flags, end)) => r == Ok::<(Flags, usize), MalformedMessage>((flags, end as usize))
                && flags.wf(),
            Err(fault) => r == Err::<(Flags, usize), MalformedMessage>(
                malformed(fault, Stage::Header),
            ),
        },
{
    if input.len() < 2 {
        return Err(MalformedMessage { kind: ErrorKind::Truncated, stage: Stage::Header, offset: 0 });
    }
    Ok((Flags::decode(input[0], input[1]), 2))
}

/// Decodes the header that `input` starts with.
pub fn parse_header(input: &[u8]) -> (r: Result<(Header, usize), MalformedMessage>)
    ensures
        match header_at(input@) {
            Ok((header, end)) => r == Ok::<(Header, usize), MalformedMessage>(
                (header, end as usize),
            ) && header.flags.wf(),
            Err(fault) => r == Err::<(Header, usize), MalformedMessage>(
                malformed(fault, Stage::Header),
            ),
        },
{
    if input.len() < HEADER_LEN {
        return Err(MalformedMessage { kind: ErrorKind::Truncated, stage: Stage::Header, offset: 0 });
    }
    let id = read_u16(input, 0).unwrap();
    let flags = Flags::decode(input[2], input[3]);
    let qdcount = read_u16(input, 4).unwrap();
    let ancount = read_u16(input, 6).unwrap();
    let nscount = read_u16(input, 8).unwrap();
    let arcount = read_u16(input, 10).unwrap();
    Ok((Header { id, flags, qdcount, ancount, nscount, arcount }, HEADER_LEN))
}

/// Decodes the question that `buf` holds at `at`.
pub fn parse_question(buf: &[u8], at: usize) -> (r: Result<(Question, usize), MalformedMessage>)
    ensures
        match question_at(buf@, at as int) {
            Ok((q, end)) => r matches Ok(found) && found.0@ == q && found.1 == end && end
                <= buf@.len() && valid_question(q),
            Err(fault) => r == Err::<(Question, usize), MalformedMessage>(
                malformed(fault, Stage::Question),
            ),
        },
{
    let (qname, end) = DomainName::decode(buf, at, Stage::Question)?;
    if buf.len() - end < 4 {
        return Err(
            MalformedMessage { kind: ErrorKind::Truncated, stage: Stage::Question, offset: end },
        );
    }
    let qtype = read_u16(buf, end).unwrap();
    let qclass = read_u16(buf, end + 2).unwrap();
    Ok((Question { qname, qtype, qclass }, end + 4))
}

/// Decodes the record that `buf` holds at `at`. A failure carries
/// `stage`, the section that the record belongs to.
pub fn parse_answer(buf: &[u8], at: usize, stage: Stage) -> (r: Result<
    (Answer, usize),
    MalformedMessage,
>)
    ensures
        match answer_at(buf@, at as int) {
            Ok((a, end)) => r matches Ok(found) && found.0@ == a && found.1 == end && end
                <= buf@.len() && valid_answer(a),
            Err(fault) => r == Err::<(Answer, usize), MalformedMessage>(malformed(fault, stage)),
        },
{
    let (aname, end) = DomainName::decode(buf, at, stage)?;
    if buf.len() - end < 10 {
        return Err(MalformedMessage { kind: ErrorKind::Truncated, stage, offset: end });
    }
    let atype = read_u16(buf, end).unwrap();
    let aclass = read_u16(buf, end + 2).unwrap();
    let ttl = read_u32(buf, end + 4).unwrap();
    let rdlenth = read_u16(buf, end + 8).unwrap();
    let start = end + 10;
    if buf.len() - start < rdlenth as usize {
        return Err(
            MalformedMessage {
                kind: ErrorKind::DeclaredLengthExceedsBuffer,
                stage,
                offset: end + 8,
            },
        );
    }
    let stop = start + rdlenth as usize;
    let rdata = slice_to_vec(slice_subrange(buf, start, stop));
    Ok((Answer { aname, atype, aclass, ttl, rdlenth, rdata }, stop))
}

/// Decodes exactly `count` questions, the first at `at` and each next one
/// where the one before ended. If any of them cannot be decoded, none is
/// returned.
pub fn parse_questions(buf: &[u8], at: usize, count: u16) -> (r: Result<
    (Vec<Question>, usize),
    MalformedMessage,
>)
    ensures
        match questions_at(buf@, at as int, count as nat) {
            Ok((qs, end)) => r matches Ok(found) && question_views(found.0@) == qs && found.1
                == end && qs.len() == count && (forall|i: int|
                0 <= i < qs.len() ==> valid_question(#[trigger] qs[i])),
            Err(fault) => r == Err::<(Vec<Question>, usize), MalformedMessage>(
                malformed(fault, Stage::Question),
            ),
        },
{
    let ghost whole = questions_at(buf@, at as int, count as nat);
    let mut found: Vec<Question> = Vec::new();
    let mut cursor: usize = at;
    let mut i: u16 = 0;
    while i < count
        invariant
            i <= count,
            question_views(found@).len() == i,
            forall|j: int|
                0 <= j < i ==> valid_question(#[trigger] question_views(found@)[j]),
            whole == questions_at(buf@, at as int, count as nat),
            whole == resumed_run(
                question_views(found@),
                questions_at(buf@, cursor as int, (count - i) as nat),
            ),
        decreases count - i,
    {
        let ghost done = question_views(found@);
        match parse_question(buf, cursor) {
            Err(e) => {
                return Err(e);
            },
            Ok((q, next)) => {
                proof {
                    match questions_at(buf@, next as int, (count - i - 1) as nat) {
                        Ok((rest, _)) => {
                            assert(done + (seq![q@] + rest) =~= done.push(q@) + rest);
                        },
                        Err(_) => {},
                    }
                }
                found.push(q);
                assert(question_views(found@) =~= done.push(q@));
                cursor = next;
                i += 1;
            },
        }
    }
    Ok((found, cursor))
}

/// Decodes exactly `count` records, the first at `at` and each next one
/// where the one before ended. If any of them cannot be decoded, none is
/// returned. A failure carries `stage`.
pub fn parse_answers(buf: &[u8], at: usize, count: u16, stage: Stage) -> (r: Result<
    (Vec<Answer>, usize),
    MalformedMessage,
>)
    ensures
        match answers_at(buf@, at as int, count as nat) {
            Ok((rs, end)) => r matches Ok(found) && answer_views(found.0@) == rs && found.1 == end
                && rs.len() == count && (forall|i: int|
                0 <= i < rs.len() ==> valid_answer(#[trigger] rs[i])),
            Err(fault) => r == Err::<(Vec<Answer>, usize), MalformedMessage>(
                malformed(fault, stage),
            ),
        },
{
    let ghost whole = answers_at(buf@, at as int, count as nat);
    let mut found: Vec<Answer> = Vec::new();
    let mut cursor: usize = at;
    let mut i: u16 = 0;
    while i < count
        invariant
            i <= count,
            answer_views(found@).len() == i,
            forall|j: int| 0 <= j < i ==> valid_answer(#[trigger] answer_views(found@)[j]),
            whole == answers_at(buf@, at as int, count as nat),
            whole == resumed_run(
                answer_views(found@),
                answers_at(buf@, cursor as int, (count - i) as nat),
            ),
        decreases count - i,
    {
        let ghost done = answer_views(found@);
        match parse_answer(buf, cursor, stage) {
            Err(e) => {
                return Err(e);
            },
            Ok((a, next)) => {
                proof {
                    match answers_at(buf@, next as int, (count - i - 1) as nat) {
                        Ok((rest, _)) => {
                            assert(done + (seq![a@] + rest) =~= done.push(a@) + rest);
                        },
                        Err(_) => {},
                    }
                }
                found.push(a);
                assert(answer_views(found@) =~= done.push(a@));
                cursor = next;
                i += 1;
            },
        }
    }
    Ok((found, cursor))
}

/// Decodes the datagram `input`: the header, then each section with as
/// many entries as the header counts. The offset returned is that just
/// past the last entry. A datagram of more than `MAX_PAYLOAD` bytes is
/// refused before any of it is read.
pub fn parse_message(input: &[u8]) -> (r: Result<(Message, usize), MalformedMessage>)
    ensures
        match datagram_at(input@) {
            Ok((m, end)) => r matches Ok(found) && found.0@ == m && found.1 == end
                && valid_message(m),
            Err(e) => r == Err::<(Message, usize), MalformedMessage>(e),
        },
{
    if input.len() > MAX_PAYLOAD {
        return Err(
            MalformedMessage {
                kind: ErrorKind::PayloadTooLarge,
                stage: Stage::Header,
                offset: MAX_PAYLOAD,
            },
        );
    }
    let (header, a0) = parse_header(input)?;
    let (questions, a1) = parse_questions(input, a0, header.qdcount)?;
    let (answers, a2) = parse_answers(input, a1, header.ancount, Stage::Answer)?;
    let (authorities, a3) = parse_answers(input, a2, header.nscount, Stage::Authority)?;
    let (additionals, a4) = parse_answers(input, a3, header.arcount, Stage::Additional)?;
    Ok((Message { header, questions, answers, authorities, additionals }, a4))
}

} // verus!
