//! Whole messages: the header, then the question, answer, authority and
//! additional sections, each entry after the other without padding.

use vstd::prelude::*;
use crate::error::{ErrorKind, Fault, MalformedMessage, Stage, malformed};
use crate::header::{Header, encode_header, header_at};
use crate::parser::parse_message;
use crate::record::{
    Answer, AnswerView, Question, QuestionView, U16_LIMIT, answer_at, encode_answer,
    encode_question, question_at, valid_answer, valid_question,
};

verus! {

/// The largest datagram that is decoded: the payload of the protocol
/// without extensions.
pub const MAX_PAYLOAD: usize = 512;

/// A message. The counts in `header` are those that were read, or that
/// `response` last wrote; encoding never trusts them.
#[derive(Debug, Eq)]
pub struct Message {
    pub header: Header,
    pub questions: Vec<Question>,
    pub answers: Vec<Answer>,
    pub authorities: Vec<Answer>,
    pub additionals: Vec<Answer>,
}

/// What a message holds.
pub struct MessageView {
    pub header: Header,
    pub questions: Seq<QuestionView>,
    pub answers: Seq<AnswerView>,
    pub authorities: Seq<AnswerView>,
    pub additionals: Seq<AnswerView>,
}

/// What a vector of questions holds.
pub open spec fn question_views(v: Seq<Question>) -> Seq<QuestionView> {
    Seq::new(v.len(), |i: int| v[i]@)
}

/// What a vector of records holds.
pub open spec fn answer_views(v: Seq<Answer>) -> Seq<AnswerView> {
    Seq::new(v.len(), |i: int| v[i]@)
}

impl View for Message {
    type V = MessageView;

    open spec fn view(&self) -> MessageView {
        MessageView {
            header: self.header,
            questions: question_views(self.questions@),
            answers: answer_views(self.answers@),
            authorities: answer_views(self.authorities@),
            additionals: answer_views(self.additionals@),
        }
    }
}

/// A copy of the questions.
fn copied_questions(v: &Vec<Question>) -> (r: Vec<Question>)
    ensures
        question_views(r@) == question_views(v@),
{
    let mut r: Vec<Question> = Vec::new();
    let mut i: usize = 0;
    while i < v.len()
        invariant
            i <= v@.len(),
            r@.len() == i,
            forall|j: int| 0 <= j < i ==> r@[j]@ == v@[j]@,
        decreases v@.len() - i,
    {
        r.push(v[i].clone());
        i += 1;
    }
    r
}

/// A copy of the records.
fn copied_answers(v: &Vec<Answer>) -> (r: Vec<Answer>)
    ensures
        answer_views(r@) == answer_views(v@),
{
    let mut r: Vec<Answer> = Vec::new();
    let mut i: usize = 0;
    while i < v.len()
        invariant
            i <= v@.len(),
            r@.len() == i,
            forall|j: int| 0 <= j < i ==> r@[j]@ == v@[j]@,
        decreases v@.len() - i,
    {
        r.push(v[i].clone());
        i += 1;
    }
    r
}

impl Clone for Message {
    fn clone(&self) -> (r: Message)
        ensures
            r@ == self@,
    {
        Message {
            header: self.header,
            questions: copied_questions(&self.questions),
            answers: copied_answers(&self.answers),
            authorities: copied_answers(&self.authorities),
            additionals: copied_answers(&self.additionals),
        }
    }
}

/// Whether two vectors hold equal questions in the same order.
fn same_questions(a: &Vec<Question>, b: &Vec<Question>) -> (r: bool)
    ensures
        r == (question_views(a@) == question_views(b@)),
{
    if a.len() != b.len() {
        assert(question_views(a@).len() != question_views(b@).len());
        return false;
    }
    let mut i: usize = 0;
    while i < a.len()
        invariant
            i <= a@.len(),
            a@.len() == b@.len(),
            forall|j: int| 0 <= j < i ==> a@[j]@ == b@[j]@,
        decreases a@.len() - i,
    {
        if a[i] != b[i] {
            assert(question_views(a@)[i as int] != question_views(b@)[i as int]);
            return false;
        }
        i += 1;
    }
    assert(question_views(a@) =~= question_views(b@));
    true
}

/// Whether two vectors hold equal records in the same order.
fn same_answers(a: &Vec<Answer>, b: &Vec<Answer>) -> (r: bool)
    ensures
        r == (answer_views(a@) == answer_views(b@)),
{
    if a.len() != b.len() {
        assert(answer_views(a@).len() != answer_views(b@).len());
        return false;
    }
    let mut i: usize = 0;
    while i < a.len()
        invariant
            i <= a@.len(),
            a@.len() == b@.len(),
            forall|j: int| 0 <= j < i ==> a@[j]@ == b@[j]@,
        decreases a@.len() - i,
    {
        if a[i] != b[i] {
            assert(answer_views(a@)[i as int] != answer_views(b@)[i as int]);
            return false;
        }
        i += 1;
    }
    assert(answer_views(a@) =~= answer_views(b@));
    true
}

impl PartialEq for Message {
    /// Two messages are equal when their headers are and their sections
    /// hold equal entries in the same order.
    fn eq(&self, other: &Message) -> (r: bool) {
        self.header == other.header && same_questions(&self.questions, &other.questions)
            && same_answers(&self.answers, &other.answers) && same_answers(
            &self.authorities,
            &other.authorities,
        ) && same_answers(&self.additionals, &other.additionals)
    }
}

impl vstd::std_specs::cmp::PartialEqSpecImpl for Message {
    open spec fn obeys_eq_spec() -> bool {
        true
    }

    open spec fn eq_spec(&self, other: &Message) -> bool {
        self@ == other@
    }
}

/// The wire forms of the questions, one after the other.
pub open spec fn encode_questions(qs: Seq<QuestionView>) -> Seq<u8>
    decreases qs.len(),
{
    if qs.len() == 0 {
        Seq::empty()
    } else {
        encode_question(qs[0]) + encode_questions(qs.drop_first())
    }
}

/// The wire forms of the records, one after the other.
pub open spec fn encode_answers(rs: Seq<AnswerView>) -> Seq<u8>
    decreases rs.len(),
{
    if rs.len() == 0 {
        Seq::empty()
    } else {
        encode_answer(rs[0]) + encode_answers(rs.drop_first())
    }
}

/// The header of `m` with each count set to the number of entries that
/// its section holds.
pub open spec fn counted(m: MessageView) -> Header {
    Header {
        qdcount: m.questions.len() as u16,
        ancount: m.answers.len() as u16,
        nscount: m.authorities.len() as u16,
        arcount: m.additionals.len() as u16,
        ..m.header
    }
}

/// `m` with the counts of its header set from its sections, as encoding
/// writes them and `response` leaves them.
pub open spec fn recounted(m: MessageView) -> MessageView {
    MessageView { header: counted(m), ..m }
}

/// A message on the wire: the header with the counts of `counted`, then
/// the four sections in order.
pub open spec fn encode_message(m: MessageView) -> Seq<u8> {
    encode_header(counted(m)) + encode_questions(m.questions) + encode_answers(m.answers)
        + encode_answers(m.authorities) + encode_answers(m.additionals)
}

/// One of the records has more data than a 16-bit length can state.
pub open spec fn oversized(rs: Seq<AnswerView>) -> bool {
    exists|i: int| 0 <= i < rs.len() && (#[trigger] rs[i]).rdata.len() > U16_LIMIT
}

/// Why `m` cannot be encoded, if it cannot: a section with more entries
/// than a 16-bit count can state comes first, then a record with too much
/// data.
pub open spec fn encode_fault(m: MessageView) -> Option<ErrorKind> {
    if m.questions.len() > U16_LIMIT || m.answers.len() > U16_LIMIT || m.authorities.len()
        > U16_LIMIT || m.additionals.len() > U16_LIMIT {
        Some(ErrorKind::SectionTooLarge)
    } else if oversized(m.answers) || oversized(m.authorities) || oversized(m.additionals) {
        Some(ErrorKind::RecordTooLarge)
    } else {
        None
    }
}

/// What reading a run of entries comes to when `done` have been read and
/// `rest` is what the remaining ones give.
pub open spec fn resumed_run<T>(done: Seq<T>, rest: Result<(Seq<T>, int), Fault>) -> Result<
    (Seq<T>, int),
    Fault,
> {
    match rest {
        Ok((items, end)) => Ok((done + items, end)),
        Err(fault) => Err(fault),
    }
}

/// Exactly `count` questions read one after the other from `at`, and the
/// offset just past the last. The first that cannot be read fails the
/// whole run.
pub open spec fn questions_at(buf: Seq<u8>, at: int, count: nat) -> Result<
    (Seq<QuestionView>, int),
    Fault,
>
    decreases count,
{
    if count == 0 {
        Ok((Seq::empty(), at))
    } else {
        match question_at(buf, at) {
            Err(fault) => Err(fault),
            Ok((q, next)) => resumed_run(seq![q], questions_at(buf, next, (count - 1) as nat)),
        }
    }
}

/// Exactly `count` records read one after the other from `at`, and the
/// offset just past the last. The first that cannot be read fails the
/// whole run.
pub open spec fn answers_at(buf: Seq<u8>, at: int, count: nat) -> Result<
    (Seq<AnswerView>, int),
    Fault,
>
    decreases count,
{
    if count == 0 {
        Ok((Seq::empty(), at))
    } else {
        match answer_at(buf, at) {
            Err(fault) => Err(fault),
            Ok((a, next)) => resumed_run(seq![a], answers_at(buf, next, (count - 1) as nat)),
        }
    }
}

/// The message that the bytes of `buf` lay out, and the offset just past
/// it: the header, then as many entries of each section as the header
/// counts, each section from where the one before ended. A failure names
/// the part that was being read. Bytes after the last entry are not read.
/// This is the layout alone: how long a datagram may be is for
/// `datagram_at` to say.
pub open spec fn message_at(buf: Seq<u8>) -> Result<(MessageView, int), MalformedMessage> {
    match header_at(buf) {
        Err(fault) => Err(malformed(fault, Stage::Header)),
        Ok((header, a0)) => match questions_at(buf, a0, header.qdcount as nat) {
            Err(fault) => Err(malformed(fault, Stage::Question)),
            Ok((questions, a1)) => match answers_at(buf, a1, header.ancount as nat) {
                Err(fault) => Err(malformed(fault, Stage::Answer)),
                Ok((answers, a2)) => match answers_at(buf, a2, header.nscount as nat) {
                    Err(fault) => Err(malformed(fault, Stage::Authority)),
                    Ok((authorities, a3)) => match answers_at(buf, a3, header.arcount as nat) {
                        Err(fault) => Err(malformed(fault, Stage::Additional)),
                        Ok((additionals, a4)) => Ok(
                            (
                                MessageView { header, questions, answers, authorities, additionals },
                                a4,
                            ),
                        ),
                    },
                },
            },
        },
    }
}

/// What decoding makes of a whole datagram: a payload of more than
/// `MAX_PAYLOAD` bytes is refused unread, at the first byte beyond the
/// limit; any other is read as `message_at` says.
pub open spec fn datagram_at(buf: Seq<u8>) -> Result<(MessageView, int), MalformedMessage> {
    if buf.len() > MAX_PAYLOAD {
        Err(
            MalformedMessage {
                kind: ErrorKind::PayloadTooLarge,
                stage: Stage::Header,
                offset: MAX_PAYLOAD,
            },
        )
    } else {
        message_at(buf)
    }
}

/// The message of a datagram, without the offset at which it ends.
pub open spec fn datagram_message(buf: Seq<u8>) -> Result<MessageView, MalformedMessage> {
    match datagram_at(buf) {
        Ok((m, _)) => Ok(m),
        Err(e) => Err(e),
    }
}

/// A message is valid when its flags are well formed, each count of its
/// header is the number of entries in its section, and every entry is
/// valid.
pub open spec fn valid_message(m: MessageView) -> bool {
    &&& m.header.flags.wf()
    &&& m.header.qdcount == m.questions.len()
    &&& m.header.ancount == m.answers.len()
    &&& m.header.nscount == m.authorities.len()
    &&& m.header.arcount == m.additionals.len()
    &&& forall|i: int| 0 <= i < m.questions.len() ==> valid_question(#[trigger] m.questions[i])
    &&& forall|i: int| 0 <= i < m.answers.len() ==> valid_answer(#[trigger] m.answers[i])
    &&& forall|i: int| 0 <= i < m.authorities.len() ==> valid_answer(#[trigger] m.authorities[i])
    &&& forall|i: int| 0 <= i < m.additionals.len() ==> valid_answer(#[trigger] m.additionals[i])
}

/// Appends the wire forms of the questions to `out`.
fn encode_all_questions(questions: &Vec<Question>, out: &mut Vec<u8>)
    ensures
        final(out)@ == old(out)@ + encode_questions(question_views(questions@)),
{
    let ghost all = question_views(questions@);
    let mut i: usize = 0;
    assert(all.subrange(0, all.len() as int) =~= all);
    while i < questions.len()
        invariant
            i <= questions@.len(),
            all == question_views(questions@),
            out@ + encode_questions(all.subrange(i as int, all.len() as int)) == old(out)@
                + encode_questions(all),
        decreases questions@.len() - i,
    {
        proof {
            let tail = all.subrange(i as int, all.len() as int);
            assert(tail.drop_first() =~= all.subrange(i + 1, all.len() as int));
        }
        questions[i].encode_into(out);
        i += 1;
    }
}

/// Appends the wire forms of the records to `out`, up to the first whose
/// data is too long.
fn encode_all_answers(records: &Vec<Answer>, out: &mut Vec<u8>) -> (r: Result<(), ErrorKind>)
    ensures
        match r {
            Ok(_) => !oversized(answer_views(records@)) && final(out)@ == old(out)@
                + encode_answers(answer_views(records@)),
            Err(kind) => oversized(answer_views(records@)) && kind == ErrorKind::RecordTooLarge,
        },
{
    let ghost all = answer_views(records@);
    let mut i: usize = 0;
    assert(all.subrange(0, all.len() as int) =~= all);
    while i < records.len()
        invariant
            i <= records@.len(),
            all == answer_views(records@),
            forall|j: int| 0 <= j < i ==> (#[trigger] all[j]).rdata.len() <= U16_LIMIT,
            out@ + encode_answers(all.subrange(i as int, all.len() as int)) == old(out)@
                + encode_answers(all),
        decreases records@.len() - i,
    {
        proof {
            let tail = all.subrange(i as int, all.len() as int);
            assert(tail.drop_first() =~= all.subrange(i + 1, all.len() as int));
        }
        records[i].encode_into(out)?;
        i += 1;
    }
    Ok(())
}

impl Message {
    /// Encodes the message for sending. The counts of the header are set
    /// from the sections, in the message as in the bytes; nothing else
    /// changes. A message that cannot be encoded is left untouched.
    pub fn response(&mut self) -> (r: Result<Vec<u8>, ErrorKind>)
        ensures
            match encode_fault(old(self)@) {
                Some(kind) => r == Err::<Vec<u8>, ErrorKind>(kind) && *final(self) == *old(self),
                None => r matches Ok(bytes) && bytes@ == encode_message(old(self)@) && *final(self)
                    == (Message { header: counted(old(self)@), ..*old(self) }) && final(self)@
                    == recounted(old(self)@),
            },
    {
        if self.questions.len() > U16_LIMIT || self.answers.len() > U16_LIMIT
            || self.authorities.len() > U16_LIMIT || self.additionals.len() > U16_LIMIT {
            return Err(ErrorKind::SectionTooLarge);
        }
        let header = Header {
            id: self.header.id,
            flags: self.header.flags,
            qdcount: self.questions.len() as u16,
            ancount: self.answers.len() as u16,
            nscount: self.authorities.len() as u16,
            arcount: self.additionals.len() as u16,
        };
        let mut out: Vec<u8> = Vec::new();
        header.encode_into(&mut out);
        encode_all_questions(&self.questions, &mut out);
        encode_all_answers(&self.answers, &mut out)?;
        encode_all_answers(&self.authorities, &mut out)?;
        encode_all_answers(&self.additionals, &mut out)?;
        self.header = header;
        Ok(out)
    }
}

/// Decodes one datagram, as `parse_message` does, and returns the
/// message alone. A payload of more than `MAX_PAYLOAD` bytes is refused
/// unread; bytes after the last entry of any other are ignored.
pub fn create_message(buf: &[u8]) -> (r: Result<Message, MalformedMessage>)
    ensures
        match datagram_message(buf@) {
            Ok(m) => r matches Ok(found) && found@ == m && valid_message(m),
            Err(e) => r == Err::<Message, MalformedMessage>(e),
        },
{
    match parse_message(buf) {
        Ok((message, _)) => Ok(message),
        Err(e) => Err(e),
    }
}

} // verus!
