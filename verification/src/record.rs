//! Questions and resource records.
//!
//! A question is a name, a type and a class. A record adds a time to
//! live and data of a length that its own 16-bit field states.

use vstd::prelude::*;
use vstd::slice::slice_to_vec;
use crate::error::{ErrorKind, Fault, MalformedMessage, Stage, malformed};
use crate::name::{
    DomainName, encode_name, lemma_name_is_valid, lemma_name_round_trip, name_at, valid_name,
};
use crate::wire::{
    holds_at, lemma_holds_split, lemma_u16_held, lemma_u32_held, push_all, push_u16, push_u32,
    same_bytes, u16_at, u16_bytes, u32_at, u32_bytes,
};

verus! {

/// The largest number that a 16-bit field can state.
pub const U16_LIMIT: usize = 65535;

/// One entry of the question section.
#[derive(Debug, Eq)]
pub struct Question {
    pub qname: DomainName,
    pub qtype: u16,
    pub qclass: u16,
}

/// What a question holds.
pub struct QuestionView {
    pub qname: Seq<Seq<u8>>,
    pub qtype: u16,
    pub qclass: u16,
}

impl View for Question {
    type V = QuestionView;

    open spec fn view(&self) -> QuestionView {
        QuestionView { qname: self.qname@, qtype: self.qtype, qclass: self.qclass }
    }
}

/// One resource record of the answer, authority or additional section.
#[derive(Debug, Eq)]
pub struct Answer {
    pub aname: DomainName,
    pub atype: u16,
    pub aclass: u16,
    /// Time to live, in seconds.
    pub ttl: u32,
    /// The length of `rdata` as the wire stated it. Encoding does not read
    /// this field: it writes the length that `rdata` has.
    pub rdlenth: u16,
    pub rdata: Vec<u8>,
}

/// What a record holds.
pub struct AnswerView {
    pub aname: Seq<Seq<u8>>,
    pub atype: u16,
    pub aclass: u16,
    pub ttl: u32,
    pub rdlenth: u16,
    pub rdata: Seq<u8>,
}

impl View for Answer {
    type V = AnswerView;

    open spec fn view(&self) -> AnswerView {
        AnswerView {
            aname: self.aname@,
            atype: self.atype,
            aclass: self.aclass,
            ttl: self.ttl,
            rdlenth: self.rdlenth,
            rdata: self.rdata@,
        }
    }
}

impl Clone for Question {
    fn clone(&self) -> (r: Question)
        ensures
            r@ == self@,
    {
        Question { qname: self.qname.clone(), qtype: self.qtype, qclass: self.qclass }
    }
}

impl Clone for Answer {
    fn clone(&self) -> (r: Answer)
        ensures
            r@ == self@,
    {
        Answer {
            aname: self.aname.clone(),
            atype: self.atype,
            aclass: self.aclass,
            ttl: self.ttl,
            rdlenth: self.rdlenth,
            rdata: slice_to_vec(self.rdata.as_slice()),
        }
    }
}

impl PartialEq for Question {
    /// Two questions are equal when they hold the same values.
    fn eq(&self, other: &Question) -> (r: bool) {
        self.qname == other.qname && self.qtype == other.qtype && self.qclass == other.qclass
    }
}

impl vstd::std_specs::cmp::PartialEqSpecImpl for Question {
    open spec fn obeys_eq_spec() -> bool {
        true
    }

    open spec fn eq_spec(&self, other: &Question) -> bool {
        self@ == other@
    }
}

impl PartialEq for Answer {
    /// Two records are equal when they hold the same values, the stated
    /// length of the data among them.
    fn eq(&self, other: &Answer) -> (r: bool) {
        self.aname == other.aname && self.atype == other.atype && self.aclass == other.aclass
            && self.ttl == other.ttl && self.rdlenth == other.rdlenth && same_bytes(
            self.rdata.as_slice(),
            other.rdata.as_slice(),
        )
    }
}

impl vstd::std_specs::cmp::PartialEqSpecImpl for Answer {
    open spec fn obeys_eq_spec() -> bool {
        true
    }

    open spec fn eq_spec(&self, other: &Answer) -> bool {
        self@ == other@
    }
}

/// A question is valid when its name is.
pub open spec fn valid_question(q: QuestionView) -> bool {
    valid_name(q.qname)
}

/// A record is valid when its name is and its length field states the
/// length of its data.
pub open spec fn valid_answer(a: AnswerView) -> bool {
    &&& valid_name(a.aname)
    &&& a.rdlenth == a.rdata.len()
}

/// A question on the wire: name, type, class.
pub open spec fn encode_question(q: QuestionView) -> Seq<u8> {
    encode_name(q.qname) + u16_bytes(q.qtype) + u16_bytes(q.qclass)
}

/// A record on the wire: name, type, class, time to live, the length of
/// the data, the data. The length written is that of `rdata`, whatever
/// `rdlenth` holds.
pub open spec fn encode_answer(a: AnswerView) -> Seq<u8> {
    encode_name(a.aname) + u16_bytes(a.atype) + u16_bytes(a.aclass) + u32_bytes(a.ttl) + u16_bytes(
        a.rdata.len() as u16,
    ) + a.rdata
}

/// The question that `buf` holds at `at`, and the offset just past it.
pub open spec fn question_at(buf: Seq<u8>, at: int) -> Result<(QuestionView, int), Fault> {
    match name_at(buf, at, buf.len()) {
        Err(fault) => Err(fault),
        Ok((qname, end)) => if end + 4 > buf.len() {
            Err((ErrorKind::Truncated, end))
        } else {
            Ok(
                (
                    QuestionView { qname, qtype: u16_at(buf, end), qclass: u16_at(buf, end + 2) },
                    end + 4,
                ),
            )
        },
    }
}

/// The record that `buf` holds at `at`, and the offset just past it.
/// After the name come ten bytes of fixed fields; a buffer that ends
/// within them is truncated. The last of them states the length of the
/// data, which must not reach past the end of the buffer; the fault is
/// then reported at the offset of that length field.
pub open spec fn answer_at(buf: Seq<u8>, at: int) -> Result<(AnswerView, int), Fault> {
    match name_at(buf, at, buf.len()) {
        Err(fault) => Err(fault),
        Ok((aname, end)) => if end + 10 > buf.len() {
            Err((ErrorKind::Truncated, end))
        } else {
            let rdlenth = u16_at(buf, end + 8);
            if end + 10 + rdlenth > buf.len() {
                Err((ErrorKind::DeclaredLengthExceedsBuffer, end + 8))
            } else {
                Ok(
                    (
                        AnswerView {
                            aname,
                            atype: u16_at(buf, end),
                            aclass: u16_at(buf, end + 2),
                            ttl: u32_at(buf, end + 4),
                            rdlenth,
                            rdata: buf.subrange(end + 10, end + 10 + rdlenth),
                        },
                        end + 10 + rdlenth,
                    ),
                )
            }
        },
    }
}

/// The record that answers every question: an address record of class
/// "internet" that lives 255 seconds and holds the address 8.8.8.8.
pub open spec fn fixed_answer(aname: Seq<Seq<u8>>) -> AnswerView {
    AnswerView {
        aname,
        atype: 1,
        aclass: 1,
        ttl: 255,
        rdlenth: 4,
        rdata: seq![8u8, 8u8, 8u8, 8u8],
    }
}

impl Question {
    /// Appends the wire form of the question to `out`.
    pub fn encode_into(&self, out: &mut Vec<u8>)
        ensures
            final(out)@ == old(out)@ + encode_question(self@),
            valid_question(self@),
    {
        self.qname.encode_into(out);
        push_u16(out, self.qtype);
        push_u16(out, self.qclass);
    }

    /// The wire form of the question.
    pub fn to_vec(&self) -> (r: Vec<u8>)
        ensures
            r@ == encode_question(self@),
            valid_question(self@),
    {
        let mut out: Vec<u8> = Vec::new();
        self.encode_into(&mut out);
        out
    }
}

impl Answer {
    /// The fixed answer for the name that `buf` starts with. The name is
    /// read as in any other place, so it may use compression pointers; a
    /// name that cannot be read is reported as a fault of the answer
    /// stage.
    pub fn from(buf: &[u8]) -> (r: Result<Answer, MalformedMessage>)
        ensures
            match name_at(buf@, 0, buf@.len()) {
                Ok((aname, _)) => r matches Ok(a) && a@ == fixed_answer(aname),
                Err(fault) => r == Err::<Answer, MalformedMessage>(
                    malformed(fault, Stage::Answer),
                ),
            },
    {
        match DomainName::decode(buf, 0, Stage::Answer) {
            Err(e) => Err(e),
            Ok((aname, _)) => {
                let mut rdata: Vec<u8> = Vec::new();
                rdata.push(8);
                rdata.push(8);
                rdata.push(8);
                rdata.push(8);
                assert(rdata@ =~= seq![8u8, 8u8, 8u8, 8u8]);
                Ok(Answer { aname, atype: 1, aclass: 1, ttl: 255, rdlenth: 4, rdata })
            },
        }
    }

    /// Appends the wire form of the record to `out`, unless its data is
    /// too long for the length field; `out` is then left as it was.
    pub fn encode_into(&self, out: &mut Vec<u8>) -> (r: Result<(), ErrorKind>)
        ensures
            match r {
                Ok(_) => self@.rdata.len() <= U16_LIMIT && valid_name(self@.aname) && final(out)@
                    == old(out)@ + encode_answer(self@),
                Err(kind) => self@.rdata.len() > U16_LIMIT && kind == ErrorKind::RecordTooLarge
                    && final(out)@ == old(out)@,
            },
    {
        if self.rdata.len() > U16_LIMIT {
            return Err(ErrorKind::RecordTooLarge);
        }
        self.aname.encode_into(out);
        push_u16(out, self.atype);
        push_u16(out, self.aclass);
        push_u32(out, self.ttl);
        push_u16(out, self.rdata.len() as u16);
        push_all(out, self.rdata.as_slice());
        Ok(())
    }

    /// The wire form of the record. Its length field states the length
    /// that the data has; data of more than 65535 bytes is refused.
    pub fn to_vec(self) -> (r: Result<Vec<u8>, ErrorKind>)
        ensures
            match r {
                Ok(bytes) => self@.rdata.len() <= U16_LIMIT && valid_name(self@.aname) && bytes@
                    == encode_answer(self@),
                Err(kind) => self@.rdata.len() > U16_LIMIT && kind == ErrorKind::RecordTooLarge,
            },
    {
        let mut out: Vec<u8> = Vec::new();
        self.encode_into(&mut out)?;
        Ok(out)
    }
}

/// Whatever question a buffer gives is valid, and ends within the buffer.
pub proof fn lemma_question_is_valid(buf: Seq<u8>, at: int)
    ensures
        question_at(buf, at) matches Ok((q, end)) ==> valid_question(q) && at < end <= buf.len(),
{
    lemma_name_is_valid(buf, at, buf.len());
}

/// Whatever record a buffer gives is valid, and ends within the buffer.
pub proof fn lemma_answer_is_valid(buf: Seq<u8>, at: int)
    ensures
        answer_at(buf, at) matches Ok((a, end)) ==> valid_answer(a) && at < end <= buf.len(),
{
    lemma_name_is_valid(buf, at, buf.len());
}

/// A valid question reads back from its wire form as itself, wherever in
/// a buffer that form stands.
pub proof fn lemma_question_round_trip(buf: Seq<u8>, at: int, q: QuestionView)
    requires
        valid_question(q),
        holds_at(buf, at, encode_question(q)),
    ensures
        question_at(buf, at) == Ok::<(QuestionView, int), Fault>(
            (q, at + encode_question(q).len()),
        ),
{
    let name = encode_name(q.qname);
    lemma_holds_split(buf, at, name + u16_bytes(q.qtype), u16_bytes(q.qclass));
    lemma_holds_split(buf, at, name, u16_bytes(q.qtype));
    lemma_name_round_trip(buf, at, q.qname, buf.len());
    lemma_u16_held(buf, at + name.len(), q.qtype);
    lemma_u16_held(buf, at + name.len() + 2, q.qclass);
}

/// A valid record reads back from its wire form as itself, wherever in a
/// buffer that form stands.
pub proof fn lemma_answer_round_trip(buf: Seq<u8>, at: int, a: AnswerView)
    requires
        valid_answer(a),
        holds_at(buf, at, encode_answer(a)),
    ensures
        answer_at(buf, at) == Ok::<(AnswerView, int), Fault>((a, at + encode_answer(a).len())),
{
    let name = encode_name(a.aname);
    let t = u16_bytes(a.atype);
    let c = u16_bytes(a.aclass);
    let ttl = u32_bytes(a.ttl);
    let len = u16_bytes(a.rdata.len() as u16);
    lemma_holds_split(buf, at, name + t + c + ttl + len, a.rdata);
    lemma_holds_split(buf, at, name + t + c + ttl, len);
    lemma_holds_split(buf, at, name + t + c, ttl);
    lemma_holds_split(buf, at, name + t, c);
    lemma_holds_split(buf, at, name, t);
    lemma_name_round_trip(buf, at, a.aname, buf.len());
    let end = at + name.len();
    lemma_u16_held(buf, end, a.atype);
    lemma_u16_held(buf, end + 2, a.aclass);
    lemma_u32_held(buf, end + 4, a.ttl);
    lemma_u16_held(buf, end + 8, a.rdata.len() as u16);
}

} // verus!
