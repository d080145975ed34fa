//! What holds of decoding and encoding together.
//!
//! The laws of the single parts stand with those parts; here are the laws
//! of runs of entries and of whole messages.

use vstd::prelude::*;
use crate::error::{ErrorKind, Fault, MalformedMessage, Stage};
use crate::header::{Header, encode_header, header_at, lemma_header_held, lemma_header_round_trip};
use crate::message::{
    MAX_PAYLOAD, MessageView, answers_at, counted, datagram_at, datagram_message,
    encode_answers, encode_fault, encode_message, encode_questions, message_at, oversized,
    questions_at, recounted, valid_message,
};
use crate::record::{
    AnswerView, QuestionView, answer_at, encode_answer, encode_question, lemma_answer_is_valid,
    lemma_answer_round_trip, lemma_question_is_valid, lemma_question_round_trip, question_at,
    valid_answer, valid_question,
};
use crate::wire::{holds_at, lemma_holds_split};

verus! {

/// Valid questions read back from their wire forms, one after the other,
/// as themselves.
pub proof fn lemma_questions_round_trip(buf: Seq<u8>, at: int, qs: Seq<QuestionView>)
    requires
        forall|i: int| 0 <= i < qs.len() ==> valid_question(#[trigger] qs[i]),
        holds_at(buf, at, encode_questions(qs)),
    ensures
        questions_at(buf, at, qs.len()) == Ok::<(Seq<QuestionView>, int), Fault>(
            (qs, at + encode_questions(qs).len()),
        ),
    decreases qs.len(),
{
    if qs.len() == 0 {
        assert(qs =~= Seq::<QuestionView>::empty());
    } else {
        let first = encode_question(qs[0]);
        let tail = qs.drop_first();
        lemma_holds_split(buf, at, first, encode_questions(tail));
        lemma_question_round_trip(buf, at, qs[0]);
        lemma_questions_round_trip(buf, at + first.len(), tail);
        assert(seq![qs[0]] + tail =~= qs);
    }
}

/// Valid records read back from their wire forms, one after the other,
/// as themselves.
pub proof fn lemma_answers_round_trip(buf: Seq<u8>, at: int, rs: Seq<AnswerView>)
    requires
        forall|i: int| 0 <= i < rs.len() ==> valid_answer(#[trigger] rs[i]),
        holds_at(buf, at, encode_answers(rs)),
    ensures
        answers_at(buf, at, rs.len()) == Ok::<(Seq<AnswerView>, int), Fault>(
            (rs, at + encode_answers(rs).len()),
        ),
    decreases rs.len(),
{
    if rs.len() == 0 {
        assert(rs =~= Seq::<AnswerView>::empty());
    } else {
        let first = encode_answer(rs[0]);
        let tail = rs.drop_first();
        lemma_holds_split(buf, at, first, encode_answers(tail));
        lemma_answer_round_trip(buf, at, rs[0]);
        lemma_answers_round_trip(buf, at + first.len(), tail);
        assert(seq![rs[0]] + tail =~= rs);
    }
}

/// A run of questions that a buffer gives has as many entries as were
/// asked for, and each is valid.
pub proof fn lemma_questions_are_valid(buf: Seq<u8>, at: int, count: nat)
    ensures
        questions_at(buf, at, count) matches Ok((qs, _)) ==> qs.len() == count && forall|i: int|
            0 <= i < qs.len() ==> valid_question(#[trigger] qs[i]),
    decreases count,
{
    if count > 0 {
        lemma_question_is_valid(buf, at);
        if let Ok((q, next)) = question_at(buf, at) {
            lemma_questions_are_valid(buf, next, (count - 1) as nat);
        }
    }
}

/// A run of records that a buffer gives has as many entries as were
/// asked for, and each is valid.
pub proof fn lemma_answers_are_valid(buf: Seq<u8>, at: int, count: nat)
    ensures
        answers_at(buf, at, count) matches Ok((rs, _)) ==> rs.len() == count && forall|i: int|
            0 <= i < rs.len() ==> valid_answer(#[trigger] rs[i]),
    decreases count,
{
    if count > 0 {
        lemma_answer_is_valid(buf, at);
        if let Ok((a, next)) = answer_at(buf, at) {
            lemma_answers_are_valid(buf, next, (count - 1) as nat);
        }
    }
}

/// Whatever message a buffer gives is valid.
pub proof fn lemma_decoded_is_valid(buf: Seq<u8>)
    ensures
        message_at(buf) matches Ok((m, _)) ==> valid_message(m),
        datagram_at(buf) matches Ok((m, _)) ==> valid_message(m),
{
    if let Ok((header, a0)) = header_at(buf) {
        lemma_questions_are_valid(buf, a0, header.qdcount as nat);
        if let Ok((_, a1)) = questions_at(buf, a0, header.qdcount as nat) {
            lemma_answers_are_valid(buf, a1, header.ancount as nat);
            if let Ok((_, a2)) = answers_at(buf, a1, header.ancount as nat) {
                lemma_answers_are_valid(buf, a2, header.nscount as nat);
                if let Ok((_, a3)) = answers_at(buf, a2, header.nscount as nat) {
                    lemma_answers_are_valid(buf, a3, header.arcount as nat);
                }
            }
        }
    }
}

/// Where each part of an encoded message stands in it.
pub proof fn lemma_message_layout(m: MessageView)
    ensures
        encode_header(counted(m)).len() == 12,
        holds_at(encode_message(m), 0, encode_header(counted(m))),
        holds_at(encode_message(m), 12, encode_questions(m.questions)),
        holds_at(
            encode_message(m),
            12int + encode_questions(m.questions).len(),
            encode_answers(m.answers),
        ),
        holds_at(
            encode_message(m),
            12int + encode_questions(m.questions).len() + encode_answers(m.answers).len(),
            encode_answers(m.authorities),
        ),
        holds_at(
            encode_message(m),
            12int + encode_questions(m.questions).len() + encode_answers(m.answers).len()
                + encode_answers(m.authorities).len(),
            encode_answers(m.additionals),
        ),
        encode_message(m).len() == 12 + encode_questions(m.questions).len() + encode_answers(
            m.answers,
        ).len() + encode_answers(m.authorities).len() + encode_answers(m.additionals).len(),
{
    let buf = encode_message(m);
    let h = encode_header(counted(m));
    let q = encode_questions(m.questions);
    let an = encode_answers(m.answers);
    let ns = encode_answers(m.authorities);
    let ar = encode_answers(m.additionals);
    assert(buf.subrange(0, buf.len() as int) =~= buf);
    lemma_holds_split(buf, 0, h + q + an + ns, ar);
    lemma_holds_split(buf, 0, h + q + an, ns);
    lemma_holds_split(buf, 0, h + q, an);
    lemma_holds_split(buf, 0, h, q);
}

/// Valid records have data that a 16-bit length can state.
pub proof fn lemma_valid_fits(rs: Seq<AnswerView>)
    requires
        forall|i: int| 0 <= i < rs.len() ==> valid_answer(#[trigger] rs[i]),
    ensures
        !oversized(rs),
{
}

/// The bytes of a valid message lay out the message again, and nothing
/// else: reading them by `message_at` gives back the message and ends
/// exactly where they end. This holds of an encoding of any length; what
/// the decoders make of it, which refuse a long one, is
/// `lemma_datagram_round_trip`.
pub proof fn lemma_message_round_trip(m: MessageView)
    requires
        valid_message(m),
    ensures
        encode_fault(m) is None,
        message_at(encode_message(m)) == Ok::<(MessageView, int), MalformedMessage>(
            (m, encode_message(m).len() as int),
        ),
{
    let buf = encode_message(m);
    let a1 = 12 + encode_questions(m.questions).len() as int;
    let a2 = a1 + encode_answers(m.answers).len();
    let a3 = a2 + encode_answers(m.authorities).len();
    let a4 = a3 + encode_answers(m.additionals).len();
    lemma_message_layout(m);
    assert(header_at(buf) == Ok::<(Header, int), Fault>((m.header, 12))) by {
        lemma_header_round_trip(buf, m.header);
    }
    assert(questions_at(buf, 12, m.header.qdcount as nat) == Ok::<
        (Seq<QuestionView>, int),
        Fault,
    >((m.questions, a1))) by {
        lemma_questions_round_trip(buf, 12, m.questions);
    }
    assert(answers_at(buf, a1, m.header.ancount as nat) == Ok::<(Seq<AnswerView>, int), Fault>(
        (m.answers, a2),
    )) by {
        lemma_answers_round_trip(buf, a1, m.answers);
    }
    assert(answers_at(buf, a2, m.header.nscount as nat) == Ok::<(Seq<AnswerView>, int), Fault>(
        (m.authorities, a3),
    )) by {
        lemma_answers_round_trip(buf, a2, m.authorities);
    }
    assert(answers_at(buf, a3, m.header.arcount as nat) == Ok::<(Seq<AnswerView>, int), Fault>(
        (m.additionals, a4),
    )) by {
        lemma_answers_round_trip(buf, a3, m.additionals);
    }
    lemma_valid_fits(m.answers);
    lemma_valid_fits(m.authorities);
    lemma_valid_fits(m.additionals);
}

/// Decoding the encoding of a valid message gives back the message, and
/// ends exactly where the encoding ends, if the encoding is no longer
/// than the largest payload. A longer one is refused.
pub proof fn lemma_datagram_round_trip(m: MessageView)
    requires
        valid_message(m),
    ensures
        encode_message(m).len() <= MAX_PAYLOAD ==> datagram_at(encode_message(m)) == Ok::<
            (MessageView, int),
            MalformedMessage,
        >((m, encode_message(m).len() as int)) && datagram_message(encode_message(m)) == Ok::<
            MessageView,
            MalformedMessage,
        >(m),
        encode_message(m).len() > MAX_PAYLOAD ==> datagram_at(encode_message(m)) == Err::<
            (MessageView, int),
            MalformedMessage,
        >(
            MalformedMessage {
                kind: ErrorKind::PayloadTooLarge,
                stage: Stage::Header,
                offset: MAX_PAYLOAD,
            },
        ),
{
    lemma_message_round_trip(m);
}

/// Whatever the counts in its header say, a message with well-formed
/// flags, valid entries and no section too large for its count decodes
/// from its encoding as itself with the counts set right, if the encoding
/// is no longer than the largest payload.
pub proof fn lemma_encoding_decodes(m: MessageView)
    requires
        valid_message(recounted(m)),
        encode_message(m).len() <= MAX_PAYLOAD,
    ensures
        datagram_at(encode_message(m)) == Ok::<(MessageView, int), MalformedMessage>(
            (recounted(m), encode_message(m).len() as int),
        ),
{
    lemma_message_round_trip(recounted(m));
}

/// A datagram that ends with its header, while the header counts at
/// least one question, is truncated at the question stage, at the offset
/// where the question should begin.
pub proof fn lemma_missing_question(buf: Seq<u8>)
    requires
        buf.len() == 12,
        header_at(buf) matches Ok((h, _)) && h.qdcount > 0,
    ensures
        datagram_at(buf) == Err::<(MessageView, int), MalformedMessage>(
            MalformedMessage { kind: ErrorKind::Truncated, stage: Stage::Question, offset: 12 },
        ),
{
}

/// Decoding, encoding and decoding again gives the message of the first
/// decoding, as long as the encoding is no longer than the largest
/// payload: nothing drifts, however often the two are applied in turn.
pub proof fn lemma_decode_is_stable(buf: Seq<u8>)
    ensures
        datagram_at(buf) matches Ok((m, _)) ==> (encode_message(m).len() <= MAX_PAYLOAD
            ==> datagram_at(encode_message(m)) == Ok::<(MessageView, int), MalformedMessage>(
            (m, encode_message(m).len() as int),
        )),
{
    lemma_decoded_is_valid(buf);
    if let Ok((m, _)) = datagram_at(buf) {
        lemma_message_round_trip(m);
    }
}

/// The counts in the header of an encoded message are the numbers of
/// entries that its sections hold, whatever the header of the message
/// said.
pub proof fn lemma_encoded_counts(m: MessageView)
    requires
        encode_fault(m) is None,
    ensures
        header_at(encode_message(m)) matches Ok((h, _)) && h.id == m.header.id && h.qdcount
            == m.questions.len() && h.ancount == m.answers.len() && h.nscount
            == m.authorities.len() && h.arcount == m.additionals.len(),
{
    lemma_message_layout(m);
    lemma_header_held(encode_message(m), counted(m));
}

} // verus!
