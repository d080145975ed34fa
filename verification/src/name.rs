//! Domain names: a sequence of labels, written as length-prefixed octets
//! and closed by a zero octet, and read back with compression pointers
//! followed.

use vstd::prelude::*;
use vstd::slice::{slice_subrange, slice_to_vec};
use crate::error::{ErrorKind, Fault, MalformedMessage, Stage, malformed};
use crate::wire::{holds_at, lemma_holds_split, push_all, same_bytes};

verus! {

/// A label has between 1 and 63 bytes.
pub open spec fn valid_label(label: Seq<u8>) -> bool {
    1 <= label.len() <= 63
}

/// A name is valid when each of its labels is.
pub open spec fn valid_name(name: Seq<Seq<u8>>) -> bool {
    forall|i: int| 0 <= i < name.len() ==> valid_label(#[trigger] name[i])
}

/// The labels of a vector of byte vectors, as sequences.
pub open spec fn label_seqs(labels: Seq<Vec<u8>>) -> Seq<Seq<u8>> {
    Seq::new(labels.len(), |i: int| labels[i]@)
}

/// One label on the wire: its length, then its bytes.
pub open spec fn encode_label(label: Seq<u8>) -> Seq<u8> {
    seq![label.len() as u8] + label
}

/// A name on the wire: its labels in order, then the zero octet of the
/// root. No compression pointer is ever written.
pub open spec fn encode_name(name: Seq<Seq<u8>>) -> Seq<u8>
    decreases name.len(),
{
    if name.len() == 0 {
        seq![0u8]
    } else {
        encode_label(name[0]) + encode_name(name.drop_first())
    }
}

/// The offset that a compression pointer names: the low six bits of its
/// first octet, then all of its second.
pub open spec fn pointer_target(first: u8, second: u8) -> int {
    (first as int % 64) * 256 + second as int
}

/// The name that `buf` holds at `at`, and the offset just past it.
///
/// A length octet of 1 to 63 is followed by that many label bytes; zero
/// ends the name. An octet with its two top bits set starts a pointer,
/// which must name an offset before its own: the rest of the name is read
/// there, and the name ends, for the reader, two bytes after the first
/// pointer. `budget` is the number of label bytes, length octets counted,
/// that may still be read: a chain of pointers that would read more is
/// refused, so reading ends on every buffer.
pub open spec fn name_at(buf: Seq<u8>, at: int, budget: nat) -> Result<(Seq<Seq<u8>>, int), Fault>
    decreases budget, at,
{
    if at < 0 || at >= buf.len() {
        Err((ErrorKind::Truncated, at))
    } else {
        let octet = buf[at];
        if octet == 0 {
            Ok((Seq::empty(), at + 1))
        } else if octet < 64 {
            if at + 1 + octet > buf.len() {
                Err((ErrorKind::DeclaredLengthExceedsBuffer, at))
            } else if 1 + octet > budget {
                Err((ErrorKind::InvalidPointer, at))
            } else {
                match name_at(buf, at + 1 + octet, (budget - 1 - octet) as nat) {
                    Ok((rest, end)) => Ok(
                        (seq![buf.subrange(at + 1, at + 1 + octet)] + rest, end),
                    ),
                    Err(fault) => Err(fault),
                }
            }
        } else if octet < 192 {
            Err((ErrorKind::InvalidPointer, at))
        } else if at + 2 > buf.len() {
            Err((ErrorKind::Truncated, at))
        } else {
            let target = pointer_target(octet, buf[at + 1]);
            if target >= at {
                Err((ErrorKind::InvalidPointer, at))
            } else {
                match name_at(buf, target, budget) {
                    Ok((rest, _)) => Ok((rest, at + 2)),
                    Err(fault) => Err(fault),
                }
            }
        }
    }
}

/// What reading a name comes to when `done` has been read already, the
/// name ends for the reader at `end` if a pointer was followed, and `rest`
/// is what the remaining octets give.
spec fn resumed(
    done: Seq<Seq<u8>>,
    end: Option<int>,
    rest: Result<(Seq<Seq<u8>>, int), Fault>,
) -> Result<(Seq<Seq<u8>>, int), Fault> {
    match rest {
        Ok((labels, after)) => Ok(
            (
                done + labels,
                match end {
                    Some(e) => e,
                    None => after,
                },
            ),
        ),
        Err(fault) => Err(fault),
    }
}

/// A domain name: its labels in order, without the root label that ends
/// it on the wire. Each label has 1 to 63 bytes.
#[derive(Debug, Eq)]
pub struct DomainName {
    labels: Vec<Vec<u8>>,
}

impl View for DomainName {
    type V = Seq<Seq<u8>>;

    closed spec fn view(&self) -> Seq<Seq<u8>> {
        label_seqs(self.labels@)
    }
}

impl PartialEq for DomainName {
    /// Two names are equal when they have the same labels, byte for byte
    /// and in the same order.
    fn eq(&self, other: &DomainName) -> (r: bool) {
        if self.labels.len() != other.labels.len() {
            assert(label_seqs(self.labels@).len() != label_seqs(other.labels@).len());
            return false;
        }
        let mut i: usize = 0;
        while i < self.labels.len()
            invariant
                i <= self.labels@.len(),
                self.labels@.len() == other.labels@.len(),
                forall|j: int| 0 <= j < i ==> self.labels@[j]@ == other.labels@[j]@,
            decreases self.labels@.len() - i,
        {
            if !same_bytes(self.labels[i].as_slice(), other.labels[i].as_slice()) {
                assert(label_seqs(self.labels@)[i as int] != label_seqs(other.labels@)[i as int]);
                return false;
            }
            i += 1;
        }
        assert(label_seqs(self.labels@) =~= label_seqs(other.labels@));
        true
    }
}

impl vstd::std_specs::cmp::PartialEqSpecImpl for DomainName {
    open spec fn obeys_eq_spec() -> bool {
        true
    }

    open spec fn eq_spec(&self, other: &DomainName) -> bool {
        self@ == other@
    }
}

impl Clone for DomainName {
    fn clone(&self) -> (r: DomainName)
        ensures
            r@ == self@,
    {
        proof {
            use_type_invariant(self);
        }
        let mut labels: Vec<Vec<u8>> = Vec::new();
        let mut i: usize = 0;
        while i < self.labels.len()
            invariant
                i <= self.labels@.len(),
                label_seqs(labels@) == label_seqs(self.labels@).subrange(0, i as int),
            decreases self.labels@.len() - i,
        {
            let ghost before = label_seqs(labels@);
            let label = slice_to_vec(self.labels[i].as_slice());
            labels.push(label);
            assert(label_seqs(labels@) =~= before.push(self.labels@[i as int]@));
            i += 1;
        }
        DomainName { labels }
    }
}

impl DomainName {
    #[verifier::type_invariant]
    closed spec fn inv(self) -> bool {
        valid_name(label_seqs(self.labels@))
    }

    /// The name with these labels, if each has 1 to 63 bytes.
    pub fn new(labels: Vec<Vec<u8>>) -> (r: Option<DomainName>)
        ensures
            valid_name(label_seqs(labels@)) <==> r is Some,
            r matches Some(name) ==> name@ == label_seqs(labels@),
    {
        let mut i: usize = 0;
        while i < labels.len()
            invariant
                i <= labels@.len(),
                forall|j: int| 0 <= j < i ==> valid_label(#[trigger] label_seqs(labels@)[j]),
            decreases labels@.len() - i,
        {
            let n = labels[i].len();
            if n < 1 || n > 63 {
                assert(!valid_label(label_seqs(labels@)[i as int]));
                return None;
            }
            i += 1;
        }
        Some(DomainName { labels })
    }

    /// The root name, which has no labels.
    pub fn root() -> (r: DomainName)
        ensures
            r@ == Seq::<Seq<u8>>::empty(),
    {
        let labels: Vec<Vec<u8>> = Vec::new();
        DomainName { labels }
    }

    /// The labels, in order.
    pub fn labels(&self) -> (r: &Vec<Vec<u8>>)
        ensures
            label_seqs(r@) == self@,
            valid_name(self@),
    {
        proof {
            use_type_invariant(self);
        }
        &self.labels
    }

    /// Appends the wire form of the name to `out`.
    pub fn encode_into(&self, out: &mut Vec<u8>)
        ensures
            final(out)@ == old(out)@ + encode_name(self@),
            valid_name(self@),
    {
        proof {
            use_type_invariant(self);
        }
        let ghost name = self@;
        let mut i: usize = 0;
        assert(name.subrange(0, name.len() as int) =~= name);
        while i < self.labels.len()
            invariant
                i <= self.labels@.len(),
                name == label_seqs(self.labels@),
                valid_name(name),
                out@ + encode_name(name.subrange(i as int, name.len() as int)) == old(out)@
                    + encode_name(name),
            decreases self.labels@.len() - i,
        {
            let label = &self.labels[i];
            proof {
                let tail = name.subrange(i as int, name.len() as int);
                assert(tail.drop_first() =~= name.subrange(i + 1, name.len() as int));
            }
            out.push(label.len() as u8);
            push_all(out, label.as_slice());
            i += 1;
        }
        out.push(0);
    }

    /// The wire form of the name.
    pub fn to_vec(&self) -> (r: Vec<u8>)
        ensures
            r@ == encode_name(self@),
            valid_name(self@),
    {
        let mut out: Vec<u8> = Vec::new();
        self.encode_into(&mut out);
        out
    }

    /// Reads the name that `buf` holds at `at`, following compression
    /// pointers, and returns it with the offset just past it. A failure
    /// carries `stage`, the part of the message that the caller is
    /// decoding.
    pub fn decode(buf: &[u8], at: usize, stage: Stage) -> (r: Result<
        (DomainName, usize),
        MalformedMessage,
    >)
        ensures
            match name_at(buf@, at as int, buf@.len()) {
                Ok((labels, end)) => r matches Ok(found) && found.0@ == labels && found.1 == end
                    && valid_name(labels) && end <= buf@.len(),
                Err(fault) => r == Err::<(DomainName, usize), MalformedMessage>(
                    malformed(fault, stage),
                ),
            },
    {
        let ghost whole = name_at(buf@, at as int, buf@.len());
        let mut labels: Vec<Vec<u8>> = Vec::new();
        let mut cursor: usize = at;
        let mut budget: usize = buf.len();
        let mut end: Option<usize> = None;
        loop
            invariant
                budget <= buf@.len(),
                whole == name_at(buf@, at as int, buf@.len()),
                valid_name(label_seqs(labels@)),
                end matches Some(e) ==> e <= buf@.len(),
                whole == resumed(
                    label_seqs(labels@),
                    match end {
                        Some(e) => Some(e as int),
                        None => None,
                    },
                    name_at(buf@, cursor as int, budget as nat),
                ),
            decreases budget, cursor,
        {
            let ghost done = label_seqs(labels@);
            if cursor >= buf.len() {
                return Err(MalformedMessage { kind: ErrorKind::Truncated, stage, offset: cursor });
            }
            let octet: u8 = buf[cursor];
            if octet == 0 {
                let stop: usize = match end {
                    Some(e) => e,
                    None => cursor + 1,
                };
                return Ok((DomainName { labels }, stop));
            } else if octet < 64 {
                let n: usize = octet as usize;
                if n + 1 > buf.len() - cursor {
                    return Err(
                        MalformedMessage {
                            kind: ErrorKind::DeclaredLengthExceedsBuffer,
                            stage,
                            offset: cursor,
                        },
                    );
                }
                if n + 1 > budget {
                    return Err(
                        MalformedMessage { kind: ErrorKind::InvalidPointer, stage, offset: cursor },
                    );
                }
                let label = slice_to_vec(slice_subrange(buf, cursor + 1, cursor + 1 + n));
                labels.push(label);
                proof {
                    let l = buf@.subrange(cursor + 1, cursor + 1 + n);
                    assert(label_seqs(labels@) =~= done.push(l));
                    match name_at(buf@, cursor + 1 + n, (budget - 1 - n) as nat) {
                        Ok((rest, _)) => {
                            assert(done + (seq![l] + rest) =~= done.push(l) + rest);
                        },
                        Err(_) => {},
                    }
                }
                cursor = cursor + 1 + n;
                budget = budget - 1 - n;
            } else if octet < 192 {
                return Err(
                    MalformedMessage { kind: ErrorKind::InvalidPointer, stage, offset: cursor },
                );
            } else {
                if buf.len() - cursor < 2 {
                    return Err(
                        MalformedMessage { kind: ErrorKind::Truncated, stage, offset: cursor },
                    );
                }
                let second: u8 = buf[cursor + 1];
                let low: u8 = octet & 0x3f;
                assert(low == octet % 64) by (bit_vector)
                    requires
                        low == octet & 0x3f,
                ;
                let target: usize = (low as usize) * 256 + (second as usize);
                if target >= cursor {
                    return Err(
                        MalformedMessage { kind: ErrorKind::InvalidPointer, stage, offset: cursor },
                    );
                }
                if end.is_none() {
                    end = Some(cursor + 2);
                }
                cursor = target;
            }
        }
    }
}

/// Whatever name a buffer gives is valid, and ends within the buffer.
pub proof fn lemma_name_is_valid(buf: Seq<u8>, at: int, budget: nat)
    ensures
        name_at(buf, at, budget) matches Ok((labels, end)) ==> valid_name(labels) && at < end
            <= buf.len(),
    decreases budget, at,
{
    if 0 <= at < buf.len() {
        let octet = buf[at];
        if 0 < octet < 64 && at + 1 + octet <= buf.len() && 1 + octet <= budget {
            lemma_name_is_valid(buf, at + 1 + octet, (budget - 1 - octet) as nat);
        } else if octet >= 192 && at + 2 <= buf.len() && pointer_target(octet, buf[at + 1]) < at {
            lemma_name_is_valid(buf, pointer_target(octet, buf[at + 1]), budget);
        }
    }
}

/// A pointer that names an earlier offset stands for the name that is
/// read there, and the reader goes on two bytes after the pointer.
pub proof fn lemma_pointer_followed(buf: Seq<u8>, at: int, budget: nat)
    requires
        0 <= at,
        at + 2 <= buf.len(),
        buf[at] >= 192,
        pointer_target(buf[at], buf[at + 1]) < at,
    ensures
        name_at(buf, at, budget) == match name_at(
            buf,
            pointer_target(buf[at], buf[at + 1]),
            budget,
        ) {
            Ok((labels, _)) => Ok::<(Seq<Seq<u8>>, int), Fault>((labels, at + 2)),
            Err(fault) => Err(fault),
        },
{
}

/// A pointer that names its own offset or a later one is refused and not
/// followed.
pub proof fn lemma_forward_pointer_refused(buf: Seq<u8>, at: int, budget: nat)
    requires
        0 <= at,
        at + 2 <= buf.len(),
        buf[at] >= 192,
        pointer_target(buf[at], buf[at + 1]) >= at,
    ensures
        name_at(buf, at, budget) == Err::<(Seq<Seq<u8>>, int), Fault>(
            (ErrorKind::InvalidPointer, at),
        ),
{
}

/// A valid name reads back from its wire form as itself, wherever in a
/// buffer that form stands, and the reader ends just past it.
pub proof fn lemma_name_round_trip(buf: Seq<u8>, at: int, name: Seq<Seq<u8>>, budget: nat)
    requires
        valid_name(name),
        holds_at(buf, at, encode_name(name)),
        budget + 1 >= encode_name(name).len(),
    ensures
        name_at(buf, at, budget) == Ok::<(Seq<Seq<u8>>, int), Fault>(
            (name, at + encode_name(name).len()),
        ),
    decreases name.len(),
{
    let wire = encode_name(name);
    if name.len() == 0 {
        assert(buf[at] == buf.subrange(at, at + wire.len())[0]);
        assert(name =~= Seq::<Seq<u8>>::empty());
    } else {
        let label = name[0];
        let tail = name.drop_first();
        let first = encode_label(label);
        assert(first[0] == label.len());
        lemma_holds_split(buf, at, first, encode_name(tail));
        assert(buf.subrange(at + 1, at + 1 + label.len()) =~= first.subrange(
            1,
            1 + label.len() as int,
        ));
        assert(first.subrange(1, 1 + label.len() as int) =~= label);
        lemma_name_round_trip(
            buf,
            at + 1 + label.len(),
            tail,
            (budget - 1 - label.len()) as nat,
        );
        assert(seq![label] + tail =~= name);
    }
}

} // verus!
