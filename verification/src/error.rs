//! What can go wrong while decoding or encoding, and where.

use vstd::prelude::*;

verus! {

/// The kinds of fault that the codec tells apart.
#[derive(Clone, Copy, Debug, PartialEq, Eq, Structural)]
pub enum ErrorKind {
    /// Fewer bytes are left than a field of fixed size needs.
    Truncated,
    /// A length prefix claims more data than the buffer still holds.
    DeclaredLengthExceedsBuffer,
    /// A compression pointer that does not point strictly backward, a
    /// length octet with a reserved bit pattern, or a chain of pointers that
    /// reads more label bytes than the buffer holds.
    InvalidPointer,
    /// The reserved bits of the flags were set on the wire. Decoding clears
    /// them and goes on.
    ReservedBitsViolation,
    /// The operation code is not the standard query. Decoding goes on and
    /// sets the response code to "not implemented".
    UnsupportedOperationCode,
    /// The data of a record is too long for its 16-bit length field.
    RecordTooLarge,
    /// A section has more entries than its 16-bit count can state.
    SectionTooLarge,
    /// The datagram is longer than the largest payload the codec accepts.
    PayloadTooLarge,
}

/// The part of a message that was being decoded.
#[derive(Clone, Copy, Debug, PartialEq, Eq, Structural)]
pub enum Stage {
    Header,
    Question,
    Answer,
    Authority,
    Additional,
}

/// A decoding failure: what went wrong, in which part of the message, and
/// at which byte offset of the buffer.
#[derive(Clone, Copy, Debug, PartialEq, Eq, Structural)]
pub struct MalformedMessage {
    pub kind: ErrorKind,
    pub stage: Stage,
    pub offset: usize,
}

/// A failure as the decoding models state it: the offset is a mathematical
/// integer, and the stage is added by the function that knows it.
pub type Fault = (ErrorKind, int);

/// The failure that a decoding function reports for a fault of the model.
pub open spec fn malformed(fault: Fault, stage: Stage) -> MalformedMessage {
    MalformedMessage { kind: fault.0, stage, offset: fault.1 as usize }
}

} // verus!
