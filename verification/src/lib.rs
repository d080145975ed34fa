//! A codec for the DNS message wire format.
//!
//! Decoding turns one datagram payload into a [`Message`]; encoding turns a
//! [`Message`] back into the exact bytes of the wire layout. Every function is
//! pure: the only state is the offset that the decoding functions take and
//! hand back.

pub mod error;
pub mod flags;
pub mod header;
pub mod laws;
pub mod message;
pub mod name;
pub mod parser;
pub mod record;
pub mod wire;

pub use error::{ErrorKind, MalformedMessage, Stage};
pub use flags::Flags;
pub use header::Header;
pub use message::{Message, create_message};
pub use name::DomainName;
pub use parser::{parse_flags, parse_header, parse_message, parse_question, parse_questions};
pub use record::{Answer, Question};
