//! # mDNS Lite - Protocol
//! Construction, parsing, and validation of mDNS packets, queries, and
//! responses.

use vstd::prelude::*;

pub mod class;
pub mod flags;
pub mod header;
pub mod name;
pub mod packet;
pub mod query;
pub mod record_type;
pub mod response;
pub mod wire;

pub use class::{DnsClass, MdnsClass};
pub use flags::{MdnsFlags, MdnsOpcode, MdnsRcode, Opcode, Rcode};
pub use header::MdnsHeader;
pub use name::{MdnsName, MdnsNameError};
pub use packet::MdnsPacket;
pub use query::MdnsQuery;
pub use response::MdnsResponse;
pub use record_type::{DnsType, MdnsType};

verus! {

/// Errors that can occur while parsing an mDNS packet.
#[derive(Clone, Copy, PartialEq, Eq, Structural, PartialOrd, Ord, Debug)]
pub enum MdnsParseError {
    /// Fewer than 12 bytes remain for the header.
    HeaderTooSmall,
    /// Too few bytes remain for a query's type and class.
    MalformedQuery,
    /// Too few bytes remain for the rest of a response after its name.
    MalformedResponse,
    /// A name could not be read.
    NameError(MdnsNameError),
}

} // verus!
