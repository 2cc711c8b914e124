//! # mDNS Lite
//! A lightweight implementation of Multicast DNS (mDNS): construction,
//! parsing and validation of mDNS packets, and service descriptions that
//! can be announced on a local network.

pub mod dns;
pub mod protocol;
pub mod responder;
pub mod service;
pub mod text;

pub use dns::{DnsName, DnsNameError, Query, Response};
pub use protocol::{
    DnsClass, DnsType, MdnsClass, MdnsFlags, MdnsHeader, MdnsName, MdnsNameError, MdnsOpcode,
    MdnsPacket, MdnsParseError, MdnsQuery, MdnsRcode, MdnsResponse, MdnsType, Opcode, Rcode,
};
pub use service::{MdnsService, MdnsServiceError, TxtRecordError, TxtRecords};
pub use responder::{MdnsAnswerError, ServiceRegistry};
