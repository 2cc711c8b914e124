//! # mDNS Lite - Service
//! Services that can be announced over mDNS, with their TXT records.

use vstd::prelude::*;

use crate::protocol::name::MdnsNameError;

pub mod instance;
pub mod txt_record;

pub use instance::MdnsService;
pub use txt_record::{TxtRecordError, TxtRecords};

verus! {

/// Errors that can occur while building an [`MdnsService`] or adding to its
/// TXT records.
#[derive(Clone, PartialEq, Eq, PartialOrd, Ord, Debug)]
pub enum MdnsServiceError {
    /// The TXT records already hold as many records as they can.
    TxtRecordsFull,
    /// There must be at least one instance name label.
    MissingInstanceName,
    /// An instance name label holds a `.`, a `%` or a control character.
    InvalidInstanceName(String),
    /// There must be at least one service type label.
    MissingServiceType,
    /// A service type label does not start with `_` followed by ASCII
    /// letters, digits and hyphens.
    InvalidServiceType(String),
    /// The last service type label is neither `_tcp` nor `_udp`.
    InvalidServiceProtocol(String),
    /// The service domain holds a `.`, a `%` or a control character.
    InvalidServiceDomain(String),
    /// The TXT records could not be written.
    TxtRecordError(TxtRecordError),
    /// A name could not be built.
    NameError(MdnsNameError),
}

/// What an [`MdnsServiceError`] reports, with each string taken as its
/// characters.
pub enum ServiceFault {
    /// See [`MdnsServiceError::TxtRecordsFull`].
    TxtRecordsFull,
    /// See [`MdnsServiceError::MissingInstanceName`].
    MissingInstanceName,
    /// See [`MdnsServiceError::InvalidInstanceName`].
    InvalidInstanceName(Seq<char>),
    /// See [`MdnsServiceError::MissingServiceType`].
    MissingServiceType,
    /// See [`MdnsServiceError::InvalidServiceType`].
    InvalidServiceType(Seq<char>),
    /// See [`MdnsServiceError::InvalidServiceProtocol`].
    InvalidServiceProtocol(Seq<char>),
    /// See [`MdnsServiceError::InvalidServiceDomain`].
    InvalidServiceDomain(Seq<char>),
    /// See [`MdnsServiceError::TxtRecordError`].
    TxtRecordError(TxtRecordError),
    /// See [`MdnsServiceError::NameError`].
    NameError(MdnsNameError),
}

impl View for MdnsServiceError {
    type V = ServiceFault;

    open spec fn view(&self) -> ServiceFault {
        match self {
            MdnsServiceError::TxtRecordsFull => ServiceFault::TxtRecordsFull,
            MdnsServiceError::MissingInstanceName => ServiceFault::MissingInstanceName,
            MdnsServiceError::InvalidInstanceName(s) => ServiceFault::InvalidInstanceName(s@),
            MdnsServiceError::MissingServiceType => ServiceFault::MissingServiceType,
            MdnsServiceError::InvalidServiceType(s) => ServiceFault::InvalidServiceType(s@),
            MdnsServiceError::InvalidServiceProtocol(s) => ServiceFault::InvalidServiceProtocol(s@),
            MdnsServiceError::InvalidServiceDomain(s) => ServiceFault::InvalidServiceDomain(s@),
            MdnsServiceError::TxtRecordError(e) => ServiceFault::TxtRecordError(*e),
            MdnsServiceError::NameError(e) => ServiceFault::NameError(*e),
        }
    }
}

} // verus!
