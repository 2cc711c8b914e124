use vstd::prelude::*;

use super::wire::{u16_be_bytes, u16_from_be, u16_of_be, u16_to_be};

verus! {

/// The DNS record types used in mDNS: the kind of record being queried for
/// or answered.
#[derive(Clone, Copy, PartialEq, Eq, Structural, Hash, Debug)]
pub enum DnsType {
    /// IPv4 address record (A).
    A,
    /// IPv6 address record (AAAA).
    AAAA,
    /// Canonical Name record (CNAME).
    CNAME,
    /// Mail Exchange record (MX).
    MX,
    /// Pointer record (PTR).
    PTR,
    /// Start of Authority record (SOA).
    SOA,
    /// Text record (TXT).
    TXT,
    /// Service locator record (SRV).
    SRV,
    /// Any type of record (ANY).
    ANY,
    /// Unknown DNS type; holds the raw type number.
    Unknown(u16),
}

/// Name of [`DnsType`] used alongside the other `Mdns*` types.
pub type MdnsType = DnsType;

/// The record type that a type number denotes.
pub open spec fn dns_type_of(id: u16) -> DnsType {
    if id == 0x0001 {
        DnsType::A
    } else if id == 0x001c {
        DnsType::AAAA
    } else if id == 0x0005 {
        DnsType::CNAME
    } else if id == 0x000f {
        DnsType::MX
    } else if id == 0x000c {
        DnsType::PTR
    } else if id == 0x0006 {
        DnsType::SOA
    } else if id == 0x0010 {
        DnsType::TXT
    } else if id == 0x0021 {
        DnsType::SRV
    } else if id == 0x00ff {
        DnsType::ANY
    } else {
        DnsType::Unknown(id)
    }
}

/// The type number of a record type.
pub open spec fn dns_type_id(t: DnsType) -> u16 {
    match t {
        DnsType::A => 0x0001,
        DnsType::AAAA => 0x001c,
        DnsType::CNAME => 0x0005,
        DnsType::MX => 0x000f,
        DnsType::PTR => 0x000c,
        DnsType::SOA => 0x0006,
        DnsType::TXT => 0x0010,
        DnsType::SRV => 0x0021,
        DnsType::ANY => 0x00ff,
        DnsType::Unknown(v) => v,
    }
}

/// A record type that reads back unchanged from its own number: the named
/// types, and `Unknown` only with a number that no named type has.
pub open spec fn dns_type_is_canonical(t: DnsType) -> bool {
    match t {
        DnsType::Unknown(v) => dns_type_of(v) == DnsType::Unknown(v),
        _ => true,
    }
}

/// The two bytes that encode a record type on the wire.
pub open spec fn dns_type_bytes(t: DnsType) -> Seq<u8> {
    u16_be_bytes(dns_type_id(t))
}

impl DnsType {
    /// The record type that a type number denotes.
    pub fn from_id(id: u16) -> (r: DnsType)
        ensures
            r == dns_type_of(id),
    {
        if id == 0x0001 {
            DnsType::A
        } else if id == 0x001c {
            DnsType::AAAA
        } else if id == 0x0005 {
            DnsType::CNAME
        } else if id == 0x000f {
            DnsType::MX
        } else if id == 0x000c {
            DnsType::PTR
        } else if id == 0x0006 {
            DnsType::SOA
        } else if id == 0x0010 {
            DnsType::TXT
        } else if id == 0x0021 {
            DnsType::SRV
        } else if id == 0x00ff {
            DnsType::ANY
        } else {
            DnsType::Unknown(id)
        }
    }

    /// The type number of this record type.
    pub fn id(&self) -> (r: u16)
        ensures
            r == dns_type_id(*self),
    {
        match *self {
            DnsType::A => 0x0001,
            DnsType::AAAA => 0x001c,
            DnsType::CNAME => 0x0005,
            DnsType::MX => 0x000f,
            DnsType::PTR => 0x000c,
            DnsType::SOA => 0x0006,
            DnsType::TXT => 0x0010,
            DnsType::SRV => 0x0021,
            DnsType::ANY => 0x00ff,
            DnsType::Unknown(v) => v,
        }
    }

    /// The two bytes that encode this record type on the wire.
    pub fn to_be_bytes(&self) -> (r: [u8; 2])
        ensures
            r@ == dns_type_bytes(*self),
    {
        u16_to_be(self.id())
    }

    /// The record type that two wire bytes encode.
    pub fn from_be_bytes(bytes: [u8; 2]) -> (r: DnsType)
        ensures
            r == dns_type_of(u16_from_be(bytes@[0], bytes@[1])),
    {
        DnsType::from_id(u16_of_be(bytes[0], bytes[1]))
    }
}

impl From<u16> for DnsType {
    fn from(id: u16) -> (r: Self) {
        DnsType::from_id(id)
    }
}

impl vstd::std_specs::convert::FromSpecImpl<u16> for DnsType {
    open spec fn obeys_from_spec() -> bool {
        true
    }

    open spec fn from_spec(id: u16) -> Self {
        dns_type_of(id)
    }
}

impl From<DnsType> for u16 {
    fn from(t: DnsType) -> (r: Self) {
        t.id()
    }
}

impl vstd::std_specs::convert::FromSpecImpl<DnsType> for u16 {
    open spec fn obeys_from_spec() -> bool {
        true
    }

    open spec fn from_spec(t: DnsType) -> Self {
        dns_type_id(t)
    }
}

impl From<DnsType> for [u8; 2] {
    fn from(t: DnsType) -> (r: Self) {
        t.to_be_bytes()
    }
}

impl vstd::std_specs::convert::FromSpecImpl<DnsType> for [u8; 2] {
    open spec fn obeys_from_spec() -> bool {
        true
    }

    open spec fn from_spec(t: DnsType) -> Self {
        [(dns_type_id(t) / 256) as u8, (dns_type_id(t) % 256) as u8]
    }
}

impl From<[u8; 2]> for DnsType {
    fn from(bytes: [u8; 2]) -> (r: Self) {
        DnsType::from_be_bytes(bytes)
    }
}

impl vstd::std_specs::convert::FromSpecImpl<[u8; 2]> for DnsType {
    open spec fn obeys_from_spec() -> bool {
        true
    }

    open spec fn from_spec(bytes: [u8; 2]) -> Self {
        dns_type_of(u16_from_be(bytes@[0], bytes@[1]))
    }
}

/// Every type number survives being read as a record type and written back.
pub proof fn law_dns_type_id_roundtrip(id: u16)
    ensures
        dns_type_id(dns_type_of(id)) == id,
{
}

/// A canonical record type survives being written as a number and read back;
/// every record type read from a number is canonical.
pub proof fn law_dns_type_roundtrip(t: DnsType)
    ensures
        dns_type_is_canonical(t) ==> dns_type_of(dns_type_id(t)) == t,
        dns_type_is_canonical(dns_type_of(dns_type_id(t))),
{
}

/// Record types have the numbers the DNS standards assign them (A 1, CNAME
/// 5, SOA 6, PTR 12, MX 15, TXT 16, AAAA 28, SRV 33, ANY 255), in both
/// directions, and are written as those numbers, high byte first; every
/// other number is an unknown type that keeps its number.
pub proof fn law_dns_type_numbers(v: u16)
    ensures
        dns_type_id(DnsType::A) == 1 && dns_type_of(1) == DnsType::A,
        dns_type_id(DnsType::CNAME) == 5 && dns_type_of(5) == DnsType::CNAME,
        dns_type_id(DnsType::SOA) == 6 && dns_type_of(6) == DnsType::SOA,
        dns_type_id(DnsType::PTR) == 12 && dns_type_of(12) == DnsType::PTR,
        dns_type_id(DnsType::MX) == 15 && dns_type_of(15) == DnsType::MX,
        dns_type_id(DnsType::TXT) == 16 && dns_type_of(16) == DnsType::TXT,
        dns_type_id(DnsType::AAAA) == 28 && dns_type_of(28) == DnsType::AAAA,
        dns_type_id(DnsType::SRV) == 33 && dns_type_of(33) == DnsType::SRV,
        dns_type_id(DnsType::ANY) == 255 && dns_type_of(255) == DnsType::ANY,
        v != 1 && v != 5 && v != 6 && v != 12 && v != 15 && v != 16 && v != 28 && v != 33 && v
            != 255 ==> dns_type_of(v) == DnsType::Unknown(v) && dns_type_id(DnsType::Unknown(v)) == v,
        dns_type_bytes(DnsType::PTR) == seq![0x00u8, 0x0cu8],
        dns_type_bytes(DnsType::CNAME) == seq![0x00u8, 0x05u8],
        dns_type_bytes(DnsType::Unknown(v)) == seq![(v / 256) as u8, (v % 256) as u8],
{
}

} // verus!
