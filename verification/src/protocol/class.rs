use vstd::prelude::*;

use super::wire::{u16_be_bytes, u16_from_be, u16_of_be, u16_to_be};

verus! {

/// The DNS classes used in mDNS.
#[derive(Clone, Copy, PartialEq, Eq, Structural, Hash, Debug)]
pub enum DnsClass {
    /// Internet (IN): the standard Internet query class.
    IN,
    /// Chaos (CH).
    CH,
    /// Hesiod (HS).
    HS,
    /// Any class (ANY): a wildcard query for any class.
    ANY,
    /// Unknown DNS class; holds the raw class number.
    Unknown(u16),
}

/// Name of [`DnsClass`] used alongside the other `Mdns*` types.
pub type MdnsClass = DnsClass;

/// The class that a class number denotes.
pub open spec fn dns_class_of(id: u16) -> DnsClass {
    if id == 0x0001 {
        DnsClass::IN
    } else if id == 0x0003 {
        DnsClass::CH
    } else if id == 0x0004 {
        DnsClass::HS
    } else if id == 0x00ff {
        DnsClass::ANY
    } else {
        DnsClass::Unknown(id)
    }
}

/// The class number of a class.
pub open spec fn dns_class_id(c: DnsClass) -> u16 {
    match c {
        DnsClass::IN => 0x0001,
        DnsClass::CH => 0x0003,
        DnsClass::HS => 0x0004,
        DnsClass::ANY => 0x00ff,
        DnsClass::Unknown(v) => v,
    }
}

/// A class that reads back unchanged from its own number.
pub open spec fn dns_class_is_canonical(c: DnsClass) -> bool {
    match c {
        DnsClass::Unknown(v) => dns_class_of(v) == DnsClass::Unknown(v),
        _ => true,
    }
}

/// The two bytes that encode a class on the wire.
pub open spec fn dns_class_bytes(c: DnsClass) -> Seq<u8> {
    u16_be_bytes(dns_class_id(c))
}

impl DnsClass {
    /// The class that a class number denotes.
    pub fn from_id(id: u16) -> (r: DnsClass)
        ensures
            r == dns_class_of(id),
    {
        if id == 0x0001 {
            DnsClass::IN
        } else if id == 0x0003 {
            DnsClass::CH
        } else if id == 0x0004 {
            DnsClass::HS
        } else if id == 0x00ff {
            DnsClass::ANY
        } else {
            DnsClass::Unknown(id)
        }
    }

    /// The class number of this class.
    pub fn id(&self) -> (r: u16)
        ensures
            r == dns_class_id(*self),
    {
        match *self {
            DnsClass::IN => 0x0001,
            DnsClass::CH => 0x0003,
            DnsClass::HS => 0x0004,
            DnsClass::ANY => 0x00ff,
            DnsClass::Unknown(v) => v,
        }
    }

    /// The two bytes that encode this class on the wire.
    pub fn to_be_bytes(&self) -> (r: [u8; 2])
        ensures
            r@ == dns_class_bytes(*self),
    {
        u16_to_be(self.id())
    }

    /// The class that two wire bytes encode.
    pub fn from_be_bytes(bytes: [u8; 2]) -> (r: DnsClass)
        ensures
            r == dns_class_of(u16_from_be(bytes@[0], bytes@[1])),
    {
        DnsClass::from_id(u16_of_be(bytes[0], bytes[1]))
    }
}

impl From<u16> for DnsClass {
    fn from(id: u16) -> (r: Self) {
        DnsClass::from_id(id)
    }
}

impl vstd::std_specs::convert::FromSpecImpl<u16> for DnsClass {
    open spec fn obeys_from_spec() -> bool {
        true
    }

    open spec fn from_spec(id: u16) -> Self {
        dns_class_of(id)
    }
}

impl From<DnsClass> for u16 {
    fn from(c: DnsClass) -> (r: Self) {
        c.id()
    }
}

impl vstd::std_specs::convert::FromSpecImpl<DnsClass> for u16 {
    open spec fn obeys_from_spec() -> bool {
        true
    }

    open spec fn from_spec(c: DnsClass) -> Self {
        dns_class_id(c)
    }
}

impl From<DnsClass> for [u8; 2] {
    fn from(c: DnsClass) -> (r: Self) {
        c.to_be_bytes()
    }
}

impl vstd::std_specs::convert::FromSpecImpl<DnsClass> for [u8; 2] {
    open spec fn obeys_from_spec() -> bool {
        true
    }

    open spec fn from_spec(c: DnsClass) -> Self {
        [(dns_class_id(c) / 256) as u8, (dns_class_id(c) % 256) as u8]
    }
}

impl From<[u8; 2]> for DnsClass {
    fn from(bytes: [u8; 2]) -> (r: Self) {
        DnsClass::from_be_bytes(bytes)
    }
}

impl vstd::std_specs::convert::FromSpecImpl<[u8; 2]> for DnsClass {
    open spec fn obeys_from_spec() -> bool {
        true
    }

    open spec fn from_spec(bytes: [u8; 2]) -> Self {
        dns_class_of(u16_from_be(bytes@[0], bytes@[1]))
    }
}

/// Every class number survives being read as a class and written back.
pub proof fn law_dns_class_id_roundtrip(id: u16)
    ensures
        dns_class_id(dns_class_of(id)) == id,
{
}

/// A canonical class survives being written as a number and read back;
/// every class read from a number is canonical.
pub proof fn law_dns_class_roundtrip(c: DnsClass)
    ensures
        dns_class_is_canonical(c) ==> dns_class_of(dns_class_id(c)) == c,
        dns_class_is_canonical(dns_class_of(dns_class_id(c))),
{
}

/// Classes have the numbers the DNS standards assign them (IN 1, CH 3, HS
/// 4, ANY 255), in both directions; every other number is an unknown class
/// that keeps its number.
pub proof fn law_dns_class_numbers(v: u16)
    ensures
        dns_class_id(DnsClass::IN) == 1 && dns_class_of(1) == DnsClass::IN,
        dns_class_id(DnsClass::CH) == 3 && dns_class_of(3) == DnsClass::CH,
        dns_class_id(DnsClass::HS) == 4 && dns_class_of(4) == DnsClass::HS,
        dns_class_id(DnsClass::ANY) == 255 && dns_class_of(255) == DnsClass::ANY,
        v != 1 && v != 3 && v != 4 && v != 255 ==> dns_class_of(v) == DnsClass::Unknown(v)
            && dns_class_id(DnsClass::Unknown(v)) == v,
{
}

} // verus!
