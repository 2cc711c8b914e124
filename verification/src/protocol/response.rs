use vstd::prelude::*;

use super::class::{dns_class_bytes, dns_class_id, dns_class_is_canonical, dns_class_of, law_dns_class_roundtrip, DnsClass};
use super::name::{law_name_roundtrip, name_wf, parse_name, MdnsName};
use super::record_type::{dns_type_bytes, dns_type_id, dns_type_is_canonical, dns_type_of, law_dns_type_roundtrip, DnsType};
use super::wire::{
    extend_bytes, lemma_u16_be_roundtrip, lemma_u32_be_roundtrip, u16_be_bytes, u16_from_be,
    u16_of_be, u16_to_be, u32_be_bytes, u32_from_be, u32_of_be, u32_to_be,
};
use super::MdnsParseError;

use crate::service::txt_record::{txt_entries_fit, txt_wire, TxtRecordError, TxtRecords};

verus! {

/// The largest number of data bytes a response can carry.
pub const MAX_DATA_LENGTH: usize = 65535;

/// The content of a response record.
pub struct ResponseModel {
    /// The wire bytes of the name.
    pub name: Seq<u8>,
    /// The record type.
    pub rtype: DnsType,
    /// The class.
    pub rclass: DnsClass,
    /// The time to live.
    pub ttl: u32,
    /// The record data.
    pub data: Seq<u8>,
}

/// The bytes that encode a response: the name in wire format, the type and
/// class (two bytes each), the time to live (four bytes), the data length
/// (two bytes), then the data.
pub open spec fn response_bytes(r: ResponseModel) -> Seq<u8> {
    r.name + dns_type_bytes(r.rtype) + dns_class_bytes(r.rclass) + u32_be_bytes(r.ttl)
        + u16_be_bytes(r.data.len() as u16) + r.data
}

/// A response that can be written and read back: a well-formed name, a type
/// and class that read back from their own numbers, and at most 65535 data
/// bytes.
pub open spec fn response_model_ok(r: ResponseModel) -> bool {
    &&& name_wf(r.name)
    &&& dns_type_is_canonical(r.rtype)
    &&& dns_class_is_canonical(r.rclass)
    &&& r.data.len() <= 65535
}

/// Reading a response from `data` at position `i`: the response and the
/// position just after it, or the error met first.
pub open spec fn parse_response(data: Seq<u8>, i: int) -> Result<
    (ResponseModel, int),
    MdnsParseError,
> {
    match parse_name(data, i) {
        Err(e) => Err(MdnsParseError::NameError(e)),
        Ok((w, j)) => if data.len() - j < 10 {
            Err(MdnsParseError::MalformedResponse)
        } else {
            let dl = u16_from_be(data[j + 8], data[j + 9]) as int;
            let k = j + 10;
            if dl > 0 && data.len() - k < dl {
                Err(MdnsParseError::MalformedResponse)
            } else {
                Ok(
                    (
                        ResponseModel {
                            name: w,
                            rtype: dns_type_of(u16_from_be(data[j], data[j + 1])),
                            rclass: dns_class_of(u16_from_be(data[j + 2], data[j + 3])),
                            ttl: u32_from_be(data[j + 4], data[j + 5], data[j + 6], data[j + 7]),
                            data: data.subrange(k, k + dl),
                        },
                        k + dl,
                    ),
                )
            }
        },
    }
}

/// The data of an SRV record: priority, weight and port (two bytes each),
/// then the target host name.
pub open spec fn srv_data(priority: u16, weight: u16, port: u16, hostname: Seq<u8>) -> Seq<u8> {
    u16_be_bytes(priority) + u16_be_bytes(weight) + u16_be_bytes(port) + hostname
}

/// An mDNS response record.
///
/// It carries at most 65535 data bytes.
#[derive(PartialEq, Eq, Hash, Debug)]
pub struct MdnsResponse {
    name: MdnsName,
    response_type: DnsType,
    response_class: DnsClass,
    ttl: u32,
    data: Vec<u8>,
}

impl View for MdnsResponse {
    type V = ResponseModel;

    closed spec fn view(&self) -> ResponseModel {
        ResponseModel {
            name: self.name@,
            rtype: self.response_type,
            rclass: self.response_class,
            ttl: self.ttl,
            data: self.data@,
        }
    }
}

impl Clone for MdnsResponse {
    fn clone(&self) -> (r: Self)
        ensures
            r@ == self@,
    {
        proof {
            use_type_invariant(self);
        }
        let data = self.data.clone();
        assert(data@ =~= self.data@);
        MdnsResponse {
            name: self.name.clone(),
            response_type: self.response_type,
            response_class: self.response_class,
            ttl: self.ttl,
            data,
        }
    }
}

impl MdnsResponse {
    /// Maximum length of the data.
    pub const MAX_DATA_LENGTH: usize = 65535;

    #[verifier::type_invariant]
    spec fn data_fits(self) -> bool {
        self.data@.len() <= 65535
    }

    /// Creates a new [`MdnsResponse`].
    pub fn new(
        name: MdnsName,
        response_type: DnsType,
        response_class: DnsClass,
        ttl: u32,
        data: Vec<u8>,
    ) -> (r: Self)
        requires
            data@.len() <= 65535,
        ensures
            r@ == (ResponseModel {
                name: name@,
                rtype: response_type,
                rclass: response_class,
                ttl,
                data: data@,
            }),
    {
        MdnsResponse { name, response_type, response_class, ttl, data }
    }

    /// Reads a response from `bytes` at `*offset`.
    ///
    /// On success the offset moves just past the response; on failure it is
    /// left unchanged.
    pub fn from_bytes(bytes: &[u8], offset: &mut usize) -> (r: Result<Self, MdnsParseError>)
        requires
            *old(offset) <= bytes@.len(),
        ensures
            match parse_response(bytes@, *old(offset) as int) {
                Ok((x, end)) => r matches Ok(y) && y@ == x && *final(offset) == end,
                Err(e) => r == Err::<Self, MdnsParseError>(e) && *final(offset) == *old(offset),
            },
            *old(offset) <= *final(offset) <= bytes@.len(),
    {
        let mut i: usize = *offset;
        let name = match MdnsName::from_wire_format(bytes, &mut i) {
            Ok(name) => name,
            Err(error) => return Err(MdnsParseError::NameError(error)),
        };
        if bytes.len() - i < 10 {
            return Err(MdnsParseError::MalformedResponse);
        }
        let response_type = DnsType::from_id(u16_of_be(bytes[i], bytes[i + 1]));
        let response_class = DnsClass::from_id(u16_of_be(bytes[i + 2], bytes[i + 3]));
        let ttl = u32_of_be(bytes[i + 4], bytes[i + 5], bytes[i + 6], bytes[i + 7]);
        let data_length = u16_of_be(bytes[i + 8], bytes[i + 9]) as usize;
        i = i + 10;
        let data: Vec<u8> = if data_length > 0 {
            if bytes.len() - i < data_length {
                return Err(MdnsParseError::MalformedResponse);
            }
            let mut d: Vec<u8> = Vec::new();
            extend_bytes(&mut d, &bytes[i..(i + data_length)]);
            i = i + data_length;
            d
        } else {
            let d: Vec<u8> = Vec::new();
            assert(d@ =~= bytes@.subrange(i as int, i as int));
            d
        };
        *offset = i;
        Ok(MdnsResponse { name, response_type, response_class, ttl, data })
    }

    /// Converts the response to raw bytes.
    pub fn to_bytes(&self) -> (r: Vec<u8>)
        ensures
            r@ == response_bytes(self@),
            response_model_data_ok(self@),
    {
        let mut buffer: Vec<u8> = Vec::new();
        self.to_bytes_extend(&mut buffer);
        assert(buffer@ =~= response_bytes(self@));
        buffer
    }

    /// Appends the raw bytes of the response to `buffer`.
    pub fn to_bytes_extend(&self, buffer: &mut Vec<u8>)
        ensures
            final(buffer)@ == old(buffer)@ + response_bytes(self@),
            response_model_data_ok(self@),
    {
        proof {
            use_type_invariant(self);
        }
        extend_bytes(buffer, self.name.to_wire_format());
        let t = self.response_type.to_be_bytes();
        extend_bytes(buffer, t.as_slice());
        let c = self.response_class.to_be_bytes();
        extend_bytes(buffer, c.as_slice());
        let ttl = u32_to_be(self.ttl);
        extend_bytes(buffer, ttl.as_slice());
        let len = u16_to_be(self.data.len() as u16);
        extend_bytes(buffer, len.as_slice());
        extend_bytes(buffer, self.data.as_slice());
        assert(final(buffer)@ =~= old(buffer)@ + response_bytes(self@));
    }

    /// Creates a new A record: the IPv4 address of `name`.
    pub fn new_a(name: MdnsName, ttl: u32, ipv4_bytes: Vec<u8>) -> (r: Self)
        requires
            ipv4_bytes@.len() == 4,
        ensures
            r@ == (ResponseModel {
                name: name@,
                rtype: DnsType::A,
                rclass: DnsClass::IN,
                ttl,
                data: ipv4_bytes@,
            }),
    {
        MdnsResponse {
            name,
            response_type: DnsType::A,
            response_class: DnsClass::IN,
            ttl,
            data: ipv4_bytes,
        }
    }

    /// Creates a new AAAA record: the IPv6 address of `name`.
    pub fn new_aaaa(name: MdnsName, ttl: u32, ipv6_bytes: Vec<u8>) -> (r: Self)
        requires
            ipv6_bytes@.len() == 16,
        ensures
            r@ == (ResponseModel {
                name: name@,
                rtype: DnsType::AAAA,
                rclass: DnsClass::IN,
                ttl,
                data: ipv6_bytes@,
            }),
    {
        MdnsResponse {
            name,
            response_type: DnsType::AAAA,
            response_class: DnsClass::IN,
            ttl,
            data: ipv6_bytes,
        }
    }

    /// Creates a new SRV record: the priority, weight, port and target host
    /// of the service named `name`.
    pub fn new_srv(
        name: MdnsName,
        ttl: u32,
        priority: u16,
        weight: u16,
        port: u16,
        hostname_bytes: &[u8],
    ) -> (r: Self)
        requires
            6 + hostname_bytes@.len() <= 65535,
        ensures
            r@ == (ResponseModel {
                name: name@,
                rtype: DnsType::SRV,
                rclass: DnsClass::IN,
                ttl,
                data: srv_data(priority, weight, port, hostname_bytes@),
            }),
    {
        let mut data: Vec<u8> = Vec::new();
        let p = u16_to_be(priority);
        extend_bytes(&mut data, p.as_slice());
        let w = u16_to_be(weight);
        extend_bytes(&mut data, w.as_slice());
        let o = u16_to_be(port);
        extend_bytes(&mut data, o.as_slice());
        extend_bytes(&mut data, hostname_bytes);
        assert(data@ =~= srv_data(priority, weight, port, hostname_bytes@));
        MdnsResponse {
            name,
            response_type: DnsType::SRV,
            response_class: DnsClass::IN,
            ttl,
            data,
        }
    }

    /// Creates a new TXT record: the TXT records of the service named
    /// `name`, in wire format.
    ///
    /// Fails with `EntryTooLong` when a record's `key=value` text is longer
    /// than 255 bytes.
    pub fn new_txt(name: MdnsName, ttl: u32, txt_records: &TxtRecords) -> (r: Result<Self, TxtRecordError>)
        ensures
            r is Ok <==> txt_entries_fit(txt_records@),
            r matches Ok(x) ==> x@ == (ResponseModel {
                name: name@,
                rtype: DnsType::TXT,
                rclass: DnsClass::IN,
                ttl,
                data: txt_wire(txt_records@),
            }),
            r matches Err(e) ==> e == TxtRecordError::EntryTooLong,
    {
        let data = match txt_records.to_wire_format() {
            Ok(data) => data,
            Err(e) => return Err(e),
        };
        Ok(MdnsResponse {
            name,
            response_type: DnsType::TXT,
            response_class: DnsClass::IN,
            ttl,
            data,
        })
    }

    /// Returns the name associated with this response.
    pub fn name(&self) -> (r: &MdnsName)
        ensures
            r@ == self@.name,
    {
        &self.name
    }

    /// Returns the type of the response.
    pub fn response_type(&self) -> (r: &DnsType)
        ensures
            *r == self@.rtype,
    {
        &self.response_type
    }

    /// Returns the class of the response.
    pub fn response_class(&self) -> (r: &DnsClass)
        ensures
            *r == self@.rclass,
    {
        &self.response_class
    }

    /// Returns the time to live of this response.
    pub fn ttl(&self) -> (r: u32)
        ensures
            r == self@.ttl,
    {
        self.ttl
    }

    /// Returns the number of data bytes of this response.
    pub fn data_length(&self) -> (r: u16)
        ensures
            r as int == self@.data.len(),
    {
        proof {
            use_type_invariant(self);
        }
        self.data.len() as u16
    }

    /// Returns the data of the response.
    pub fn data(&self) -> (r: &Vec<u8>)
        ensures
            r@ == self@.data,
    {
        &self.data
    }

    /// Sets the time to live of this response.
    pub fn set_ttl(&mut self, ttl: u32)
        ensures
            final(self)@ == (ResponseModel { ttl, ..old(self)@ }),
    {
        proof {
            use_type_invariant(&*self);
        }
        self.ttl = ttl;
    }

    /// Sets the data of this response.
    pub fn set_data(&mut self, data: Vec<u8>)
        requires
            data@.len() <= 65535,
        ensures
            final(self)@ == (ResponseModel { data: data@, ..old(self)@ }),
    {
        self.data = data;
    }
}

/// The facts every response value holds: a well-formed name and at most
/// 65535 data bytes.
pub open spec fn response_model_data_ok(r: ResponseModel) -> bool {
    name_wf(r.name) && r.data.len() <= 65535
}

/// A response written to bytes reads back as the same response wherever it
/// stands, and the read stops right after it.
pub proof fn law_response_roundtrip(r: ResponseModel, prefix: Seq<u8>, rest: Seq<u8>)
    requires
        response_model_ok(r),
    ensures
        parse_response(prefix + response_bytes(r) + rest, prefix.len() as int) == Ok::<
            (ResponseModel, int),
            MdnsParseError,
        >((r, (prefix.len() + response_bytes(r).len()) as int)),
{
    let dl = r.data.len();
    let tail = dns_type_bytes(r.rtype) + dns_class_bytes(r.rclass) + u32_be_bytes(r.ttl)
        + u16_be_bytes(dl as u16) + r.data + rest;
    let data = prefix + response_bytes(r) + rest;
    assert(data =~= prefix + r.name + tail);
    law_name_roundtrip(r.name, prefix, tail);
    let j = (prefix.len() + r.name.len()) as int;
    assert(data[j] == dns_type_bytes(r.rtype)[0]);
    assert(data[j + 1] == dns_type_bytes(r.rtype)[1]);
    assert(data[j + 2] == dns_class_bytes(r.rclass)[0]);
    assert(data[j + 3] == dns_class_bytes(r.rclass)[1]);
    assert(data[j + 4] == u32_be_bytes(r.ttl)[0]);
    assert(data[j + 5] == u32_be_bytes(r.ttl)[1]);
    assert(data[j + 6] == u32_be_bytes(r.ttl)[2]);
    assert(data[j + 7] == u32_be_bytes(r.ttl)[3]);
    assert(data[j + 8] == u16_be_bytes(dl as u16)[0]);
    assert(data[j + 9] == u16_be_bytes(dl as u16)[1]);
    lemma_u16_be_roundtrip(dns_type_id(r.rtype));
    lemma_u16_be_roundtrip(dns_class_id(r.rclass));
    lemma_u32_be_roundtrip(r.ttl);
    lemma_u16_be_roundtrip(dl as u16);
    law_dns_type_roundtrip(r.rtype);
    law_dns_class_roundtrip(r.rclass);
    assert(data.subrange(j + 10, j + 10 + dl) =~= r.data);
}

} // verus!
