use vstd::prelude::*;

use super::class::{dns_class_bytes, dns_class_is_canonical, dns_class_of, law_dns_class_roundtrip, DnsClass};
use super::name::{law_name_roundtrip, name_wf, parse_name, MdnsName};
use super::record_type::{dns_type_bytes, dns_type_is_canonical, dns_type_of, law_dns_type_roundtrip, DnsType};
use super::wire::{extend_bytes, lemma_u16_be_roundtrip, u16_from_be, u16_of_be};
use super::MdnsParseError;

verus! {

/// The content of a query: the name asked about, the record type, and the
/// class.
pub struct QueryModel {
    /// The wire bytes of the name.
    pub name: Seq<u8>,
    /// The record type asked for.
    pub qtype: DnsType,
    /// The class asked for.
    pub qclass: DnsClass,
}

/// The bytes that encode a query: the name in wire format, then the type and
/// the class, two bytes each.
pub open spec fn query_bytes(q: QueryModel) -> Seq<u8> {
    q.name + dns_type_bytes(q.qtype) + dns_class_bytes(q.qclass)
}

/// A query that can be written and read back: a well-formed name and a type
/// and class that read back from their own numbers.
pub open spec fn query_model_ok(q: QueryModel) -> bool {
    name_wf(q.name) && dns_type_is_canonical(q.qtype) && dns_class_is_canonical(q.qclass)
}

/// Reading a query from `data` at position `i`: the query and the position
/// just after it, or the error met first.
pub open spec fn parse_query(data: Seq<u8>, i: int) -> Result<(QueryModel, int), MdnsParseError> {
    match parse_name(data, i) {
        Err(e) => Err(MdnsParseError::NameError(e)),
        Ok((w, j)) => if data.len() - j < 4 {
            Err(MdnsParseError::MalformedQuery)
        } else {
            Ok(
                (
                    QueryModel {
                        name: w,
                        qtype: dns_type_of(u16_from_be(data[j], data[j + 1])),
                        qclass: dns_class_of(u16_from_be(data[j + 2], data[j + 3])),
                    },
                    j + 4,
                ),
            )
        },
    }
}

/// An mDNS query: the name, record type and class being asked about.
#[derive(PartialEq, Eq, Hash, Debug)]
pub struct MdnsQuery {
    name: MdnsName,
    query_type: DnsType,
    query_class: DnsClass,
}

impl View for MdnsQuery {
    type V = QueryModel;

    closed spec fn view(&self) -> QueryModel {
        QueryModel { name: self.name@, qtype: self.query_type, qclass: self.query_class }
    }
}

impl Clone for MdnsQuery {
    fn clone(&self) -> (r: Self)
        ensures
            r@ == self@,
    {
        MdnsQuery { name: self.name.clone(), query_type: self.query_type, query_class: self.query_class }
    }
}

impl MdnsQuery {
    /// Creates a new [`MdnsQuery`].
    pub fn new(name: MdnsName, query_type: DnsType, query_class: DnsClass) -> (r: Self)
        ensures
            r@ == (QueryModel { name: name@, qtype: query_type, qclass: query_class }),
    {
        MdnsQuery { name, query_type, query_class }
    }

    /// Reads a query from `bytes` at `*offset`.
    ///
    /// On success the offset moves just past the query; on failure it is
    /// left unchanged.
    pub fn from_bytes(bytes: &[u8], offset: &mut usize) -> (r: Result<Self, MdnsParseError>)
        requires
            *old(offset) <= bytes@.len(),
        ensures
            match parse_query(bytes@, *old(offset) as int) {
                Ok((q, end)) => r matches Ok(x) && x@ == q && *final(offset) == end,
                Err(e) => r == Err::<Self, MdnsParseError>(e) && *final(offset) == *old(offset),
            },
            *old(offset) <= *final(offset) <= bytes@.len(),
    {
        let mut i: usize = *offset;
        let name = match MdnsName::from_wire_format(bytes, &mut i) {
            Ok(name) => name,
            Err(error) => return Err(MdnsParseError::NameError(error)),
        };
        if bytes.len() - i < 4 {
            return Err(MdnsParseError::MalformedQuery);
        }
        let query_type = DnsType::from_id(u16_of_be(bytes[i], bytes[i + 1]));
        let query_class = DnsClass::from_id(u16_of_be(bytes[i + 2], bytes[i + 3]));
        *offset = i + 4;
        Ok(MdnsQuery { name, query_type, query_class })
    }

    /// Converts the query to raw bytes.
    pub fn to_bytes(&self) -> (r: Vec<u8>)
        ensures
            r@ == query_bytes(self@),
            name_wf(self@.name),
    {
        let mut buffer: Vec<u8> = Vec::new();
        self.to_bytes_extend(&mut buffer);
        assert(buffer@ =~= query_bytes(self@));
        buffer
    }

    /// Appends the raw bytes of the query to `buffer`.
    pub fn to_bytes_extend(&self, buffer: &mut Vec<u8>)
        ensures
            final(buffer)@ == old(buffer)@ + query_bytes(self@),
            name_wf(self@.name),
    {
        extend_bytes(buffer, self.name.to_wire_format());
        let t = self.query_type.to_be_bytes();
        extend_bytes(buffer, t.as_slice());
        let c = self.query_class.to_be_bytes();
        extend_bytes(buffer, c.as_slice());
        assert(final(buffer)@ =~= old(buffer)@ + query_bytes(self@));
    }

    /// Returns the name being queried.
    pub fn name(&self) -> (r: &MdnsName)
        ensures
            r@ == self@.name,
    {
        &self.name
    }

    /// Returns the query [`DnsType`].
    pub fn query_type(&self) -> (r: DnsType)
        ensures
            r == self@.qtype,
    {
        self.query_type
    }

    /// Returns the query [`DnsClass`].
    pub fn query_class(&self) -> (r: DnsClass)
        ensures
            r == self@.qclass,
    {
        self.query_class
    }
}

/// A query written to bytes reads back as the same query wherever it
/// stands, and the read stops right after it.
pub proof fn law_query_roundtrip(q: QueryModel, prefix: Seq<u8>, rest: Seq<u8>)
    requires
        query_model_ok(q),
    ensures
        parse_query(prefix + query_bytes(q) + rest, prefix.len() as int) == Ok::<
            (QueryModel, int),
            MdnsParseError,
        >((q, (prefix.len() + query_bytes(q).len()) as int)),
{
    let tail = dns_type_bytes(q.qtype) + dns_class_bytes(q.qclass) + rest;
    let data = prefix + query_bytes(q) + rest;
    assert(data =~= prefix + q.name + tail);
    law_name_roundtrip(q.name, prefix, tail);
    let j = (prefix.len() + q.name.len()) as int;
    assert(data[j] == dns_type_bytes(q.qtype)[0]);
    assert(data[j + 1] == dns_type_bytes(q.qtype)[1]);
    assert(data[j + 2] == dns_class_bytes(q.qclass)[0]);
    assert(data[j + 3] == dns_class_bytes(q.qclass)[1]);
    lemma_u16_be_roundtrip(super::record_type::dns_type_id(q.qtype));
    lemma_u16_be_roundtrip(super::class::dns_class_id(q.qclass));
    law_dns_type_roundtrip(q.qtype);
    law_dns_class_roundtrip(q.qclass);
}

} // verus!
