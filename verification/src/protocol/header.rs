use vstd::prelude::*;

use super::flags::MdnsFlags;
use super::wire::{lemma_u16_be_roundtrip, u16_be_bytes, u16_from_be, u16_of_be, u16_to_be};
use super::MdnsParseError;

verus! {

/// The exact size of an mDNS header in bytes.
pub const MDNS_HEADER_SIZE: usize = 12;

/// The six 16-bit fields of an mDNS header.
pub struct HeaderFields {
    /// Transaction ID.
    pub id: u16,
    /// The flags word.
    pub flags: u16,
    /// QDCOUNT: number of question records.
    pub questions: u16,
    /// ANCOUNT: number of answer records.
    pub answers: u16,
    /// NSCOUNT: number of authority records.
    pub authorities: u16,
    /// ARCOUNT: number of additional records.
    pub additionals: u16,
}

/// The 12 bytes that encode a header, each field big-endian, in the order
/// ID, flags, QDCOUNT, ANCOUNT, NSCOUNT, ARCOUNT.
pub open spec fn header_bytes(h: HeaderFields) -> Seq<u8> {
    u16_be_bytes(h.id) + u16_be_bytes(h.flags) + u16_be_bytes(h.questions) + u16_be_bytes(
        h.answers,
    ) + u16_be_bytes(h.authorities) + u16_be_bytes(h.additionals)
}

/// The header fields that the 12 bytes of `data` starting at `i` encode.
pub open spec fn header_fields_at(data: Seq<u8>, i: int) -> HeaderFields {
    HeaderFields {
        id: u16_from_be(data[i], data[i + 1]),
        flags: u16_from_be(data[i + 2], data[i + 3]),
        questions: u16_from_be(data[i + 4], data[i + 5]),
        answers: u16_from_be(data[i + 6], data[i + 7]),
        authorities: u16_from_be(data[i + 8], data[i + 9]),
        additionals: u16_from_be(data[i + 10], data[i + 11]),
    }
}

/// Reading a header from `data` at position `i`: the header and the position
/// just after it, or `HeaderTooSmall` when fewer than 12 bytes remain.
pub open spec fn parse_header(data: Seq<u8>, i: int) -> Result<
    (HeaderFields, int),
    MdnsParseError,
> {
    if data.len() - i < 12 {
        Err(MdnsParseError::HeaderTooSmall)
    } else {
        Ok((header_fields_at(data, i), i + 12))
    }
}

/// The header of an mDNS packet: the transaction ID, the flags, and the
/// number of records in each of the four sections.
///
/// The total size of an mDNS header on the wire is 12 bytes.
#[derive(Clone, Copy, PartialEq, Eq, Hash, Default, Debug)]
pub struct MdnsHeader {
    id: u16,
    flags: MdnsFlags,
    total_question_records: u16,
    total_answer_records: u16,
    total_authority_records: u16,
    total_additional_records: u16,
}

impl View for MdnsHeader {
    type V = HeaderFields;

    closed spec fn view(&self) -> HeaderFields {
        HeaderFields {
            id: self.id,
            flags: self.flags@,
            questions: self.total_question_records,
            answers: self.total_answer_records,
            authorities: self.total_authority_records,
            additionals: self.total_additional_records,
        }
    }
}

impl MdnsHeader {
    /// Creates a new [`MdnsHeader`].
    pub fn new(
        id: u16,
        flags: MdnsFlags,
        total_question_records: u16,
        total_answer_records: u16,
        total_authority_records: u16,
        total_additional_records: u16,
    ) -> (r: Self)
        ensures
            r@ == (HeaderFields {
                id,
                flags: flags@,
                questions: total_question_records,
                answers: total_answer_records,
                authorities: total_authority_records,
                additionals: total_additional_records,
            }),
    {
        MdnsHeader {
            id,
            flags,
            total_question_records,
            total_answer_records,
            total_authority_records,
            total_additional_records,
        }
    }

    /// Creates a new empty [`MdnsHeader`]: empty flags and zero records.
    pub fn new_empty(id: u16) -> (r: Self)
        ensures
            r@ == (HeaderFields {
                id,
                flags: 0,
                questions: 0,
                answers: 0,
                authorities: 0,
                additionals: 0,
            }),
    {
        MdnsHeader {
            id,
            flags: MdnsFlags::empty(),
            total_question_records: 0,
            total_answer_records: 0,
            total_authority_records: 0,
            total_additional_records: 0,
        }
    }

    /// Returns the ID of the transaction that the header belongs to.
    pub fn id(&self) -> (r: u16)
        ensures
            r == self@.id,
    {
        self.id
    }

    /// Overwrites the transaction ID.
    pub fn set_id(&mut self, id: u16)
        ensures
            final(self)@ == (HeaderFields { id, ..old(self)@ }),
    {
        self.id = id;
    }

    /// Returns the [`MdnsFlags`].
    pub fn flags(&self) -> (r: MdnsFlags)
        ensures
            r@ == self@.flags,
    {
        self.flags
    }

    /// Overwrites the [`MdnsFlags`].
    pub fn set_flags(&mut self, flags: MdnsFlags)
        ensures
            final(self)@ == (HeaderFields { flags: flags@, ..old(self)@ }),
    {
        self.flags = flags;
    }

    /// Returns the number of question records the packet is expected to hold.
    pub fn total_question_records(&self) -> (r: u16)
        ensures
            r == self@.questions,
    {
        self.total_question_records
    }

    /// Overwrites the number of question records.
    pub(crate) fn set_total_question_records(&mut self, total: u16)
        ensures
            final(self)@ == (HeaderFields { questions: total, ..old(self)@ }),
    {
        self.total_question_records = total;
    }

    /// Returns the number of answer records the packet is expected to hold.
    pub fn total_answer_records(&self) -> (r: u16)
        ensures
            r == self@.answers,
    {
        self.total_answer_records
    }

    /// Overwrites the number of answer records.
    pub(crate) fn set_total_answer_records(&mut self, total: u16)
        ensures
            final(self)@ == (HeaderFields { answers: total, ..old(self)@ }),
    {
        self.total_answer_records = total;
    }

    /// Returns the number of authority records the packet is expected to hold.
    pub fn total_authority_records(&self) -> (r: u16)
        ensures
            r == self@.authorities,
    {
        self.total_authority_records
    }

    /// Overwrites the number of authority records.
    pub(crate) fn set_total_authority_records(&mut self, total: u16)
        ensures
            final(self)@ == (HeaderFields { authorities: total, ..old(self)@ }),
    {
        self.total_authority_records = total;
    }

    /// Returns the number of additional records the packet is expected to
    /// hold.
    pub fn total_additional_records(&self) -> (r: u16)
        ensures
            r == self@.additionals,
    {
        self.total_additional_records
    }

    /// Overwrites the number of additional records.
    pub(crate) fn set_total_additional_records(&mut self, total: u16)
        ensures
            final(self)@ == (HeaderFields { additionals: total, ..old(self)@ }),
    {
        self.total_additional_records = total;
    }

    /// Converts the header into the 12 raw bytes that start an mDNS packet.
    pub fn to_bytes(&self) -> (r: [u8; 12])
        ensures
            r@ == header_bytes(self@),
    {
        let id = u16_to_be(self.id);
        let flags = u16_to_be(self.flags.bits());
        let qd = u16_to_be(self.total_question_records);
        let an = u16_to_be(self.total_answer_records);
        let ns = u16_to_be(self.total_authority_records);
        let ar = u16_to_be(self.total_additional_records);
        let r = [id[0], id[1], flags[0], flags[1], qd[0], qd[1], an[0], an[1], ns[0], ns[1], ar[0], ar[1]];
        assert(r@ =~= header_bytes(self@));
        r
    }

    /// Parses an mDNS header from `bytes` at `*offset`.
    ///
    /// On success the offset moves just past the header; on failure it is
    /// left unchanged.
    pub fn from_bytes(bytes: &[u8], offset: &mut usize) -> (r: Result<Self, MdnsParseError>)
        requires
            *old(offset) <= bytes@.len(),
        ensures
            match parse_header(bytes@, *old(offset) as int) {
                Ok((h, end)) => r matches Ok(header) && header@ == h && *final(offset) == end,
                Err(e) => r == Err::<Self, MdnsParseError>(e) && *final(offset) == *old(offset),
            },
    {
        let o: usize = *offset;
        if bytes.len() - o < MDNS_HEADER_SIZE {
            return Err(MdnsParseError::HeaderTooSmall);
        }
        let header = MdnsHeader {
            id: u16_of_be(bytes[o], bytes[o + 1]),
            flags: MdnsFlags::from_bits(u16_of_be(bytes[o + 2], bytes[o + 3])),
            total_question_records: u16_of_be(bytes[o + 4], bytes[o + 5]),
            total_answer_records: u16_of_be(bytes[o + 6], bytes[o + 7]),
            total_authority_records: u16_of_be(bytes[o + 8], bytes[o + 9]),
            total_additional_records: u16_of_be(bytes[o + 10], bytes[o + 11]),
        };
        *offset = o + MDNS_HEADER_SIZE;
        Ok(header)
    }
}

/// A header written to bytes reads back as the same header, whatever bytes
/// precede or follow it, and the read stops right after its 12 bytes.
pub proof fn law_header_roundtrip(h: HeaderFields, prefix: Seq<u8>, rest: Seq<u8>)
    ensures
        parse_header(prefix + header_bytes(h) + rest, prefix.len() as int) == Ok::<
            (HeaderFields, int),
            MdnsParseError,
        >((h, prefix.len() + 12int)),
{
    let data = prefix + header_bytes(h) + rest;
    let p = prefix.len() as int;
    assert(header_bytes(h).len() == 12);
    assert forall|k: int| 0 <= k < 12 implies data[p + k] == header_bytes(h)[k] by {}
    lemma_u16_be_roundtrip(h.id);
    lemma_u16_be_roundtrip(h.flags);
    lemma_u16_be_roundtrip(h.questions);
    lemma_u16_be_roundtrip(h.answers);
    lemma_u16_be_roundtrip(h.authorities);
    lemma_u16_be_roundtrip(h.additionals);
    assert(header_fields_at(data, p) == h);
}

} // verus!
