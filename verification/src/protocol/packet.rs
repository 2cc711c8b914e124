use vstd::prelude::*;

use super::flags::{flag_bit, flags_opcode, flags_rcode, law_flag_bit_set, law_opcode_set, with_flag_bit, with_opcode, MdnsFlags, MdnsOpcode, Rcode};
use super::header::{header_bytes, law_header_roundtrip, parse_header, HeaderFields, MdnsHeader};
use super::name::{lemma_scan_result, parse_name};
use super::query::{law_query_roundtrip, parse_query, query_bytes, query_model_ok, MdnsQuery, QueryModel};
use super::response::{
    law_response_roundtrip, parse_response, response_bytes, response_model_data_ok,
    response_model_ok, MdnsResponse, ResponseModel,
};
use super::wire::extend_bytes;
use super::MdnsParseError;

verus! {

/// The models of a list of queries.
pub open spec fn queries_view(v: Seq<MdnsQuery>) -> Seq<QueryModel> {
    v.map_values(|q: MdnsQuery| q@)
}

/// The models of a list of responses.
pub open spec fn responses_view(v: Seq<MdnsResponse>) -> Seq<ResponseModel> {
    v.map_values(|r: MdnsResponse| r@)
}

/// The bytes of a list of queries, one after the other.
pub open spec fn queries_bytes(qs: Seq<QueryModel>) -> Seq<u8>
    decreases qs.len(),
{
    if qs.len() == 0 {
        Seq::empty()
    } else {
        query_bytes(qs[0]) + queries_bytes(qs.drop_first())
    }
}

/// The bytes of a list of responses, one after the other.
pub open spec fn responses_bytes(rs: Seq<ResponseModel>) -> Seq<u8>
    decreases rs.len(),
{
    if rs.len() == 0 {
        Seq::empty()
    } else {
        response_bytes(rs[0]) + responses_bytes(rs.drop_first())
    }
}

/// Reading `n` queries one after the other from `data` at position `i`.
pub open spec fn parse_queries(data: Seq<u8>, i: int, n: nat) -> Result<
    (Seq<QueryModel>, int),
    MdnsParseError,
>
    decreases n,
{
    if n == 0 {
        Ok((Seq::empty(), i))
    } else {
        match parse_query(data, i) {
            Err(e) => Err(e),
            Ok((q, j)) => match parse_queries(data, j, (n - 1) as nat) {
                Err(e) => Err(e),
                Ok((qs, k)) => Ok((seq![q] + qs, k)),
            },
        }
    }
}

/// Reading `n` responses one after the other from `data` at position `i`.
pub open spec fn parse_responses(data: Seq<u8>, i: int, n: nat) -> Result<
    (Seq<ResponseModel>, int),
    MdnsParseError,
>
    decreases n,
{
    if n == 0 {
        Ok((Seq::empty(), i))
    } else {
        match parse_response(data, i) {
            Err(e) => Err(e),
            Ok((r, j)) => match parse_responses(data, j, (n - 1) as nat) {
                Err(e) => Err(e),
                Ok((rs, k)) => Ok((seq![r] + rs, k)),
            },
        }
    }
}

/// The content of a packet: its header and its four sections.
pub struct PacketModel {
    /// The header.
    pub header: HeaderFields,
    /// The questions section.
    pub questions: Seq<QueryModel>,
    /// The answers section.
    pub answers: Seq<ResponseModel>,
    /// The authorities section.
    pub authorities: Seq<ResponseModel>,
    /// The additional records section.
    pub additionals: Seq<ResponseModel>,
}

/// The bytes of a packet: the header, then the questions, answers,
/// authorities and additional records.
pub open spec fn packet_bytes(p: PacketModel) -> Seq<u8> {
    header_bytes(p.header) + queries_bytes(p.questions) + responses_bytes(p.answers)
        + responses_bytes(p.authorities) + responses_bytes(p.additionals)
}

/// Reading a packet from `data` at position `i`: the header, then as many
/// records of each section as the header counts.
#[verifier::opaque]
pub open spec fn parse_packet(data: Seq<u8>, i: int) -> Result<(PacketModel, int), MdnsParseError> {
    match parse_header(data, i) {
        Err(e) => Err(e),
        Ok((h, j)) => match parse_queries(data, j, h.questions as nat) {
            Err(e) => Err(e),
            Ok((qs, k1)) => match parse_responses(data, k1, h.answers as nat) {
                Err(e) => Err(e),
                Ok((ans, k2)) => match parse_responses(data, k2, h.authorities as nat) {
                    Err(e) => Err(e),
                    Ok((ns, k3)) => match parse_responses(data, k3, h.additionals as nat) {
                        Err(e) => Err(e),
                        Ok((ar, k4)) => Ok(
                            (
                                PacketModel {
                                    header: h,
                                    questions: qs,
                                    answers: ans,
                                    authorities: ns,
                                    additionals: ar,
                                },
                                k4,
                            ),
                        ),
                    },
                },
            },
        },
    }
}

/// Every record of the packet can be written and read back.
#[verifier::opaque]
pub open spec fn packet_records_ok(p: PacketModel) -> bool {
    &&& forall|k: int| 0 <= k < p.questions.len() ==> #[trigger] query_model_ok(p.questions[k])
    &&& forall|k: int| 0 <= k < p.answers.len() ==> #[trigger] response_model_ok(p.answers[k])
    &&& forall|k: int|
        0 <= k < p.authorities.len() ==> #[trigger] response_model_ok(p.authorities[k])
    &&& forall|k: int|
        0 <= k < p.additionals.len() ==> #[trigger] response_model_ok(p.additionals[k])
}

/// The header counts each section's records.
pub open spec fn packet_counts_match(p: PacketModel) -> bool {
    &&& p.header.questions == p.questions.len()
    &&& p.header.answers == p.answers.len()
    &&& p.header.authorities == p.authorities.len()
    &&& p.header.additionals == p.additionals.len()
}

/// The flags a packet built from records gets: a standard query, marked as a
/// response when it has answers and as authoritative when it has
/// authorities.
pub open spec fn records_flags(has_answers: bool, has_authorities: bool) -> u16 {
    with_flag_bit(
        with_flag_bit(with_opcode(0, MdnsOpcode::Query), 0x8000, has_answers),
        0x0400,
        has_authorities,
    )
}

/// An mDNS packet: a header and the questions, answers, authorities and
/// additional records sections.
#[derive(PartialEq, Debug)]
pub struct MdnsPacket {
    header: MdnsHeader,
    question_records: Vec<MdnsQuery>,
    answer_records: Vec<MdnsResponse>,
    authority_records: Vec<MdnsResponse>,
    additional_records: Vec<MdnsResponse>,
}

impl View for MdnsPacket {
    type V = PacketModel;

    closed spec fn view(&self) -> PacketModel {
        PacketModel {
            header: self.header@,
            questions: queries_view(self.question_records@),
            answers: responses_view(self.answer_records@),
            authorities: responses_view(self.authority_records@),
            additionals: responses_view(self.additional_records@),
        }
    }
}

/// The flags word of a standard query whose QR and AA bits are given.
fn query_flags(qr: bool, aa: bool) -> (r: MdnsFlags)
    ensures
        r@ == records_flags(qr, aa),
{
    let mut flags = MdnsFlags::empty();
    flags.set_opcode(MdnsOpcode::Query);
    flags.set_qr(qr);
    flags.set_aa(aa);
    flags
}

/// The facts a packet built from records keeps in its flags: a standard
/// query, with QR set exactly when it has answers and AA set exactly when it
/// has authorities.
/// The flags of a built packet are exactly QR when it has answers and AA
/// when it has authorities: opcode Query, response code NoError, and no
/// other bit set.
pub proof fn law_records_flags_value(has_answers: bool, has_authorities: bool)
    ensures
        records_flags(has_answers, has_authorities) == (if has_answers {
            0x8000u16
        } else {
            0u16
        }) | (if has_authorities {
            0x0400u16
        } else {
            0u16
        }),
        flags_rcode(records_flags(has_answers, has_authorities)) == Rcode::NoError,
        flags_opcode(records_flags(has_answers, has_authorities)) == MdnsOpcode::Query,
{
    let f = records_flags(has_answers, has_authorities);
    let q: u16 = if has_answers { 0x8000u16 } else { 0u16 };
    let a: u16 = if has_authorities { 0x0400u16 } else { 0u16 };
    assert(with_opcode(0, MdnsOpcode::Query) == 0) by {
        assert((0u16 & !0x7800u16) | ((((0u8 as u16) & 0x0fu16) << 11u16) as u16) == 0u16)
            by (bit_vector);
    }
    assert(with_flag_bit(0, 0x8000, has_answers) == q) by {
        assert((0u16 | 0x8000u16) == 0x8000u16 && (0u16 & !0x8000u16) == 0u16) by (bit_vector);
    }
    assert(with_flag_bit(q, 0x0400, has_authorities) == q | a) by {
        assert(forall|x: u16| (x | 0x0400u16) == (x | 0x0400u16)) by (bit_vector);
        assert(forall|x: u16| (x == 0u16 || x == 0x8000u16) ==> (x & !0x0400u16) == (x | 0u16))
            by (bit_vector);
    }
    assert(((q | a) & 0x000fu16) as u8 == 0 && ((q | a) & 0x7800u16) >> 11u16 == 0) by {
        assert(forall|x: u16, y: u16|
            (x == 0u16 || x == 0x8000u16) && (y == 0u16 || y == 0x0400u16) ==> ((x | y) & 0x000fu16)
                as u8 == 0 && ((x | y) & 0x7800u16) >> 11u16 == 0) by (bit_vector);
    }
}

pub proof fn law_records_flags(has_answers: bool, has_authorities: bool)
    ensures
        flags_opcode(records_flags(has_answers, has_authorities)) == MdnsOpcode::Query,
        flag_bit(records_flags(has_answers, has_authorities), 0x8000) == has_answers,
        flag_bit(records_flags(has_answers, has_authorities), 0x0400) == has_authorities,
{
    law_opcode_set(0, MdnsOpcode::Query);
    let f1 = with_opcode(0, MdnsOpcode::Query);
    law_flag_bit_set(f1, 0x8000, has_answers);
    let f2 = with_flag_bit(f1, 0x8000, has_answers);
    law_flag_bit_set(f2, 0x0400, has_authorities);
}

impl MdnsPacket {
    /// Creates a new [`MdnsPacket`] from a header and records, as given.
    pub fn new(
        header: MdnsHeader,
        questions: Vec<MdnsQuery>,
        answers: Vec<MdnsResponse>,
        authorities: Vec<MdnsResponse>,
        additionals: Vec<MdnsResponse>,
    ) -> (r: Self)
        ensures
            r@ == (PacketModel {
                header: header@,
                questions: queries_view(questions@),
                answers: responses_view(answers@),
                authorities: responses_view(authorities@),
                additionals: responses_view(additionals@),
            }),
    {
        MdnsPacket {
            header,
            question_records: questions,
            answer_records: answers,
            authority_records: authorities,
            additional_records: additionals,
        }
    }

    /// Creates a new empty packet: empty flags and no records.
    pub fn new_empty(transaction_id: u16) -> (r: Self)
        ensures
            r@.header == (HeaderFields {
                id: transaction_id,
                flags: 0,
                questions: 0,
                answers: 0,
                authorities: 0,
                additionals: 0,
            }),
            r@.questions.len() == 0,
            r@.answers.len() == 0,
            r@.authorities.len() == 0,
            r@.additionals.len() == 0,
    {
        MdnsPacket {
            header: MdnsHeader::new_empty(transaction_id),
            question_records: Vec::new(),
            answer_records: Vec::new(),
            authority_records: Vec::new(),
            additional_records: Vec::new(),
        }
    }

    /// Creates a new packet holding the given records; the header counts
    /// them, and its flags mark a standard query that is a response when
    /// there are answers and authoritative when there are authorities.
    pub fn new_with_records(
        transaction_id: u16,
        questions: Vec<MdnsQuery>,
        answers: Vec<MdnsResponse>,
        authorities: Vec<MdnsResponse>,
        additionals: Vec<MdnsResponse>,
    ) -> (r: Self)
        ensures
            r@ == (PacketModel {
                header: HeaderFields {
                    id: transaction_id,
                    flags: records_flags(answers@.len() > 0, authorities@.len() > 0),
                    questions: questions@.len() as u16,
                    answers: answers@.len() as u16,
                    authorities: authorities@.len() as u16,
                    additionals: additionals@.len() as u16,
                },
                questions: queries_view(questions@),
                answers: responses_view(answers@),
                authorities: responses_view(authorities@),
                additionals: responses_view(additionals@),
            }),
    {
        let flags = query_flags(!answers.is_empty(), !authorities.is_empty());
        let header = MdnsHeader::new(
            transaction_id,
            flags,
            questions.len() as u16,
            answers.len() as u16,
            authorities.len() as u16,
            additionals.len() as u16,
        );
        MdnsPacket {
            header,
            question_records: questions,
            answer_records: answers,
            authority_records: authorities,
            additional_records: additionals,
        }
    }

    /// Creates a new query packet holding the given questions.
    pub fn new_query(transaction_id: u16, questions: Vec<MdnsQuery>) -> (r: Self)
        ensures
            r@ == (PacketModel {
                header: HeaderFields {
                    id: transaction_id,
                    flags: records_flags(false, false),
                    questions: questions@.len() as u16,
                    answers: 0,
                    authorities: 0,
                    additionals: 0,
                },
                questions: queries_view(questions@),
                answers: Seq::empty(),
                authorities: Seq::empty(),
                additionals: Seq::empty(),
            }),
    {
        let flags = query_flags(false, false);
        let total_questions = questions.len() as u16;
        let header = MdnsHeader::new(transaction_id, flags, total_questions, 0, 0, 0);
        let r = MdnsPacket {
            header,
            question_records: questions,
            answer_records: Vec::new(),
            authority_records: Vec::new(),
            additional_records: Vec::new(),
        };
        assert(responses_view(Seq::<MdnsResponse>::empty()) =~= Seq::<ResponseModel>::empty());
        r
    }

    /// Creates a new response packet holding the given answers, authorities
    /// and additional records.
    pub fn new_response(
        transaction_id: u16,
        answers: Vec<MdnsResponse>,
        authorities: Vec<MdnsResponse>,
        additionals: Vec<MdnsResponse>,
    ) -> (r: Self)
        ensures
            r@ == (PacketModel {
                header: HeaderFields {
                    id: transaction_id,
                    flags: records_flags(true, false),
                    questions: 0,
                    answers: answers@.len() as u16,
                    authorities: authorities@.len() as u16,
                    additionals: additionals@.len() as u16,
                },
                questions: Seq::empty(),
                answers: responses_view(answers@),
                authorities: responses_view(authorities@),
                additionals: responses_view(additionals@),
            }),
    {
        let flags = query_flags(true, false);
        let header = MdnsHeader::new(
            transaction_id,
            flags,
            0,
            answers.len() as u16,
            authorities.len() as u16,
            additionals.len() as u16,
        );
        let r = MdnsPacket {
            header,
            question_records: Vec::new(),
            answer_records: answers,
            authority_records: authorities,
            additional_records: additionals,
        };
        assert(queries_view(Seq::<MdnsQuery>::empty()) =~= Seq::<QueryModel>::empty());
        r
    }

    /// Returns the transaction ID of the packet.
    pub fn transaction_id(&self) -> (r: u16)
        ensures
            r == self@.header.id,
    {
        self.header.id()
    }

    /// Returns the header of the packet.
    pub fn header(&self) -> (r: &MdnsHeader)
        ensures
            r@ == self@.header,
    {
        &self.header
    }

    /// Returns the questions of the packet.
    pub fn questions(&self) -> (r: &Vec<MdnsQuery>)
        ensures
            queries_view(r@) == self@.questions,
    {
        &self.question_records
    }

    /// Returns `true` if the packet holds any questions.
    pub fn has_questions(&self) -> (r: bool)
        ensures
            r == (self@.questions.len() > 0),
    {
        !self.question_records.is_empty()
    }

    /// Returns the answers of the packet.
    pub fn answers(&self) -> (r: &Vec<MdnsResponse>)
        ensures
            responses_view(r@) == self@.answers,
    {
        &self.answer_records
    }

    /// Returns `true` if the packet holds any answers.
    pub fn has_answers(&self) -> (r: bool)
        ensures
            r == (self@.answers.len() > 0),
    {
        !self.answer_records.is_empty()
    }

    /// Returns the authority records of the packet.
    pub fn authorities(&self) -> (r: &Vec<MdnsResponse>)
        ensures
            responses_view(r@) == self@.authorities,
    {
        &self.authority_records
    }

    /// Returns `true` if the packet holds any authority records.
    pub fn has_authorities(&self) -> (r: bool)
        ensures
            r == (self@.authorities.len() > 0),
    {
        !self.authority_records.is_empty()
    }

    /// Returns the additional records of the packet.
    pub fn additionals(&self) -> (r: &Vec<MdnsResponse>)
        ensures
            responses_view(r@) == self@.additionals,
    {
        &self.additional_records
    }

    /// Returns `true` if the packet holds any additional records.
    pub fn has_additionals(&self) -> (r: bool)
        ensures
            r == (self@.additionals.len() > 0),
    {
        !self.additional_records.is_empty()
    }

    /// Adds a question and updates the header's question count.
    pub fn add_question(&mut self, question: MdnsQuery)
        ensures
            final(self)@ == (PacketModel {
                header: HeaderFields {
                    questions: (old(self)@.questions.len() + 1) as u16,
                    ..old(self)@.header
                },
                questions: old(self)@.questions.push(question@),
                ..old(self)@
            }),
    {
        let ghost q = question@;
        self.question_records.push(question);
        let total = self.question_records.len() as u16;
        self.header.set_total_question_records(total);
        assert(queries_view(self.question_records@) =~= old(self)@.questions.push(q));
    }

    /// Adds questions and updates the header's question count.
    pub fn add_questions(&mut self, questions: Vec<MdnsQuery>)
        ensures
            final(self)@ == (PacketModel {
                header: HeaderFields {
                    questions: (old(self)@.questions.len() + questions@.len()) as u16,
                    ..old(self)@.header
                },
                questions: old(self)@.questions + queries_view(questions@),
                ..old(self)@
            }),
    {
        let mut questions = questions;
        let ghost added = queries_view(questions@);
        self.question_records.append(&mut questions);
        let total = self.question_records.len() as u16;
        self.header.set_total_question_records(total);
        assert(queries_view(self.question_records@) =~= old(self)@.questions + added);
    }

    /// Adds an answer and updates the header's answer count.
    pub fn add_answer(&mut self, answer: MdnsResponse)
        ensures
            final(self)@ == (PacketModel {
                header: HeaderFields {
                    answers: (old(self)@.answers.len() + 1) as u16,
                    ..old(self)@.header
                },
                answers: old(self)@.answers.push(answer@),
                ..old(self)@
            }),
    {
        let ghost a = answer@;
        self.answer_records.push(answer);
        let total = self.answer_records.len() as u16;
        self.header.set_total_answer_records(total);
        assert(responses_view(self.answer_records@) =~= old(self)@.answers.push(a));
    }

    /// Adds answers and updates the header's answer count.
    pub fn add_answers(&mut self, answers: Vec<MdnsResponse>)
        ensures
            final(self)@ == (PacketModel {
                header: HeaderFields {
                    answers: (old(self)@.answers.len() + answers@.len()) as u16,
                    ..old(self)@.header
                },
                answers: old(self)@.answers + responses_view(answers@),
                ..old(self)@
            }),
    {
        let mut answers = answers;
        let ghost added = responses_view(answers@);
        self.answer_records.append(&mut answers);
        let total = self.answer_records.len() as u16;
        self.header.set_total_answer_records(total);
        assert(responses_view(self.answer_records@) =~= old(self)@.answers + added);
    }

    /// Adds an authority record and updates the header's authority count.
    pub fn add_authority(&mut self, authority: MdnsResponse)
        ensures
            final(self)@ == (PacketModel {
                header: HeaderFields {
                    authorities: (old(self)@.authorities.len() + 1) as u16,
                    ..old(self)@.header
                },
                authorities: old(self)@.authorities.push(authority@),
                ..old(self)@
            }),
    {
        let ghost a = authority@;
        self.authority_records.push(authority);
        let total = self.authority_records.len() as u16;
        self.header.set_total_authority_records(total);
        assert(responses_view(self.authority_records@) =~= old(self)@.authorities.push(a));
    }

    /// Adds authority records and updates the header's authority count.
    pub fn add_authorities(&mut self, authorities: Vec<MdnsResponse>)
        ensures
            final(self)@ == (PacketModel {
                header: HeaderFields {
                    authorities: (old(self)@.authorities.len() + authorities@.len()) as u16,
                    ..old(self)@.header
                },
                authorities: old(self)@.authorities + responses_view(authorities@),
                ..old(self)@
            }),
    {
        let mut authorities = authorities;
        let ghost added = responses_view(authorities@);
        self.authority_records.append(&mut authorities);
        let total = self.authority_records.len() as u16;
        self.header.set_total_authority_records(total);
        assert(responses_view(self.authority_records@) =~= old(self)@.authorities + added);
    }

    /// Adds an additional record and updates the header's additional count.
    pub fn add_additional(&mut self, additional: MdnsResponse)
        ensures
            final(self)@ == (PacketModel {
                header: HeaderFields {
                    additionals: (old(self)@.additionals.len() + 1) as u16,
                    ..old(self)@.header
                },
                additionals: old(self)@.additionals.push(additional@),
                ..old(self)@
            }),
    {
        let ghost a = additional@;
        self.additional_records.push(additional);
        let total = self.additional_records.len() as u16;
        self.header.set_total_additional_records(total);
        assert(responses_view(self.additional_records@) =~= old(self)@.additionals.push(a));
    }

    /// Adds additional records and updates the header's additional count.
    pub fn add_additionals(&mut self, additionals: Vec<MdnsResponse>)
        ensures
            final(self)@ == (PacketModel {
                header: HeaderFields {
                    additionals: (old(self)@.additionals.len() + additionals@.len()) as u16,
                    ..old(self)@.header
                },
                additionals: old(self)@.additionals + responses_view(additionals@),
                ..old(self)@
            }),
    {
        let mut additionals = additionals;
        let ghost added = responses_view(additionals@);
        self.additional_records.append(&mut additionals);
        let total = self.additional_records.len() as u16;
        self.header.set_total_additional_records(total);
        assert(responses_view(self.additional_records@) =~= old(self)@.additionals + added);
    }
}


/// A read of queries from some position, with `done` read before it.
pub open spec fn prepend_queries(
    done: Seq<QueryModel>,
    r: Result<(Seq<QueryModel>, int), MdnsParseError>,
) -> Result<(Seq<QueryModel>, int), MdnsParseError> {
    match r {
        Ok((qs, k)) => Ok((done + qs, k)),
        Err(e) => Err(e),
    }
}

/// A read of responses from some position, with `done` read before it.
pub open spec fn prepend_responses(
    done: Seq<ResponseModel>,
    r: Result<(Seq<ResponseModel>, int), MdnsParseError>,
) -> Result<(Seq<ResponseModel>, int), MdnsParseError> {
    match r {
        Ok((rs, k)) => Ok((done + rs, k)),
        Err(e) => Err(e),
    }
}

/// The facts every packet value holds: well-formed names and at most 65535
/// data bytes in each response.
pub open spec fn packet_values_ok(p: PacketModel) -> bool {
    &&& forall|k: int|
        0 <= k < p.questions.len() ==> #[trigger] super::name::name_wf(p.questions[k].name)
    &&& forall|k: int| 0 <= k < p.answers.len() ==> #[trigger] response_model_data_ok(p.answers[k])
    &&& forall|k: int|
        0 <= k < p.authorities.len() ==> #[trigger] response_model_data_ok(p.authorities[k])
    &&& forall|k: int|
        0 <= k < p.additionals.len() ==> #[trigger] response_model_data_ok(p.additionals[k])
}

/// Appending a query appends its bytes.
pub proof fn lemma_queries_bytes_push(qs: Seq<QueryModel>, q: QueryModel)
    ensures
        queries_bytes(qs.push(q)) == queries_bytes(qs) + query_bytes(q),
    decreases qs.len(),
{
    if qs.len() == 0 {
        assert(qs.push(q).drop_first() =~= Seq::<QueryModel>::empty());
        assert(queries_bytes(qs.push(q).drop_first()) =~= Seq::<u8>::empty());
        assert(qs.push(q)[0] == q);
        assert(queries_bytes(qs.push(q)) =~= queries_bytes(qs) + query_bytes(q));
    } else {
        lemma_queries_bytes_push(qs.drop_first(), q);
        assert(qs.push(q).drop_first() =~= qs.drop_first().push(q));
        assert(qs.push(q)[0] == qs[0]);
        assert(queries_bytes(qs.push(q)) =~= queries_bytes(qs) + query_bytes(q));
    }
}

/// Appending a response appends its bytes.
pub proof fn lemma_responses_bytes_push(rs: Seq<ResponseModel>, r: ResponseModel)
    ensures
        responses_bytes(rs.push(r)) == responses_bytes(rs) + response_bytes(r),
    decreases rs.len(),
{
    if rs.len() == 0 {
        assert(rs.push(r).drop_first() =~= Seq::<ResponseModel>::empty());
        assert(responses_bytes(rs.push(r).drop_first()) =~= Seq::<u8>::empty());
        assert(rs.push(r)[0] == r);
        assert(responses_bytes(rs.push(r)) =~= responses_bytes(rs) + response_bytes(r));
    } else {
        lemma_responses_bytes_push(rs.drop_first(), r);
        assert(rs.push(r).drop_first() =~= rs.drop_first().push(r));
        assert(rs.push(r)[0] == rs[0]);
        assert(responses_bytes(rs.push(r)) =~= responses_bytes(rs) + response_bytes(r));
    }
}

/// Appends the bytes of each query, in order.
fn write_queries(packet: &mut Vec<u8>, queries: &Vec<MdnsQuery>)
    ensures
        final(packet)@ == old(packet)@ + queries_bytes(queries_view(queries@)),
        forall|k: int|
            0 <= k < queries@.len() ==> #[trigger] super::name::name_wf(queries_view(queries@)[k].name),
{
    let ghost qs = queries_view(queries@);
    let ghost start = packet@;
    let mut i: usize = 0;
    assert(qs.take(0) =~= Seq::<QueryModel>::empty());
    assert(packet@ =~= start + queries_bytes(qs.take(0)));
    while i < queries.len()
        invariant
            i <= queries@.len(),
            qs == queries_view(queries@),
            packet@ == start + queries_bytes(qs.take(i as int)),
            forall|k: int| 0 <= k < i ==> #[trigger] super::name::name_wf(qs[k].name),
        decreases queries@.len() - i,
    {
        queries[i].to_bytes_extend(packet);
        proof {
            lemma_queries_bytes_push(qs.take(i as int), qs[i as int]);
            assert(qs.take(i + 1) =~= qs.take(i as int).push(qs[i as int]));
            assert(packet@ =~= start + queries_bytes(qs.take(i + 1)));
        }
        i = i + 1;
    }
    assert(qs.take(i as int) =~= qs);
}

/// Appends the bytes of each response, in order.
fn write_responses(packet: &mut Vec<u8>, responses: &Vec<MdnsResponse>)
    ensures
        final(packet)@ == old(packet)@ + responses_bytes(responses_view(responses@)),
        forall|k: int|
            0 <= k < responses@.len() ==> #[trigger] response_model_data_ok(
                responses_view(responses@)[k],
            ),
{
    let ghost rs = responses_view(responses@);
    let ghost start = packet@;
    let mut i: usize = 0;
    assert(rs.take(0) =~= Seq::<ResponseModel>::empty());
    assert(packet@ =~= start + responses_bytes(rs.take(0)));
    while i < responses.len()
        invariant
            i <= responses@.len(),
            rs == responses_view(responses@),
            packet@ == start + responses_bytes(rs.take(i as int)),
            forall|k: int| 0 <= k < i ==> #[trigger] response_model_data_ok(rs[k]),
        decreases responses@.len() - i,
    {
        responses[i].to_bytes_extend(packet);
        proof {
            lemma_responses_bytes_push(rs.take(i as int), rs[i as int]);
            assert(rs.take(i + 1) =~= rs.take(i as int).push(rs[i as int]));
            assert(packet@ =~= start + responses_bytes(rs.take(i + 1)));
        }
        i = i + 1;
    }
    assert(rs.take(i as int) =~= rs);
}

/// Reads `total` queries one after the other.
fn read_queries(bytes: &[u8], offset: &mut usize, total: u16) -> (r: Result<
    Vec<MdnsQuery>,
    MdnsParseError,
>)
    requires
        *old(offset) <= bytes@.len(),
    ensures
        *final(offset) <= bytes@.len(),
        match parse_queries(bytes@, *old(offset) as int, total as nat) {
            Ok((qs, end)) => r matches Ok(v) && queries_view(v@) == qs && *final(offset) == end,
            Err(e) => r == Err::<Vec<MdnsQuery>, MdnsParseError>(e),
        },
{
    let ghost i0 = *offset as int;
    let mut queries: Vec<MdnsQuery> = Vec::new();
    let mut count: u16 = 0;
    assert(queries_view(queries@) + Seq::<QueryModel>::empty() =~= Seq::<QueryModel>::empty());
    assert(queries_view(queries@) =~= Seq::<QueryModel>::empty());
    while count < total
        invariant
            count <= total,
            *offset <= bytes@.len(),
            i0 == *old(offset) as int,
            parse_queries(bytes@, i0, total as nat) == prepend_queries(
                queries_view(queries@),
                parse_queries(bytes@, *offset as int, (total - count) as nat),
            ),
        decreases total - count,
    {
        let ghost before = queries_view(queries@);
        let ghost at = *offset as int;
        let q = match MdnsQuery::from_bytes(bytes, offset) {
            Ok(q) => q,
            Err(e) => {
                assert(parse_queries(bytes@, at, (total - count) as nat) == Err::<
                    (Seq<QueryModel>, int),
                    MdnsParseError,
                >(e));
                return Err(e);
            },
        };
        proof {
            let m = (total - count) as nat;
            assert(parse_queries(bytes@, at, m) == prepend_queries(
                seq![q@],
                parse_queries(bytes@, *offset as int, (m - 1) as nat),
            ));
            match parse_queries(bytes@, *offset as int, (m - 1) as nat) {
                Ok((qs, k)) => {
                    assert(before + (seq![q@] + qs) =~= before.push(q@) + qs);
                },
                Err(_) => {},
            }
        }
        queries.push(q);
        proof {
            assert(queries_view(queries@) =~= before.push(q@));
        }
        count = count + 1;
    }
    proof {
        assert(queries_view(queries@) + Seq::<QueryModel>::empty() =~= queries_view(queries@));
    }
    Ok(queries)
}

/// Reads `total` responses one after the other.
fn read_responses(bytes: &[u8], offset: &mut usize, total: u16) -> (r: Result<
    Vec<MdnsResponse>,
    MdnsParseError,
>)
    requires
        *old(offset) <= bytes@.len(),
    ensures
        *final(offset) <= bytes@.len(),
        match parse_responses(bytes@, *old(offset) as int, total as nat) {
            Ok((rs, end)) => r matches Ok(v) && responses_view(v@) == rs && *final(offset) == end,
            Err(e) => r == Err::<Vec<MdnsResponse>, MdnsParseError>(e),
        },
{
    let ghost i0 = *offset as int;
    let mut responses: Vec<MdnsResponse> = Vec::new();
    let mut count: u16 = 0;
    assert(responses_view(responses@) =~= Seq::<ResponseModel>::empty());
    assert(responses_view(responses@) + Seq::<ResponseModel>::empty() =~= Seq::<ResponseModel>::empty());
    while count < total
        invariant
            count <= total,
            *offset <= bytes@.len(),
            i0 == *old(offset) as int,
            parse_responses(bytes@, i0, total as nat) == prepend_responses(
                responses_view(responses@),
                parse_responses(bytes@, *offset as int, (total - count) as nat),
            ),
        decreases total - count,
    {
        let ghost before = responses_view(responses@);
        let ghost at = *offset as int;
        let x = match MdnsResponse::from_bytes(bytes, offset) {
            Ok(x) => x,
            Err(e) => {
                assert(parse_responses(bytes@, at, (total - count) as nat) == Err::<
                    (Seq<ResponseModel>, int),
                    MdnsParseError,
                >(e));
                return Err(e);
            },
        };
        proof {
            let m = (total - count) as nat;
            assert(parse_responses(bytes@, at, m) == prepend_responses(
                seq![x@],
                parse_responses(bytes@, *offset as int, (m - 1) as nat),
            ));
            match parse_responses(bytes@, *offset as int, (m - 1) as nat) {
                Ok((rs, k)) => {
                    assert(before + (seq![x@] + rs) =~= before.push(x@) + rs);
                },
                Err(_) => {},
            }
        }
        responses.push(x);
        proof {
            assert(responses_view(responses@) =~= before.push(x@));
        }
        count = count + 1;
    }
    proof {
        assert(responses_view(responses@) + Seq::<ResponseModel>::empty() =~= responses_view(responses@));
    }
    Ok(responses)
}

impl MdnsPacket {
    /// Converts the packet into raw bytes: the header, then the questions,
    /// answers, authorities and additional records.
    pub fn to_bytes(&self) -> (r: Vec<u8>)
        ensures
            r@ == packet_bytes(self@),
            packet_values_ok(self@),
    {
        let header = self.header.to_bytes();
        let mut packet: Vec<u8> = Vec::new();
        extend_bytes(&mut packet, header.as_slice());
        write_queries(&mut packet, &self.question_records);
        write_responses(&mut packet, &self.answer_records);
        write_responses(&mut packet, &self.authority_records);
        write_responses(&mut packet, &self.additional_records);
        reveal(packet_bytes);
        assert(packet@ =~= packet_bytes(self@));
        packet
    }

    /// Reads a packet from `bytes` at `*offset`: the header, then as many
    /// records of each section as the header counts.
    ///
    /// On success the offset moves just past the packet; on failure it is
    /// left unchanged.
    pub fn from_bytes(bytes: &[u8], offset: &mut usize) -> (r: Result<Self, MdnsParseError>)
        requires
            *old(offset) <= bytes@.len(),
        ensures
            match parse_packet(bytes@, *old(offset) as int) {
                Ok((p, end)) => r matches Ok(x) && x@ == p && *final(offset) == end,
                Err(e) => r == Err::<Self, MdnsParseError>(e) && *final(offset) == *old(offset),
            },
    {
        reveal(parse_packet);
        let mut i: usize = *offset;
        let header = MdnsHeader::from_bytes(bytes, &mut i)?;
        let question_records = read_queries(bytes, &mut i, header.total_question_records())?;
        let answer_records = read_responses(bytes, &mut i, header.total_answer_records())?;
        let authority_records = read_responses(bytes, &mut i, header.total_authority_records())?;
        let additional_records = read_responses(bytes, &mut i, header.total_additional_records())?;
        *offset = i;
        Ok(MdnsPacket {
            header,
            question_records,
            answer_records,
            authority_records,
            additional_records,
        })
    }
}

/// Queries written one after the other read back as the same queries,
/// wherever they stand.
pub proof fn lemma_queries_roundtrip(qs: Seq<QueryModel>, prefix: Seq<u8>, rest: Seq<u8>)
    requires
        forall|k: int| 0 <= k < qs.len() ==> #[trigger] query_model_ok(qs[k]),
    ensures
        parse_queries(prefix + queries_bytes(qs) + rest, prefix.len() as int, qs.len()) == Ok::<
            (Seq<QueryModel>, int),
            MdnsParseError,
        >((qs, (prefix.len() + queries_bytes(qs).len()) as int)),
    decreases qs.len(),
{
    if qs.len() == 0 {
        assert(qs =~= Seq::<QueryModel>::empty());
    } else {
        let q0 = qs[0];
        let tail = qs.drop_first();
        let data = prefix + queries_bytes(qs) + rest;
        assert(query_model_ok(q0));
        assert forall|k: int| 0 <= k < tail.len() implies #[trigger] query_model_ok(tail[k]) by {
            assert(tail[k] == qs[k + 1]);
        }
        assert(data =~= prefix + query_bytes(q0) + (queries_bytes(tail) + rest));
        law_query_roundtrip(q0, prefix, queries_bytes(tail) + rest);
        let p2 = prefix + query_bytes(q0);
        assert(data =~= p2 + queries_bytes(tail) + rest);
        lemma_queries_roundtrip(tail, p2, rest);
        assert(seq![q0] + tail =~= qs);
    }
}

/// Responses written one after the other read back as the same responses,
/// wherever they stand.
#[verifier::rlimit(60)]
pub proof fn lemma_responses_roundtrip(rs: Seq<ResponseModel>, prefix: Seq<u8>, rest: Seq<u8>)
    requires
        forall|k: int| 0 <= k < rs.len() ==> #[trigger] response_model_ok(rs[k]),
    ensures
        parse_responses(prefix + responses_bytes(rs) + rest, prefix.len() as int, rs.len())
            == Ok::<(Seq<ResponseModel>, int), MdnsParseError>(
            (rs, (prefix.len() + responses_bytes(rs).len()) as int),
        ),
    decreases rs.len(),
{
    if rs.len() == 0 {
        assert(rs =~= Seq::<ResponseModel>::empty());
    } else {
        let r0 = rs[0];
        let tail = rs.drop_first();
        let data = prefix + responses_bytes(rs) + rest;
        assert(response_model_ok(r0));
        assert forall|k: int| 0 <= k < tail.len() implies #[trigger] response_model_ok(tail[k]) by {
            assert(tail[k] == rs[k + 1]);
        }
        assert(data =~= prefix + response_bytes(r0) + (responses_bytes(tail) + rest));
        law_response_roundtrip(r0, prefix, responses_bytes(tail) + rest);
        let p2 = prefix + response_bytes(r0);
        assert(data =~= p2 + responses_bytes(tail) + rest);
        lemma_responses_roundtrip(tail, p2, rest);
        assert(seq![r0] + tail =~= rs);
    }
}

/// Reading a packet is reading its header and then each of its sections.
proof fn lemma_parse_packet_parts(
    p: PacketModel,
    data: Seq<u8>,
    k0: int,
    k1: int,
    k2: int,
    k3: int,
    k4: int,
    k5: int,
)
    requires
        parse_header(data, k0) == Ok::<(HeaderFields, int), MdnsParseError>((p.header, k1)),
        parse_queries(data, k1, p.header.questions as nat) == Ok::<
            (Seq<QueryModel>, int),
            MdnsParseError,
        >((p.questions, k2)),
        parse_responses(data, k2, p.header.answers as nat) == Ok::<
            (Seq<ResponseModel>, int),
            MdnsParseError,
        >((p.answers, k3)),
        parse_responses(data, k3, p.header.authorities as nat) == Ok::<
            (Seq<ResponseModel>, int),
            MdnsParseError,
        >((p.authorities, k4)),
        parse_responses(data, k4, p.header.additionals as nat) == Ok::<
            (Seq<ResponseModel>, int),
            MdnsParseError,
        >((p.additionals, k5)),
    ensures
        parse_packet(data, k0) == Ok::<(PacketModel, int), MdnsParseError>((p, k5)),
{
    reveal(parse_packet);
}

/// A packet's bytes with other bytes before and after them.
#[verifier::opaque]
pub open spec fn packet_stream(prefix: Seq<u8>, p: PacketModel, rest: Seq<u8>) -> Seq<u8> {
    prefix + packet_bytes(p) + rest
}

/// The header of a packet reads back from the packet's bytes.
proof fn lemma_packet_header_part(p: PacketModel, prefix: Seq<u8>, rest: Seq<u8>)
    ensures
        parse_header(packet_stream(prefix, p, rest), prefix.len() as int) == Ok::<
            (HeaderFields, int),
            MdnsParseError,
        >((p.header, prefix.len() as int + 12)),
{
    reveal(packet_bytes);
    reveal(packet_stream);
    let hb = header_bytes(p.header);
    let tail = queries_bytes(p.questions) + responses_bytes(p.answers) + responses_bytes(
        p.authorities,
    ) + responses_bytes(p.additionals) + rest;
    assert(prefix + packet_bytes(p) + rest =~= prefix + hb + tail);
    law_header_roundtrip(p.header, prefix, tail);
}

/// The questions of a packet read back from the packet's bytes.
proof fn lemma_packet_questions_part(p: PacketModel, prefix: Seq<u8>, rest: Seq<u8>)
    requires
        packet_records_ok(p),
    ensures
        parse_queries(packet_stream(prefix, p, rest), prefix.len() as int + 12, p.questions.len())
            == Ok::<(Seq<QueryModel>, int), MdnsParseError>(
            (p.questions, prefix.len() as int + 12 + queries_bytes(p.questions).len()),
        ),
{
    reveal(packet_bytes);
    reveal(packet_stream);
    reveal(packet_records_ok);
    let p1 = prefix + header_bytes(p.header);
    let tail = responses_bytes(p.answers) + responses_bytes(p.authorities) + responses_bytes(
        p.additionals,
    ) + rest;
    assert(prefix + packet_bytes(p) + rest =~= p1 + queries_bytes(p.questions) + tail);
    lemma_queries_roundtrip(p.questions, p1, tail);
}

/// The answers of a packet read back from the packet's bytes.
proof fn lemma_packet_answers_part(p: PacketModel, prefix: Seq<u8>, rest: Seq<u8>)
    requires
        packet_records_ok(p),
    ensures
        parse_responses(
            packet_stream(prefix, p, rest),
            prefix.len() as int + 12 + queries_bytes(p.questions).len(),
            p.answers.len(),
        ) == Ok::<(Seq<ResponseModel>, int), MdnsParseError>(
            (
                p.answers,
                prefix.len() as int + 12 + queries_bytes(p.questions).len() + responses_bytes(
                    p.answers,
                ).len(),
            ),
        ),
{
    reveal(packet_bytes);
    reveal(packet_stream);
    reveal(packet_records_ok);
    let p2 = prefix + header_bytes(p.header) + queries_bytes(p.questions);
    let tail = responses_bytes(p.authorities) + responses_bytes(p.additionals) + rest;
    assert(prefix + packet_bytes(p) + rest =~= p2 + responses_bytes(p.answers) + tail);
    lemma_responses_roundtrip(p.answers, p2, tail);
}

/// The authority records of a packet read back from the packet's bytes.
proof fn lemma_packet_authorities_part(p: PacketModel, prefix: Seq<u8>, rest: Seq<u8>)
    requires
        packet_records_ok(p),
    ensures
        parse_responses(
            packet_stream(prefix, p, rest),
            prefix.len() as int + 12 + queries_bytes(p.questions).len() + responses_bytes(
                p.answers,
            ).len(),
            p.authorities.len(),
        ) == Ok::<(Seq<ResponseModel>, int), MdnsParseError>(
            (
                p.authorities,
                prefix.len() as int + 12 + queries_bytes(p.questions).len() + responses_bytes(
                    p.answers,
                ).len() + responses_bytes(p.authorities).len(),
            ),
        ),
{
    reveal(packet_bytes);
    reveal(packet_stream);
    reveal(packet_records_ok);
    let p3 = prefix + header_bytes(p.header) + queries_bytes(p.questions) + responses_bytes(
        p.answers,
    );
    let tail = responses_bytes(p.additionals) + rest;
    assert(prefix + packet_bytes(p) + rest =~= p3 + responses_bytes(p.authorities) + tail);
    lemma_responses_roundtrip(p.authorities, p3, tail);
}

/// The additional records of a packet read back from the packet's bytes.
proof fn lemma_packet_additionals_part(p: PacketModel, prefix: Seq<u8>, rest: Seq<u8>)
    requires
        packet_records_ok(p),
    ensures
        parse_responses(
            packet_stream(prefix, p, rest),
            prefix.len() as int + 12 + queries_bytes(p.questions).len() + responses_bytes(
                p.answers,
            ).len() + responses_bytes(p.authorities).len(),
            p.additionals.len(),
        ) == Ok::<(Seq<ResponseModel>, int), MdnsParseError>(
            (
                p.additionals,
                prefix.len() as int + 12 + queries_bytes(p.questions).len() + responses_bytes(
                    p.answers,
                ).len() + responses_bytes(p.authorities).len() + responses_bytes(
                    p.additionals,
                ).len(),
            ),
        ),
{
    reveal(packet_bytes);
    reveal(packet_stream);
    reveal(packet_records_ok);
    let p4 = prefix + header_bytes(p.header) + queries_bytes(p.questions) + responses_bytes(
        p.answers,
    ) + responses_bytes(p.authorities);
    assert(prefix + packet_bytes(p) + rest =~= p4 + responses_bytes(p.additionals) + rest);
    lemma_responses_roundtrip(p.additionals, p4, rest);
}

/// A packet whose header counts its records, and whose records can all be
/// written and read back, is read back from its bytes as the same packet,
/// wherever it stands, and the read stops right after it.
pub proof fn law_packet_roundtrip(p: PacketModel, prefix: Seq<u8>, rest: Seq<u8>)
    requires
        packet_records_ok(p),
        packet_counts_match(p),
    ensures
        parse_packet(packet_stream(prefix, p, rest), prefix.len() as int) == Ok::<
            (PacketModel, int),
            MdnsParseError,
        >((p, (prefix.len() + packet_bytes(p).len()) as int)),
{
    lemma_packet_header_part(p, prefix, rest);
    lemma_packet_questions_part(p, prefix, rest);
    lemma_packet_answers_part(p, prefix, rest);
    lemma_packet_authorities_part(p, prefix, rest);
    lemma_packet_additionals_part(p, prefix, rest);
    let k0 = prefix.len() as int;
    let k1 = k0 + 12;
    let k2 = k1 + queries_bytes(p.questions).len();
    let k3 = k2 + responses_bytes(p.answers).len();
    let k4 = k3 + responses_bytes(p.authorities).len();
    let k5 = k4 + responses_bytes(p.additionals).len();
    assert(header_bytes(p.header).len() == 12);
    assert(packet_bytes(p).len() == k5 - k0) by {
        reveal(packet_bytes);
    reveal(packet_stream);
    }
    lemma_parse_packet_parts(p, packet_stream(prefix, p, rest), k0, k1, k2, k3, k4, k5);
}

} // verus!
