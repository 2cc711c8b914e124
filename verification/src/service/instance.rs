//! A service instance that can be announced over mDNS: its instance name,
//! service type, domain, port and TXT records.

use vstd::prelude::*;
use vstd::string::StrSliceExecFns;

use vstd::utf8::encode_utf8;

use super::txt_record::{
    opt_chars, txt_entries_fit, txt_insert, txt_lookup, txt_remove, txt_wire, TxtRecordError,
    TxtRecords, TXT_RECORDS_CAPACITY,
};
use crate::protocol::class::DnsClass;
use crate::protocol::header::HeaderFields;
use crate::protocol::name::{check_labels, labels_wire, MdnsName, MdnsNameError};
use crate::protocol::packet::{records_flags, responses_view, MdnsPacket, PacketModel};
use crate::protocol::record_type::DnsType;
use crate::protocol::response::{srv_data, MdnsResponse, ResponseModel};
use crate::protocol::wire::{extend_bytes, u16_be_bytes};
use super::{MdnsServiceError, ServiceFault};
use crate::protocol::name::strings_bytes;

verus! {

/// The pieces of `s` between dots, in order; one piece more than there are
/// dots.
pub open spec fn split_labels(s: Seq<char>) -> Seq<Seq<char>>
    decreases s.len(),
{
    if s.len() == 0 {
        seq![Seq::empty()]
    } else {
        let p = split_labels(s.drop_last());
        if s.last() == '.' {
            p.push(Seq::empty())
        } else {
            p.update(p.len() - 1, p.last().push(s.last()))
        }
    }
}

/// The characters of each string of a list.
pub open spec fn strings_chars(ss: Seq<String>) -> Seq<Seq<char>> {
    ss.map_values(|s: String| s@)
}

/// A control character: general category Cc, U+0000 to U+001F and U+007F
/// to U+009F.
pub open spec fn is_control_char(c: char) -> bool {
    (c as u32) <= 0x1F || (0x7F <= (c as u32) && (c as u32) <= 0x9F)
}

/// A character that an instance name label or a domain may not hold: a
/// dot, a `%`, or a control character.
pub open spec fn forbidden_char(c: char) -> bool {
    c == '.' || c == '%' || is_control_char(c)
}

/// Whether `l` holds a forbidden character.
pub open spec fn has_forbidden(l: Seq<char>) -> bool {
    exists|j: int| 0 <= j < l.len() && #[trigger] forbidden_char(l[j])
}

/// An ASCII letter or digit, or a hyphen.
pub open spec fn service_char_ok(c: char) -> bool {
    ('0' <= c && c <= '9') || ('a' <= c && c <= 'z') || ('A' <= c && c <= 'Z') || c == '-'
}

/// A service type label before the protocol: `_`, then ASCII letters,
/// digits and hyphens.
pub open spec fn service_label_ok(l: Seq<char>) -> bool {
    &&& l.len() > 0
    &&& l[0] == '_'
    &&& forall|j: int| 1 <= j < l.len() ==> #[trigger] service_char_ok(l[j])
}

/// The protocol label: `_tcp` or `_udp`.
pub open spec fn protocol_label_ok(l: Seq<char>) -> bool {
    l == seq!['_', 't', 'c', 'p'] || l == seq!['_', 'u', 'd', 'p']
}

/// The position of the first label for which `p` holds, or -1.
pub open spec fn first_with(ls: Seq<Seq<char>>, p: spec_fn(Seq<char>) -> bool) -> int
    decreases ls.len(),
{
    if ls.len() == 0 {
        -1
    } else if p(ls[0]) {
        0
    } else {
        let r = first_with(ls.drop_first(), p);
        if r < 0 {
            -1
        } else {
            r + 1
        }
    }
}

/// The test that rejects an instance name label.
pub open spec fn forbidden_label() -> spec_fn(Seq<char>) -> bool {
    |l: Seq<char>| has_forbidden(l)
}

/// The test that rejects a service type label before the protocol.
pub open spec fn bad_service_label() -> spec_fn(Seq<char>) -> bool {
    |l: Seq<char>| !service_label_ok(l)
}

/// Validating an instance name: its labels, or the fault found first.
pub open spec fn instance_name_result(s: Seq<char>) -> Result<Seq<Seq<char>>, ServiceFault> {
    let ls = split_labels(s);
    let i = first_with(ls, forbidden_label());
    if i >= 0 {
        Err(ServiceFault::InvalidInstanceName(ls[i]))
    } else {
        Ok(ls)
    }
}

/// Validating a service type: its labels, or the fault found first.
pub open spec fn service_type_result(s: Seq<char>) -> Result<Seq<Seq<char>>, ServiceFault> {
    let ls = split_labels(s);
    let i = first_with(ls.drop_last(), bad_service_label());
    if i >= 0 {
        Err(ServiceFault::InvalidServiceType(ls[i]))
    } else if !protocol_label_ok(ls.last()) {
        Err(ServiceFault::InvalidServiceProtocol(ls.last()))
    } else {
        Ok(ls)
    }
}

/// Validating a service domain: the domain, or the fault found.
pub open spec fn service_domain_result(s: Seq<char>) -> Result<Seq<char>, ServiceFault> {
    if has_forbidden(s) {
        Err(ServiceFault::InvalidServiceDomain(s))
    } else {
        Ok(s)
    }
}

/// Splitting always yields at least one piece.
pub proof fn lemma_split_labels_len(s: Seq<char>)
    ensures
        split_labels(s).len() >= 1,
    decreases s.len(),
{
    if s.len() > 0 {
        lemma_split_labels_len(s.drop_last());
    }
}

/// What `first_with` finds: the first position whose label satisfies `p`,
/// or -1 when none does.
pub proof fn lemma_first_with(ls: Seq<Seq<char>>, p: spec_fn(Seq<char>) -> bool)
    ensures
        -1 <= first_with(ls, p) < ls.len(),
        first_with(ls, p) >= 0 ==> p(ls[first_with(ls, p)]),
        forall|k: int| 0 <= k < ls.len() && (first_with(ls, p) < 0 || k < first_with(ls, p)) ==> !p(
            #[trigger] ls[k],
        ),
    decreases ls.len(),
{
    if ls.len() > 0 && !p(ls[0]) {
        let d = ls.drop_first();
        lemma_first_with(d, p);
        assert forall|k: int| 0 <= k < ls.len() && (first_with(ls, p) < 0 || k < first_with(ls, p)) implies !p(
            #[trigger] ls[k],
        ) by {
            if k > 0 {
                assert(ls[k] == d[k - 1]);
            }
        }
        if first_with(d, p) >= 0 {
            assert(ls[first_with(ls, p)] == d[first_with(d, p)]);
        }
    }
}

/// Whether `c` is a control character.
fn is_control(c: char) -> (r: bool)
    ensures
        r == is_control_char(c),
{
    let v: u32 = c as u32;
    v <= 0x1F || (0x7F <= v && v <= 0x9F)
}

/// Whether `s` holds a dot, a `%` or a control character.
fn has_forbidden_chars(s: &str) -> (r: bool)
    ensures
        r == has_forbidden(s@),
{
    let n: usize = s.unicode_len();
    let mut j: usize = 0;
    while j < n
        invariant
            j <= n,
            n == s@.len(),
            forall|k: int| 0 <= k < j ==> !#[trigger] forbidden_char(s@[k]),
        decreases n - j,
    {
        let c = s.get_char(j);
        if c == '.' || c == '%' || is_control(c) {
            assert(forbidden_char(s@[j as int]));
            return true;
        }
        j = j + 1;
    }
    false
}

/// Whether `s` is a service type label: `_`, then ASCII letters, digits and
/// hyphens.
fn is_service_label(s: &str) -> (r: bool)
    ensures
        r == service_label_ok(s@),
{
    let n: usize = s.unicode_len();
    if n == 0 || s.get_char(0) != '_' {
        return false;
    }
    let mut j: usize = 1;
    while j < n
        invariant
            1 <= j <= n,
            n == s@.len(),
            forall|k: int| 1 <= k < j ==> #[trigger] service_char_ok(s@[k]),
        decreases n - j,
    {
        let c = s.get_char(j);
        if !(('0' <= c && c <= '9') || ('a' <= c && c <= 'z') || ('A' <= c && c <= 'Z') || c == '-') {
            assert(!service_char_ok(s@[j as int]));
            return false;
        }
        j = j + 1;
    }
    true
}

/// Whether `s` is `_tcp` or `_udp`.
fn is_protocol_label(s: &str) -> (r: bool)
    ensures
        r == protocol_label_ok(s@),
{
    if s.unicode_len() != 4 || s.get_char(0) != '_' {
        return false;
    }
    let a = s.get_char(1);
    let b = s.get_char(2);
    let c = s.get_char(3);
    let tcp = a == 't' && b == 'c' && c == 'p';
    let udp = a == 'u' && b == 'd' && c == 'p';
    proof {
        if tcp {
            assert(s@ =~= seq!['_', 't', 'c', 'p']);
        }
        if udp {
            assert(s@ =~= seq!['_', 'u', 'd', 'p']);
        }
    }
    tcp || udp
}

/// Splits `s` at each dot.
fn split_at_dots(s: &str) -> (r: Vec<String>)
    ensures
        strings_chars(r@) == split_labels(s@),
{
    let n: usize = s.unicode_len();
    let mut labels: Vec<String> = Vec::new();
    let mut start: usize = 0;
    let mut i: usize = 0;
    proof {
        assert(s@.take(0) =~= Seq::<char>::empty());
        assert(split_labels(s@.take(0)) =~= strings_chars(labels@).push(s@.subrange(0, 0)));
    }
    while i < n
        invariant
            start <= i <= n,
            n == s@.len(),
            split_labels(s@.take(i as int)) == strings_chars(labels@).push(s@.subrange(start as int, i as int)),
        decreases n - i,
    {
        let c = s.get_char(i);
        proof {
            assert(s@.take(i + 1).drop_last() =~= s@.take(i as int));
            assert(s@.take(i + 1).last() == c);
            lemma_split_labels_len(s@.take(i as int));
        }
        if c == '.' {
            let label = s.substring_char(start, i).to_owned();
            let ghost before = labels@;
            labels.push(label);
            proof {
                assert(strings_chars(labels@) =~= strings_chars(before).push(s@.subrange(start as int, i as int)));
                assert(s@.subrange(i + 1, i + 1) =~= Seq::<char>::empty());
            }
            start = i + 1;
        } else {
            proof {
                let p = split_labels(s@.take(i as int));
                assert(s@.subrange(start as int, i + 1) =~= s@.subrange(start as int, i as int).push(c));
                assert(strings_chars(labels@).push(s@.subrange(start as int, i + 1)) =~= p.update(
                    p.len() - 1,
                    p.last().push(c),
                ));
            }
        }
        i = i + 1;
    }
    let label = s.substring_char(start, n).to_owned();
    let ghost before = labels@;
    labels.push(label);
    proof {
        assert(s@.take(n as int) =~= s@);
        assert(strings_chars(labels@) =~= strings_chars(before).push(s@.subrange(start as int, n as int)));
    }
    labels
}

/// The content of a service.
pub struct ServiceModel {
    /// The instance name labels.
    pub instance: Seq<Seq<char>>,
    /// The service type labels, the protocol last.
    pub service_type: Seq<Seq<char>>,
    /// The domain.
    pub domain: Seq<char>,
    /// The port the service listens on.
    pub port: u16,
    /// The TXT records, in order.
    pub records: Seq<(Seq<char>, Seq<char>)>,
}

/// Name parts that pass validation.
pub open spec fn service_parts_valid(
    instance: Seq<Seq<char>>,
    service_type: Seq<Seq<char>>,
    domain: Seq<char>,
) -> bool {
    &&& instance.len() >= 1
    &&& forall|i: int| 0 <= i < instance.len() ==> !has_forbidden(#[trigger] instance[i])
    &&& service_type.len() >= 1
    &&& forall|i: int| 0 <= i < service_type.len() - 1 ==> service_label_ok(#[trigger] service_type[i])
    &&& protocol_label_ok(service_type.last())
    &&& !has_forbidden(domain)
}

/// Validating the parts of a service: the instance name labels, service
/// type labels and domain, or the fault found first.
pub open spec fn service_parts_result(instance: Seq<char>, service_type: Seq<char>, domain: Seq<char>) -> Result<
    (Seq<Seq<char>>, Seq<Seq<char>>, Seq<char>),
    ServiceFault,
> {
    match instance_name_result(instance) {
        Err(f) => Err(f),
        Ok(i) => match service_type_result(service_type) {
            Err(f) => Err(f),
            Ok(t) => match service_domain_result(domain) {
                Err(f) => Err(f),
                Ok(d) => Ok((i, t, d)),
            },
        },
    }
}

/// All labels of a service's name: the instance name, the service type,
/// then the domain.
pub open spec fn service_labels(m: ServiceModel) -> Seq<Seq<char>> {
    m.instance + m.service_type + seq![m.domain]
}

/// The labels of a service's host name: the instance name, then the domain.
pub open spec fn host_labels(m: ServiceModel) -> Seq<Seq<char>> {
    m.instance + seq![m.domain]
}

/// The labels of a service's type name: the service type, then the domain.
pub open spec fn type_labels(m: ServiceModel) -> Seq<Seq<char>> {
    m.service_type + seq![m.domain]
}

/// The UTF-8 bytes of each label.
pub open spec fn chars_bytes(ls: Seq<Seq<char>>) -> Seq<Seq<u8>> {
    ls.map_values(|l: Seq<char>| encode_utf8(l))
}

/// The bytes of strings are the bytes of their characters.
proof fn lemma_strings_bytes(ss: Seq<String>)
    ensures
        strings_bytes(ss) == chars_bytes(strings_chars(ss)),
{
    assert(strings_bytes(ss) =~= chars_bytes(strings_chars(ss)));
}

/// Clones each string of a list onto the end of another.
fn extend_strings(dst: &mut Vec<String>, src: &Vec<String>)
    ensures
        strings_chars(final(dst)@) == strings_chars(old(dst)@) + strings_chars(src@),
{
    let ghost start = dst@;
    let mut i: usize = 0;
    while i < src.len()
        invariant
            i <= src@.len(),
            strings_chars(dst@) == strings_chars(start) + strings_chars(src@.take(i as int)),
        decreases src@.len() - i,
    {
        let ghost before = dst@;
        dst.push(src[i].clone());
        proof {
            assert(src@.take(i + 1) =~= src@.take(i as int).push(src@[i as int]));
            assert(strings_chars(dst@) =~= strings_chars(before).push(src@[i as int]@));
            assert(strings_chars(src@.take(i + 1)) =~= strings_chars(src@.take(i as int)).push(src@[i as int]@));
        }
        i = i + 1;
    }
    assert(src@.take(src@.len() as int) =~= src@);
}

/// The A and AAAA records that map the host name to the device's
/// addresses, for the addresses given.
pub open spec fn address_records(host: Seq<u8>, ttl: u32, ipv4: Option<Seq<u8>>, ipv6: Option<Seq<u8>>) -> Seq<
    ResponseModel,
> {
    let a: Seq<ResponseModel> = match ipv4 {
        Some(v) => seq![ResponseModel { name: host, rtype: DnsType::A, rclass: DnsClass::IN, ttl, data: v }],
        None => Seq::empty(),
    };
    let aaaa: Seq<ResponseModel> = match ipv6 {
        Some(v) => seq![ResponseModel { name: host, rtype: DnsType::AAAA, rclass: DnsClass::IN, ttl, data: v }],
        None => Seq::empty(),
    };
    a + aaaa
}

/// The packet that announces a service, or the fault met first: the PTR
/// record from the service type to the service, the SRV record with the
/// host and port, the TXT record when there are TXT records, and the
/// address records of the host.
pub open spec fn announcement_result(
    m: ServiceModel,
    ttl: u32,
    ipv4: Option<Seq<u8>>,
    ipv6: Option<Seq<u8>>,
) -> Result<PacketModel, ServiceFault> {
    let sl = chars_bytes(service_labels(m));
    let hl = chars_bytes(host_labels(m));
    let tl = chars_bytes(type_labels(m));
    match (check_labels(sl), check_labels(hl), check_labels(tl)) {
        (Some(e), _, _) => Err(ServiceFault::NameError(e)),
        (None, Some(e), _) => Err(ServiceFault::NameError(e)),
        (None, None, Some(e)) => Err(ServiceFault::NameError(e)),
        (None, None, None) => if m.records.len() > 0 && !txt_entries_fit(m.records) {
            Err(ServiceFault::TxtRecordError(TxtRecordError::EntryTooLong))
        } else {
            let sw = labels_wire(sl);
            let hw = labels_wire(hl);
            let ptr = ResponseModel {
                name: labels_wire(tl),
                rtype: DnsType::PTR,
                rclass: DnsClass::IN,
                ttl,
                data: sw,
            };
            let srv = ResponseModel {
                name: sw,
                rtype: DnsType::SRV,
                rclass: DnsClass::IN,
                ttl,
                data: srv_data(0, 0, m.port, hw),
            };
            let answers = if m.records.len() > 0 {
                seq![
                    ptr,
                    srv,
                    ResponseModel {
                        name: sw,
                        rtype: DnsType::TXT,
                        rclass: DnsClass::IN,
                        ttl,
                        data: txt_wire(m.records),
                    },
                ]
            } else {
                seq![ptr, srv]
            };
            let authorities = address_records(hw, ttl, ipv4, ipv6);
            Ok(
                PacketModel {
                    header: HeaderFields {
                        id: 0,
                        flags: records_flags(true, authorities.len() > 0),
                        questions: 0,
                        answers: answers.len() as u16,
                        authorities: authorities.len() as u16,
                        additionals: 0,
                    },
                    questions: Seq::empty(),
                    answers,
                    authorities,
                    additionals: Seq::empty(),
                },
            )
        },
    }
}

/// The addresses given are an IPv4 and an IPv6 address, and the service's
/// names, once valid, fit in the records that carry them.
pub open spec fn announcement_fits(m: ServiceModel, ipv4: Option<Seq<u8>>, ipv6: Option<Seq<u8>>) -> bool {
    &&& ipv4 matches Some(v) ==> v.len() == 4
    &&& ipv6 matches Some(v) ==> v.len() == 16
    &&& check_labels(chars_bytes(service_labels(m))) is None ==> {
        &&& labels_wire(chars_bytes(service_labels(m))).len() <= 65535
        &&& 6 + labels_wire(chars_bytes(host_labels(m))).len() <= 65535
    }
}

/// The bytes of an optional byte list.
pub open spec fn opt_bytes(o: Option<&Vec<u8>>) -> Option<Seq<u8>> {
    match o {
        Some(v) => Some(v@),
        None => None,
    }
}

/// The validated parts of a service's name, and its port.
struct ServiceParts {
    instance_name_labels: Vec<String>,
    service_type_labels: Vec<String>,
    service_domain: String,
    port: u16,
}

impl ServiceParts {
    #[verifier::type_invariant]
    spec fn valid(self) -> bool {
        service_parts_valid(
            strings_chars(self.instance_name_labels@),
            strings_chars(self.service_type_labels@),
            self.service_domain@,
        )
    }
}

/// A service that can be announced over mDNS.
pub struct MdnsService {
    parts: ServiceParts,
    txt_records: TxtRecords,
}

impl View for MdnsService {
    type V = ServiceModel;

    closed spec fn view(&self) -> ServiceModel {
        ServiceModel {
            instance: strings_chars(self.parts.instance_name_labels@),
            service_type: strings_chars(self.parts.service_type_labels@),
            domain: self.parts.service_domain@,
            port: self.parts.port,
            records: self.txt_records@,
        }
    }
}

impl MdnsService {
    /// The domain services are usually registered under.
    pub const DEFAULT_DOMAIN: &'static str = "local";

    /// Validates an instance name: splits it at each dot and checks that no
    /// label holds a `%` or a control character.
    pub fn validate_instance_name(instance_name: &str) -> (r: Result<Vec<String>, MdnsServiceError>)
        ensures
            match instance_name_result(instance_name@) {
                Ok(ls) => r matches Ok(v) && strings_chars(v@) == ls,
                Err(f) => r matches Err(e) && e@ == f,
            },
    {
        let labels = split_at_dots(instance_name);
        let ghost ls = split_labels(instance_name@);
        let ghost p = forbidden_label();
        if labels.len() == 0 {
            proof {
                lemma_split_labels_len(instance_name@);
            }
            return Err(MdnsServiceError::MissingInstanceName);
        }
        let mut i: usize = 0;
        while i < labels.len()
            invariant
                i <= labels@.len(),
                strings_chars(labels@) == ls,
                ls == split_labels(instance_name@),
                p == forbidden_label(),
                forall|k: int| 0 <= k < i ==> !p(#[trigger] ls[k]),
            decreases labels@.len() - i,
        {
            if has_forbidden_chars(labels[i].as_str()) {
                proof {
                    assert(p(ls[i as int]));
                    lemma_first_with(ls, p);
                    let f = first_with(ls, p);
                    if f >= 0 && f < i {
                        assert(!p(ls[f]));
                    }
                    if f < 0 || f > i {
                        assert(!p(ls[i as int]));
                    }
                }
                return Err(MdnsServiceError::InvalidInstanceName(labels[i].clone()));
            }
            i = i + 1;
        }
        proof {
            lemma_first_with(ls, p);
            let f = first_with(ls, p);
            if f >= 0 {
                assert(!p(ls[f]));
            }
        }
        Ok(labels)
    }

    /// Validates a service type: splits it at each dot and checks that every
    /// label but the last is `_` followed by ASCII letters, digits and hyphens,
    /// and that the last is `_tcp` or `_udp`.
    pub fn validate_service_type(service_type: &str) -> (r: Result<Vec<String>, MdnsServiceError>)
        ensures
            match service_type_result(service_type@) {
                Ok(ls) => r matches Ok(v) && strings_chars(v@) == ls,
                Err(f) => r matches Err(e) && e@ == f,
            },
    {
        let labels = split_at_dots(service_type);
        let ghost ls = split_labels(service_type@);
        let ghost p = bad_service_label();
        if labels.len() == 0 {
            proof {
                lemma_split_labels_len(service_type@);
            }
            return Err(MdnsServiceError::MissingServiceType);
        }
        let last: usize = labels.len() - 1;
        let ghost front = ls.drop_last();
        let mut i: usize = 0;
        while i < last
            invariant
                i <= last,
                last == labels@.len() - 1,
                strings_chars(labels@) == ls,
                ls == split_labels(service_type@),
                front == ls.drop_last(),
                p == bad_service_label(),
                forall|k: int| 0 <= k < i ==> !p(#[trigger] front[k]),
            decreases last - i,
        {
            if !is_service_label(labels[i].as_str()) {
                proof {
                    assert(front[i as int] == ls[i as int]);
                    assert(p(front[i as int]));
                    lemma_first_with(front, p);
                    let f = first_with(front, p);
                    if f >= 0 && f < i {
                        assert(!p(front[f]));
                    }
                    if f < 0 || f > i {
                        assert(!p(front[i as int]));
                    }
                }
                return Err(MdnsServiceError::InvalidServiceType(labels[i].clone()));
            }
            i = i + 1;
        }
        proof {
            lemma_first_with(front, p);
            let f = first_with(front, p);
            if f >= 0 {
                assert(!p(front[f]));
            }
        }
        if !is_protocol_label(labels[last].as_str()) {
            return Err(MdnsServiceError::InvalidServiceProtocol(labels[last].clone()));
        }
        Ok(labels)
    }

    /// Validates a service domain: it may not hold a dot, a `%` or a control
    /// character.
    pub fn validate_service_domain(service_domain: &str) -> (r: Result<String, MdnsServiceError>)
        ensures
            match service_domain_result(service_domain@) {
                Ok(d) => r matches Ok(v) && v@ == d,
                Err(f) => r matches Err(e) && e@ == f,
            },
    {
        if has_forbidden_chars(service_domain) {
            Err(MdnsServiceError::InvalidServiceDomain(service_domain.to_owned()))
        } else {
            Ok(service_domain.to_owned())
        }
    }

    /// Creates a new [`MdnsService`], validating the instance name, the
    /// service type and the domain in that order.
    pub fn new(
        instance_name: &str,
        service_type: &str,
        service_domain: &str,
        port: u16,
        txt_records: TxtRecords,
    ) -> (r: Result<Self, MdnsServiceError>)
        ensures
            match service_parts_result(instance_name@, service_type@, service_domain@) {
                Ok((i, t, d)) => r matches Ok(s) && s@ == (ServiceModel {
                    instance: i,
                    service_type: t,
                    domain: d,
                    port,
                    records: txt_records@,
                }),
                Err(f) => r matches Err(e) && e@ == f,
            },
            r matches Ok(s) ==> service_parts_valid(s@.instance, s@.service_type, s@.domain),
    {
        let instance_name_labels = match Self::validate_instance_name(instance_name) {
            Ok(labels) => labels,
            Err(e) => return Err(e),
        };
        let service_type_labels = match Self::validate_service_type(service_type) {
            Ok(labels) => labels,
            Err(e) => return Err(e),
        };
        let service_domain = match Self::validate_service_domain(service_domain) {
            Ok(domain) => domain,
            Err(e) => return Err(e),
        };
        proof {
            let il = split_labels(instance_name@);
            let tl = split_labels(service_type@);
            lemma_split_labels_len(instance_name@);
            lemma_split_labels_len(service_type@);
            lemma_first_with(il, forbidden_label());
            lemma_first_with(tl.drop_last(), bad_service_label());
            assert forall|i: int| 0 <= i < tl.len() - 1 implies service_label_ok(#[trigger] tl[i]) by {
                assert(tl.drop_last()[i] == tl[i]);
                assert(!bad_service_label()(tl.drop_last()[i]));
            }
            assert forall|i: int| 0 <= i < il.len() implies !has_forbidden(#[trigger] il[i]) by {
                assert(!forbidden_label()(il[i]));
            }
        }
        let parts = ServiceParts { instance_name_labels, service_type_labels, service_domain, port };
        Ok(MdnsService { parts, txt_records })
    }

    /// All labels of the service's name: the instance name, the service
    /// type, then the domain.
    pub fn labels(&self) -> (r: Vec<String>)
        ensures
            strings_chars(r@) == service_labels(self@),
    {
        let mut labels: Vec<String> = Vec::new();
        extend_strings(&mut labels, &self.parts.instance_name_labels);
        extend_strings(&mut labels, &self.parts.service_type_labels);
        let ghost before = labels@;
        labels.push(self.parts.service_domain.clone());
        proof {
            assert(strings_chars(labels@) =~= strings_chars(before).push(self.parts.service_domain@));
            assert(strings_chars(Seq::<String>::empty()) =~= Seq::<Seq<char>>::empty());
            assert(service_labels(self@) =~= Seq::<Seq<char>>::empty() + self@.instance + self@.service_type
                + seq![self@.domain]);
        }
        labels
    }

    /// The instance name labels.
    pub fn instance_name_labels(&self) -> (r: &Vec<String>)
        ensures
            strings_chars(r@) == self@.instance,
    {
        &self.parts.instance_name_labels
    }

    /// The service type labels, the protocol last.
    pub fn service_type_labels(&self) -> (r: &Vec<String>)
        ensures
            strings_chars(r@) == self@.service_type,
    {
        &self.parts.service_type_labels
    }

    /// The service type's protocol: `_tcp` or `_udp`.
    pub fn service_type_protocol(&self) -> (r: &String)
        ensures
            r@ == self@.service_type.last(),
            protocol_label_ok(r@),
    {
        proof {
            use_type_invariant(&self.parts);
        }
        &self.parts.service_type_labels[self.parts.service_type_labels.len() - 1]
    }

    /// The domain.
    pub fn service_domain(&self) -> (r: &String)
        ensures
            r@ == self@.domain,
    {
        &self.parts.service_domain
    }

    /// The port the service listens on.
    pub fn port(&self) -> (r: u16)
        ensures
            r == self@.port,
    {
        self.parts.port
    }

    /// The TXT records.
    pub fn records(&self) -> (r: &TxtRecords)
        ensures
            r@ == self@.records,
    {
        &self.txt_records
    }

    /// The number of TXT records.
    pub fn total_records(&self) -> (r: usize)
        ensures
            r == self@.records.len(),
    {
        self.txt_records.len()
    }

    /// The TXT records, to be changed in place.
    pub fn records_mut(&mut self) -> (r: &mut TxtRecords)
        ensures
            r@ == old(self)@.records,
            final(self)@ == (ServiceModel { records: final(r)@, ..old(self)@ }),
    {
        &mut self.txt_records
    }

    /// Adds a TXT record, or sets the value of the record with this key;
    /// see [`TxtRecords::add`].
    pub fn add_record(&mut self, key: &str, value: &str) -> (r: Result<Option<String>, MdnsServiceError>)
        ensures
            r is Err <==> (txt_lookup(old(self)@.records, key@) is None && old(self)@.records.len()
                == TXT_RECORDS_CAPACITY),
            r matches Ok(prev) ==> final(self)@ == (ServiceModel {
                records: txt_insert(old(self)@.records, key@, value@),
                ..old(self)@
            }) && opt_chars(prev) == txt_lookup(old(self)@.records, key@),
            r matches Err(e) ==> e == MdnsServiceError::TxtRecordsFull && final(self)@ == old(self)@,
    {
        self.txt_records.add(key, value)
    }

    /// Removes the TXT record with this key and returns its value; see
    /// [`TxtRecords::remove`].
    pub fn remove_record(&mut self, key: &str) -> (r: Option<String>)
        ensures
            final(self)@ == (ServiceModel { records: txt_remove(old(self)@.records, key@), ..old(self)@ }),
            opt_chars(r) == txt_lookup(old(self)@.records, key@),
    {
        self.txt_records.remove(key)
    }

    /// The value of the TXT record with this key, if any.
    pub fn get_record(&self, key: &str) -> (r: Option<&String>)
        ensures
            match r {
                Some(s) => txt_lookup(self@.records, key@) == Some(s@),
                None => txt_lookup(self@.records, key@) is None,
            },
    {
        self.txt_records.get(key)
    }

    /// The service's full name: the instance name, the service type and the
    /// domain.
    pub fn service_name(&self) -> (r: Result<MdnsName, MdnsNameError>)
        ensures
            match check_labels(chars_bytes(service_labels(self@))) {
                Some(e) => r == Err::<MdnsName, MdnsNameError>(e),
                None => r matches Ok(n) && n@ == labels_wire(chars_bytes(service_labels(self@))),
            },
    {
        let labels = self.labels();
        proof {
            lemma_strings_bytes(labels@);
        }
        MdnsName::new(labels.as_slice())
    }

    /// The host name: the instance name and the domain.
    pub fn host_name(&self) -> (r: Result<MdnsName, MdnsNameError>)
        ensures
            match check_labels(chars_bytes(host_labels(self@))) {
                Some(e) => r == Err::<MdnsName, MdnsNameError>(e),
                None => r matches Ok(n) && n@ == labels_wire(chars_bytes(host_labels(self@))),
            },
    {
        let mut labels: Vec<String> = Vec::new();
        extend_strings(&mut labels, &self.parts.instance_name_labels);
        let ghost before = labels@;
        labels.push(self.parts.service_domain.clone());
        proof {
            assert(strings_chars(labels@) =~= strings_chars(before).push(self.parts.service_domain@));
            assert(strings_chars(Seq::<String>::empty()) =~= Seq::<Seq<char>>::empty());
            assert(strings_chars(labels@) =~= host_labels(self@));
            lemma_strings_bytes(labels@);
        }
        MdnsName::new(labels.as_slice())
    }

    /// The PTR record from the service type name to `payload`.
    fn ptr_record(&self, payload: &MdnsName, ttl: u32) -> (r: Result<MdnsResponse, MdnsServiceError>)
        requires
            payload@.len() <= 65535,
        ensures
            match check_labels(chars_bytes(type_labels(self@))) {
                Some(e) => r matches Err(x) && x@ == ServiceFault::NameError(e),
                None => r matches Ok(x) && x@ == (ResponseModel {
                    name: labels_wire(chars_bytes(type_labels(self@))),
                    rtype: DnsType::PTR,
                    rclass: DnsClass::IN,
                    ttl,
                    data: payload@,
                }),
            },
    {
        let mut labels: Vec<String> = Vec::new();
        extend_strings(&mut labels, &self.parts.service_type_labels);
        let ghost before = labels@;
        labels.push(self.parts.service_domain.clone());
        proof {
            assert(strings_chars(labels@) =~= strings_chars(before).push(self.parts.service_domain@));
            assert(strings_chars(Seq::<String>::empty()) =~= Seq::<Seq<char>>::empty());
            assert(strings_chars(labels@) =~= type_labels(self@));
            lemma_strings_bytes(labels@);
        }
        match MdnsName::new(labels.as_slice()) {
            Ok(name) => {
                let mut data: Vec<u8> = Vec::new();
                extend_bytes(&mut data, payload.to_wire_format());
                Ok(MdnsResponse::new(name, DnsType::PTR, DnsClass::IN, ttl, data))
            },
            Err(error) => Err(MdnsServiceError::NameError(error)),
        }
    }

    /// The SRV record of the service named `service_name`: the host
    /// `payload` and the port.
    fn srv_record(&self, service_name: MdnsName, payload: &MdnsName, ttl: u32) -> (r: MdnsResponse)
        requires
            6 + payload@.len() <= 65535,
        ensures
            r@ == (ResponseModel {
                name: service_name@,
                rtype: DnsType::SRV,
                rclass: DnsClass::IN,
                ttl,
                data: srv_data(0, 0, self@.port, payload@),
            }),
    {
        MdnsResponse::new_srv(service_name, ttl, 0, 0, self.parts.port, payload.to_wire_format())
    }

    /// The TXT record of the service named `service_name`, when there are
    /// TXT records.
    fn txt_record(&self, service_name: MdnsName, ttl: u32) -> (r: Option<
        Result<MdnsResponse, MdnsServiceError>,
    >)
        ensures
            r is None <==> self@.records.len() == 0,
            r matches Some(x) ==> (x is Ok <==> txt_entries_fit(self@.records)),
            r matches Some(Ok(x)) ==> x@ == (ResponseModel {
                name: service_name@,
                rtype: DnsType::TXT,
                rclass: DnsClass::IN,
                ttl,
                data: txt_wire(self@.records),
            }),
            r matches Some(Err(e)) ==> e@ == ServiceFault::TxtRecordError(TxtRecordError::EntryTooLong),
    {
        if self.txt_records.is_empty() {
            None
        } else {
            Some(
                match MdnsResponse::new_txt(service_name, ttl, &self.txt_records) {
                    Ok(response) => Ok(response),
                    Err(error) => Err(MdnsServiceError::TxtRecordError(error)),
                },
            )
        }
    }

    /// The packet that announces this service: the PTR, SRV and (when there
    /// are TXT records) TXT answers, and an A and an AAAA authority record
    /// for each address given.
    pub fn to_service_announcement_packet(
        &self,
        ttl: u32,
        ipv4: Option<&Vec<u8>>,
        ipv6: Option<&Vec<u8>>,
    ) -> (r: Result<MdnsPacket, MdnsServiceError>)
        requires
            announcement_fits(self@, opt_bytes(ipv4), opt_bytes(ipv6)),
        ensures
            match announcement_result(self@, ttl, opt_bytes(ipv4), opt_bytes(ipv6)) {
                Ok(p) => r matches Ok(x) && x@ == p,
                Err(f) => r matches Err(e) && e@ == f,
            },
    {
        let service_name = match self.service_name() {
            Ok(name) => name,
            Err(error) => return Err(MdnsServiceError::NameError(error)),
        };
        let host_name = match self.host_name() {
            Ok(name) => name,
            Err(error) => return Err(MdnsServiceError::NameError(error)),
        };
        let mut answers: Vec<MdnsResponse> = Vec::new();
        let ptr = match self.ptr_record(&service_name, ttl) {
            Ok(response) => response,
            Err(error) => return Err(error),
        };
        answers.push(ptr);
        answers.push(self.srv_record(service_name.clone(), &host_name, ttl));
        match self.txt_record(service_name.clone(), ttl) {
            Some(Ok(response)) => answers.push(response),
            Some(Err(error)) => return Err(error),
            None => {},
        }
        let mut authorities: Vec<MdnsResponse> = Vec::new();
        match ipv4 {
            Some(address) => {
                let data = address.clone();
                assert(data@ =~= address@);
                authorities.push(MdnsResponse::new_a(host_name.clone(), ttl, data));
            },
            None => {},
        }
        match ipv6 {
            Some(address) => {
                let data = address.clone();
                assert(data@ =~= address@);
                authorities.push(MdnsResponse::new_aaaa(host_name, ttl, data));
            },
            None => {},
        }
        let packet = MdnsPacket::new_with_records(0, Vec::new(), answers, authorities, Vec::new());
        proof {
            let m = self@;
            let hw = labels_wire(chars_bytes(host_labels(m)));
            assert(responses_view(authorities@) =~= address_records(hw, ttl, opt_bytes(ipv4), opt_bytes(ipv6)));
            match announcement_result(m, ttl, opt_bytes(ipv4), opt_bytes(ipv6)) {
                Ok(p) => {
                    assert(responses_view(answers@) =~= p.answers);
                    assert(answers@.len() == p.answers.len());
                    assert(authorities@.len() == p.authorities.len());
                    assert(answers@.len() > 0);
                    assert(packet@.header == p.header);
                    assert(packet@.questions =~= p.questions);
                    assert(packet@.additionals =~= p.additionals);
                    assert(packet@ == p);
                },
                Err(_) => {},
            }
        }
        Ok(packet)
    }
}

/// The announcement of a service: the PTR answer is named by the service
/// type and domain and points to the service's full name; the SRV answer is
/// named by that full name and carries port and host name; a TXT answer, when
/// there are records, is named by the full name too; every authority record
/// is an address record of the host name.
pub proof fn law_announcement_records(m: ServiceModel, ttl: u32, ipv4: Option<Seq<u8>>, ipv6: Option<Seq<u8>>)
    ensures
        announcement_result(m, ttl, ipv4, ipv6) matches Ok(p) ==> {
            let sw = labels_wire(chars_bytes(m.instance + m.service_type + seq![m.domain]));
            let hw = labels_wire(chars_bytes(m.instance + seq![m.domain]));
            &&& p.answers.len() == (if m.records.len() > 0 { 3int } else { 2int })
            &&& p.answers[0].rtype == DnsType::PTR
            &&& p.answers[0].name == labels_wire(chars_bytes(m.service_type + seq![m.domain]))
            &&& p.answers[0].data == sw
            &&& p.answers[1].rtype == DnsType::SRV
            &&& p.answers[1].name == sw
            &&& p.answers[1].data == u16_be_bytes(0) + u16_be_bytes(0) + u16_be_bytes(m.port) + hw
            &&& m.records.len() > 0 ==> p.answers[2].rtype == DnsType::TXT && p.answers[2].name == sw
            &&& forall|i: int| 0 <= i < p.answers.len() ==> (#[trigger] p.answers[i]).ttl == ttl
                && p.answers[i].rclass == DnsClass::IN
            &&& forall|i: int|
                0 <= i < p.authorities.len() ==> (#[trigger] p.authorities[i]).name == hw && (
                p.authorities[i].rtype == DnsType::A || p.authorities[i].rtype == DnsType::AAAA)
            &&& p.authorities.len() == (if ipv4 is Some { 1int } else { 0int }) + (if ipv6 is Some {
                1int
            } else {
                0int
            })
            &&& p.questions.len() == 0 && p.additionals.len() == 0
        },
{
}

/// An instance name none of whose characters is a dot, a `%` or a control
/// character (U+0000 to U+001F, U+007F to U+009F) is accepted whole, as one
/// label; so is any name whose characters avoid `%` and control characters,
/// split at its dots.
pub proof fn law_instance_name_allowed(s: Seq<char>)
    requires
        forall|k: int|
            0 <= k < s.len() ==> !(s[k] == '%' || (s[k] as u32) <= 0x1F || (0x7F <= (s[k] as u32)
                && (s[k] as u32) <= 0x9F)),
    ensures
        instance_name_result(s) == Ok::<Seq<Seq<char>>, ServiceFault>(split_labels(s)),
        (forall|k: int| 0 <= k < s.len() ==> s[k] != '.') ==> instance_name_result(s) == Ok::<
            Seq<Seq<char>>,
            ServiceFault,
        >(seq![s]),
{
    let ls = split_labels(s);
    lemma_split_labels_clean(s);
    lemma_first_with(ls, forbidden_label());
    if first_with(ls, forbidden_label()) >= 0 {
        let f = first_with(ls, forbidden_label());
        let j = choose|j: int| 0 <= j < ls[f].len() && #[trigger] forbidden_char(ls[f][j]);
        assert(forbidden_char(ls[f][j]));
    }
    if forall|k: int| 0 <= k < s.len() ==> s[k] != '.' {
        lemma_split_labels_no_dot_text(s);
    }
}

/// A domain is accepted exactly when none of its characters is a dot, a `%`
/// or a control character (U+0000 to U+001F, U+007F to U+009F).
pub proof fn law_service_domain_allowed(s: Seq<char>)
    ensures
        service_domain_result(s) is Ok <==> forall|k: int|
            0 <= k < s.len() ==> !(s[k] == '.' || s[k] == '%' || (s[k] as u32) <= 0x1F || (0x7F
                <= (s[k] as u32) && (s[k] as u32) <= 0x9F)),
        service_domain_result(s) matches Ok(d) ==> d == s,
{
    if !(forall|k: int|
        0 <= k < s.len() ==> !(s[k] == '.' || s[k] == '%' || (s[k] as u32) <= 0x1F || (0x7F <= (
        s[k] as u32) && (s[k] as u32) <= 0x9F))) {
        let k = choose|k: int|
            0 <= k < s.len() && (s[k] == '.' || s[k] == '%' || (s[k] as u32) <= 0x1F || (0x7F <= (
            s[k] as u32) && (s[k] as u32) <= 0x9F));
        assert(forbidden_char(s[k]));
    }
}

/// Each character of a piece of a split is a character of the text, so
/// pieces of text free of `%` and control characters are free of every
/// forbidden character.
proof fn lemma_split_labels_clean(s: Seq<char>)
    requires
        forall|k: int|
            0 <= k < s.len() ==> !(s[k] == '%' || (s[k] as u32) <= 0x1F || (0x7F <= (s[k] as u32)
                && (s[k] as u32) <= 0x9F)),
    ensures
        forall|i: int, j: int|
            0 <= i < split_labels(s).len() && 0 <= j < split_labels(s)[i].len() ==> !forbidden_char(
                #[trigger] split_labels(s)[i][j],
            ),
    decreases s.len(),
{
    if s.len() > 0 {
        let d = s.drop_last();
        assert forall|k: int|
            0 <= k < d.len() implies !(d[k] == '%' || (d[k] as u32) <= 0x1F || (0x7F <= (d[k] as u32)
            && (d[k] as u32) <= 0x9F)) by {
            assert(d[k] == s[k]);
        }
        lemma_split_labels_clean(d);
        lemma_split_labels_len(d);
        let p = split_labels(d);
        let c = s.last();
        assert(c == s[s.len() - 1]);
        assert forall|i: int, j: int|
            0 <= i < split_labels(s).len() && 0 <= j < split_labels(s)[i].len() implies !forbidden_char(
            #[trigger] split_labels(s)[i][j],
        ) by {
            if c == '.' {
                if i < p.len() {
                    assert(split_labels(s)[i] == p[i]);
                }
            } else if i == p.len() - 1 {
                if j < p.last().len() {
                    assert(split_labels(s)[i][j] == p[i][j]);
                } else {
                    assert(split_labels(s)[i][j] == c);
                }
            } else {
                assert(split_labels(s)[i] == p[i]);
            }
        }
    }
}

/// Text with no dot splits into itself alone.
proof fn lemma_split_labels_no_dot_text(s: Seq<char>)
    requires
        forall|k: int| 0 <= k < s.len() ==> s[k] != '.',
    ensures
        split_labels(s) == seq![s],
    decreases s.len(),
{
    if s.len() == 0 {
        assert(s =~= Seq::<char>::empty());
        assert(split_labels(s) =~= seq![s]);
    } else {
        let d = s.drop_last();
        assert forall|k: int| 0 <= k < d.len() implies d[k] != '.' by {
            assert(d[k] == s[k]);
        }
        lemma_split_labels_no_dot_text(d);
        assert(s.last() == s[s.len() - 1]);
        assert(s.last() != '.');
        assert(d.push(s.last()) =~= s);
        let p = split_labels(d);
        assert(p.len() == 1 && p.last() == d);
        assert(split_labels(s) == p.update(p.len() - 1, p.last().push(s.last())));
        assert(split_labels(s) =~= seq![s]);
    }
}

} // verus!
