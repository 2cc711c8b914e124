//! # mDNS Lite - Responder
//! The decisions of an mDNS responder: which services are registered, how a
//! question about one of them is answered, and how often services are
//! announced. Sending and receiving packets is left to the caller.

use vstd::prelude::*;

use crate::protocol::class::DnsClass;
use crate::protocol::header::HeaderFields;
use crate::protocol::name::{check_labels, labels_wire, MdnsName, MdnsNameError};
use crate::protocol::packet::{records_flags, responses_view, MdnsPacket, PacketModel};
use crate::protocol::query::{MdnsQuery, QueryModel};
use crate::protocol::record_type::DnsType;
use crate::protocol::response::{MdnsResponse, ResponseModel};
use crate::service::instance::{chars_bytes, service_labels, service_parts_result, MdnsService, ServiceModel};
use crate::service::{MdnsServiceError, ServiceFault, TxtRecords};
use crate::service::txt_record::{txt_entries_fit, txt_wire};

verus! {

/// Errors that can occur while answering an mDNS question.
#[derive(Clone, Copy, PartialEq, Eq, Structural, PartialOrd, Ord, Debug)]
pub enum MdnsAnswerError {
    /// The question asks for a record type that is not known.
    UnknownQueryType(u16),
}

/// The shortest interval between service announcements, in milliseconds.
pub const MIN_BROADCAST_INTERVAL: u32 = 1000;

/// The interval between service announcements used for a requested
/// interval: the requested one, but never under one second.
pub fn broadcast_interval(requested: u32) -> (r: u32)
    ensures
        r == if requested < MIN_BROADCAST_INTERVAL {
            MIN_BROADCAST_INTERVAL
        } else {
            requested
        },
{
    if requested < MIN_BROADCAST_INTERVAL {
        MIN_BROADCAST_INTERVAL
    } else {
        requested
    }
}

/// The wire bytes of a service's full name, when its labels make a valid
/// name.
pub open spec fn service_wire(m: ServiceModel) -> Option<Seq<u8>> {
    if check_labels(chars_bytes(service_labels(m))) is None {
        Some(labels_wire(chars_bytes(service_labels(m))))
    } else {
        None
    }
}

/// The position of the first service named `w`, or -1.
pub open spec fn registry_index(ms: Seq<ServiceModel>, w: Seq<u8>) -> int
    decreases ms.len(),
{
    if ms.len() == 0 {
        -1
    } else if service_wire(ms[0]) == Some(w) {
        0
    } else {
        let r = registry_index(ms.drop_first(), w);
        if r < 0 {
            -1
        } else {
            r + 1
        }
    }
}

/// The services once `m`, named `w`, is registered: it takes the place of
/// the first service with the same name, or goes last.
pub open spec fn registry_insert(ms: Seq<ServiceModel>, w: Seq<u8>, m: ServiceModel) -> Seq<ServiceModel> {
    if registry_index(ms, w) >= 0 {
        ms.update(registry_index(ms, w), m)
    } else {
        ms.push(m)
    }
}

/// What `registry_index` finds: the first position whose service is named
/// `w`, or -1 when none is.
pub proof fn lemma_registry_index(ms: Seq<ServiceModel>, w: Seq<u8>)
    ensures
        -1 <= registry_index(ms, w) < ms.len(),
        registry_index(ms, w) >= 0 ==> service_wire(ms[registry_index(ms, w)]) == Some(w),
        forall|k: int|
            0 <= k < ms.len() && (registry_index(ms, w) < 0 || k < registry_index(ms, w))
                ==> service_wire(#[trigger] ms[k]) != Some(w),
    decreases ms.len(),
{
    if ms.len() > 0 && service_wire(ms[0]) != Some(w) {
        let d = ms.drop_first();
        lemma_registry_index(d, w);
        assert forall|k: int|
            0 <= k < ms.len() && (registry_index(ms, w) < 0 || k < registry_index(ms, w)) implies service_wire(
            #[trigger] ms[k],
        ) != Some(w) by {
            if k > 0 {
                assert(ms[k] == d[k - 1]);
            }
        }
        if registry_index(d, w) >= 0 {
            assert(ms[registry_index(ms, w)] == d[registry_index(d, w)]);
        }
    }
}

/// Once a service is registered under its name, looking that name up finds
/// it.
pub proof fn law_registry_find_after_register(ms: Seq<ServiceModel>, m: ServiceModel)
    requires
        service_wire(m) is Some,
    ensures
        ({
            let w = service_wire(m)->0;
            let r = registry_insert(ms, w, m);
            registry_index(r, w) >= 0 && r[registry_index(r, w)] == m
        }),
{
    let w = service_wire(m)->0;
    let r = registry_insert(ms, w, m);
    lemma_registry_index(ms, w);
    lemma_registry_index(r, w);
    let i = if registry_index(ms, w) >= 0 { registry_index(ms, w) } else { ms.len() as int };
    assert(r[i] == m);
    assert forall|k: int| 0 <= k < i implies service_wire(#[trigger] r[k]) != Some(w) by {
        assert(r[k] == ms[k]);
    }
    if registry_index(r, w) < i {
        assert(service_wire(r[registry_index(r, w)]) != Some(w));
    }
    if registry_index(r, w) > i || registry_index(r, w) < 0 {
        assert(service_wire(r[i]) != Some(w));
    }
}

/// Registered services: each has a valid full name, and no two share one.
pub open spec fn registry_ok(ms: Seq<ServiceModel>) -> bool {
    &&& forall|i: int| 0 <= i < ms.len() ==> (#[trigger] service_wire(ms[i])) is Some
    &&& forall|i: int, j: int|
        0 <= i < j < ms.len() ==> service_wire(#[trigger] ms[i]) != service_wire(#[trigger] ms[j])
}

/// Registering a service with a valid name keeps every name valid and no
/// name held twice.
pub proof fn law_registry_insert_ok(ms: Seq<ServiceModel>, m: ServiceModel)
    requires
        registry_ok(ms),
        service_wire(m) is Some,
    ensures
        registry_ok(registry_insert(ms, service_wire(m)->0, m)),
{
    let w = service_wire(m)->0;
    let r = registry_insert(ms, w, m);
    lemma_registry_index(ms, w);
    let idx = registry_index(ms, w);
    assert forall|i: int| 0 <= i < r.len() implies (#[trigger] service_wire(r[i])) is Some by {
        if i < ms.len() && i != idx {
            assert(r[i] == ms[i]);
        }
    }
    assert forall|i: int, j: int| 0 <= i < j < r.len() implies service_wire(#[trigger] r[i])
        != service_wire(#[trigger] r[j]) by {
        if idx >= 0 {
            if i == idx {
                assert(r[j] == ms[j]);
                assert(service_wire(ms[j]) != service_wire(ms[idx]));
            } else if j == idx {
                assert(r[i] == ms[i]);
                assert(service_wire(ms[i]) != service_wire(ms[idx]));
            } else {
                assert(r[i] == ms[i] && r[j] == ms[j]);
            }
        } else {
            assert(r[i] == ms[i]);
            if j < ms.len() {
                assert(r[j] == ms[j]);
            } else {
                assert(service_wire(ms[i]) != Some(w));
            }
        }
    }
}

/// The services a responder answers for, found by their full names.
pub struct ServiceRegistry {
    services: Vec<MdnsService>,
}

/// The models of a list of services.
pub open spec fn services_view(v: Seq<MdnsService>) -> Seq<ServiceModel> {
    v.map_values(|s: MdnsService| s@)
}

impl View for ServiceRegistry {
    type V = Seq<ServiceModel>;

    closed spec fn view(&self) -> Seq<ServiceModel> {
        services_view(self.services@)
    }
}

impl ServiceRegistry {
    #[verifier::type_invariant]
    spec fn names_unique(self) -> bool {
        registry_ok(services_view(self.services@))
    }

    /// Creates a registry with no services.
    pub fn new() -> (r: Self)
        ensures
            r@ == Seq::<ServiceModel>::empty(),
            registry_ok(r@),
    {
        let r = ServiceRegistry { services: Vec::new() };
        assert(r@ =~= Seq::<ServiceModel>::empty());
        r
    }

    /// The registered services, in order.
    pub fn services(&self) -> (r: &Vec<MdnsService>)
        ensures
            services_view(r@) == self@,
            registry_ok(self@),
    {
        proof {
            use_type_invariant(self);
        }
        &self.services
    }

    /// The position of the first service whose full name is `name`.
    fn index_of(&self, name: &MdnsName) -> (r: Option<usize>)
        ensures
            match r {
                Some(i) => registry_index(self@, name@) == i && i < self.services@.len(),
                None => registry_index(self@, name@) < 0,
            },
            self@.len() == self.services@.len(),
    {
        proof {
            lemma_registry_index(self@, name@);
        }
        let mut i: usize = 0;
        while i < self.services.len()
            invariant
                i <= self@.len(),
                self@.len() == self.services@.len(),
                forall|k: int| 0 <= k < i ==> service_wire(#[trigger] self@[k]) != Some(name@),
                -1 <= registry_index(self@, name@) < self@.len(),
                registry_index(self@, name@) >= 0 ==> service_wire(self@[registry_index(self@, name@)]) == Some(
                    name@,
                ),
                forall|k: int|
                    0 <= k < self@.len() && (registry_index(self@, name@) < 0 || k < registry_index(
                        self@,
                        name@,
                    )) ==> service_wire(#[trigger] self@[k]) != Some(name@),
            decreases self@.len() - i,
        {
            assert(self@[i as int] == self.services@[i as int]@);
            match self.services[i].service_name() {
                Ok(n) => {
                    if n.same_name(name) {
                        assert(service_wire(self@[i as int]) == Some(name@));
                        return Some(i);
                    }
                },
                Err(_) => {},
            }
            i = i + 1;
        }
        None
    }

    /// The service whose full name is `name`, if any.
    pub fn find(&self, name: &MdnsName) -> (r: Option<&MdnsService>)
        ensures
            match r {
                Some(s) => registry_index(self@, name@) >= 0 && s@ == self@[registry_index(self@, name@)],
                None => registry_index(self@, name@) < 0,
            },
    {
        match self.index_of(name) {
            Some(i) => Some(&self.services[i]),
            None => None,
        }
    }

    /// Registers a service under its full name, replacing a service already
    /// registered under that name.
    ///
    /// Fails, changing nothing, when the service's labels do not make a valid
    /// name.
    pub fn register(&mut self, service: MdnsService) -> (r: Result<(), MdnsNameError>)
        ensures
            match check_labels(chars_bytes(service_labels(service@))) {
                Some(e) => r == Err::<(), MdnsNameError>(e) && final(self)@ == old(self)@,
                None => r is Ok && final(self)@ == registry_insert(
                    old(self)@,
                    labels_wire(chars_bytes(service_labels(service@))),
                    service@,
                ),
            },
            registry_ok(final(self)@),
    {
        proof {
            use_type_invariant(&*self);
        }
        let name = match service.service_name() {
            Ok(name) => name,
            Err(e) => return Err(e),
        };
        let ghost m = service@;
        proof {
            law_registry_insert_ok(self@, m);
        }
        let index = self.index_of(&name);
        let mut services: Vec<MdnsService> = Vec::new();
        std::mem::swap(&mut services, &mut self.services);
        match index {
            Some(i) => {
                services[i] = service;
            },
            None => {
                services.push(service);
            },
        }
        assert(services_view(services@) =~= registry_insert(old(self)@, name@, m));
        self.services = services;
        Ok(())
    }

    /// Creates a service with no TXT records under the default domain and
    /// registers it; see [`ServiceRegistry::register_service_with_domain`].
    pub fn register_service(
        &mut self,
        instance_name: &str,
        service_type: &str,
        service_port: u16,
    ) -> (r: Result<(), MdnsServiceError>)
        ensures
            match register_new_result(
                old(self)@,
                instance_name@,
                service_type@,
                MdnsService::DEFAULT_DOMAIN@,
                service_port,
            ) {
                Ok(ms) => r is Ok && final(self)@ == ms,
                Err(f) => r matches Err(e) && e@ == f && final(self)@ == old(self)@,
            },
            registry_ok(final(self)@),
    {
        self.register_service_with_domain(instance_name, service_type, service_port, MdnsService::DEFAULT_DOMAIN)
    }

    /// Creates a service with no TXT records and registers it under its full
    /// name, replacing a service already registered under that name.
    ///
    /// Fails, changing nothing, when a part of the service is invalid or its
    /// labels do not make a valid name.
    pub fn register_service_with_domain(
        &mut self,
        instance_name: &str,
        service_type: &str,
        service_port: u16,
        service_domain: &str,
    ) -> (r: Result<(), MdnsServiceError>)
        ensures
            match register_new_result(old(self)@, instance_name@, service_type@, service_domain@, service_port) {
                Ok(ms) => r is Ok && final(self)@ == ms,
                Err(f) => r matches Err(e) && e@ == f && final(self)@ == old(self)@,
            },
            registry_ok(final(self)@),
    {
        proof {
            use_type_invariant(&*self);
        }
        let records = TxtRecords::new();
        let service = match MdnsService::new(instance_name, service_type, service_domain, service_port, records) {
            Ok(service) => service,
            Err(e) => return Err(e),
        };
        match self.register(service) {
            Ok(()) => Ok(()),
            Err(e) => Err(MdnsServiceError::NameError(e)),
        }
    }
}

/// What registering a new service with no TXT records does to the
/// registered services: the fault met first, or the services once it is
/// registered.
pub open spec fn register_new_result(
    ms: Seq<ServiceModel>,
    instance: Seq<char>,
    service_type: Seq<char>,
    domain: Seq<char>,
    port: u16,
) -> Result<Seq<ServiceModel>, ServiceFault> {
    match service_parts_result(instance, service_type, domain) {
        Err(f) => Err(f),
        Ok((i, t, d)) => {
            let m = ServiceModel { instance: i, service_type: t, domain: d, port, records: Seq::empty() };
            match check_labels(chars_bytes(service_labels(m))) {
                Some(e) => Err(ServiceFault::NameError(e)),
                None => Ok(registry_insert(ms, labels_wire(chars_bytes(service_labels(m))), m)),
            }
        },
    }
}

/// The answer to a question about a service: its IPv4 or IPv6 address, or
/// its TXT records; other questions get no answer here.
pub open spec fn question_answer(
    q: QueryModel,
    m: ServiceModel,
    ttl: u32,
    ipv4: Option<Seq<u8>>,
    ipv6: Option<Seq<u8>>,
) -> Option<ResponseModel> {
    match q.qtype {
        DnsType::A => match ipv4 {
            Some(v) => Some(ResponseModel { name: q.name, rtype: DnsType::A, rclass: DnsClass::IN, ttl, data: v }),
            None => None,
        },
        DnsType::AAAA => match ipv6 {
            Some(v) => Some(ResponseModel { name: q.name, rtype: DnsType::AAAA, rclass: DnsClass::IN, ttl, data: v }),
            None => None,
        },
        DnsType::TXT => if txt_entries_fit(m.records) {
            Some(
                ResponseModel {
                    name: q.name,
                    rtype: DnsType::TXT,
                    rclass: DnsClass::IN,
                    ttl,
                    data: txt_wire(m.records),
                },
            )
        } else {
            None
        },
        _ => None,
    }
}

/// An answer is a record of the type asked for, under the name asked about,
/// in class IN, with the given time to live: an A record holds the IPv4
/// address, an AAAA record the IPv6 address, a TXT record the service's TXT
/// records in wire form. Only A, AAAA and TXT questions are answered, A and
/// AAAA exactly when that address is known.
pub proof fn law_answer_matches_question(
    q: QueryModel,
    m: ServiceModel,
    ttl: u32,
    ipv4: Option<Seq<u8>>,
    ipv6: Option<Seq<u8>>,
)
    ensures
        question_answer(q, m, ttl, ipv4, ipv6) matches Some(a) ==> {
            &&& a.rtype == q.qtype
            &&& a.name == q.name
            &&& a.rclass == DnsClass::IN
            &&& a.ttl == ttl
            &&& q.qtype == DnsType::A ==> ipv4 == Some(a.data)
            &&& q.qtype == DnsType::AAAA ==> ipv6 == Some(a.data)
            &&& q.qtype == DnsType::TXT ==> a.data == txt_wire(m.records)
        },
        question_answer(q, m, ttl, ipv4, ipv6) is Some ==> (q.qtype == DnsType::A || q.qtype
            == DnsType::AAAA || q.qtype == DnsType::TXT),
        q.qtype == DnsType::A ==> (question_answer(q, m, ttl, ipv4, ipv6) is Some <==> ipv4 is Some),
        q.qtype == DnsType::AAAA ==> (question_answer(q, m, ttl, ipv4, ipv6) is Some <==> ipv6 is Some),
{
}

/// The answers to a list of questions, in order: for each question about a
/// registered service, its answer, if it has one.
pub open spec fn questions_answers(
    qs: Seq<QueryModel>,
    ms: Seq<ServiceModel>,
    ttl: u32,
    ipv4: Option<Seq<u8>>,
    ipv6: Option<Seq<u8>>,
) -> Seq<ResponseModel>
    decreases qs.len(),
{
    if qs.len() == 0 {
        Seq::empty()
    } else {
        let before = questions_answers(qs.drop_last(), ms, ttl, ipv4, ipv6);
        let q = qs.last();
        let i = registry_index(ms, q.name);
        if i >= 0 {
            match question_answer(q, ms[i], ttl, ipv4, ipv6) {
                Some(a) => before.push(a),
                None => before,
            }
        } else {
            before
        }
    }
}

/// The reply to a received packet: nothing when it asks no questions;
/// otherwise a response with the same transaction ID that carries the
/// answers.
pub open spec fn reply_to(
    p: PacketModel,
    ms: Seq<ServiceModel>,
    ttl: u32,
    ipv4: Option<Seq<u8>>,
    ipv6: Option<Seq<u8>>,
) -> Option<PacketModel> {
    if p.questions.len() == 0 {
        None
    } else {
        let answers = questions_answers(p.questions, ms, ttl, ipv4, ipv6);
        Some(
            PacketModel {
                header: HeaderFields {
                    id: p.header.id,
                    flags: records_flags(true, false),
                    questions: 0,
                    answers: answers.len() as u16,
                    authorities: 0,
                    additionals: 0,
                },
                questions: Seq::empty(),
                answers,
                authorities: Seq::empty(),
                additionals: Seq::empty(),
            },
        )
    }
}

/// The bytes of an optional byte list.
pub open spec fn addr_bytes(o: Option<&Vec<u8>>) -> Option<Seq<u8>> {
    match o {
        Some(v) => Some(v@),
        None => None,
    }
}

/// Addresses that are an IPv4 and an IPv6 address, where given.
pub open spec fn addresses_ok(ipv4: Option<&Vec<u8>>, ipv6: Option<&Vec<u8>>) -> bool {
    &&& ipv4 matches Some(v) ==> v@.len() == 4
    &&& ipv6 matches Some(v) ==> v@.len() == 16
}

/// Answers one question about `service`.
pub fn answer_question(
    question: &MdnsQuery,
    service: &MdnsService,
    ttl: u32,
    ipv4: Option<&Vec<u8>>,
    ipv6: Option<&Vec<u8>>,
) -> (r: Option<MdnsResponse>)
    requires
        addresses_ok(ipv4, ipv6),
    ensures
        match question_answer(question@, service@, ttl, addr_bytes(ipv4), addr_bytes(ipv6)) {
            Some(a) => r matches Some(x) && x@ == a,
            None => r is None,
        },
{
    match question.query_type() {
        DnsType::A => match ipv4 {
            Some(address) => {
                let data = address.clone();
                assert(data@ =~= address@);
                Some(MdnsResponse::new_a(question.name().clone(), ttl, data))
            },
            None => None,
        },
        DnsType::AAAA => match ipv6 {
            Some(address) => {
                let data = address.clone();
                assert(data@ =~= address@);
                Some(MdnsResponse::new_aaaa(question.name().clone(), ttl, data))
            },
            None => None,
        },
        DnsType::TXT => match MdnsResponse::new_txt(question.name().clone(), ttl, service.records()) {
            Ok(response) => Some(response),
            Err(_) => None,
        },
        _ => None,
    }
}

/// The reply to a received packet: `None` when it asks no questions;
/// otherwise a response with the same transaction ID that answers each
/// question about a registered service.
pub fn reply_to_packet(
    registry: &ServiceRegistry,
    packet: &MdnsPacket,
    ttl: u32,
    ipv4: Option<&Vec<u8>>,
    ipv6: Option<&Vec<u8>>,
) -> (r: Option<MdnsPacket>)
    requires
        addresses_ok(ipv4, ipv6),
    ensures
        match reply_to(packet@, registry@, ttl, addr_bytes(ipv4), addr_bytes(ipv6)) {
            Some(p) => r matches Some(x) && x@ == p,
            None => r is None,
        },
{
    if !packet.has_questions() {
        return None;
    }
    let questions = packet.questions();
    let ghost qs = packet@.questions;
    let mut answers: Vec<MdnsResponse> = Vec::new();
    let mut i: usize = 0;
    proof {
        assert(qs.take(0) =~= Seq::<QueryModel>::empty());
        assert(responses_view(answers@) =~= Seq::<ResponseModel>::empty());
    }
    while i < questions.len()
        invariant
            i <= questions@.len(),
            qs == packet@.questions,
            qs.len() == questions@.len(),
            forall|k: int| 0 <= k < questions@.len() ==> #[trigger] questions@[k]@ == qs[k],
            addresses_ok(ipv4, ipv6),
            responses_view(answers@) == questions_answers(
                qs.take(i as int),
                registry@,
                ttl,
                addr_bytes(ipv4),
                addr_bytes(ipv6),
            ),
        decreases questions@.len() - i,
    {
        let question = &questions[i];
        let ghost before = answers@;
        proof {
            let t = qs.take(i + 1);
            assert(t.drop_last() =~= qs.take(i as int));
            assert(t.last() == qs[i as int]);
            assert(question@ == qs[i as int]);
        }
        match registry.find(question.name()) {
            Some(service) => match answer_question(question, service, ttl, ipv4, ipv6) {
                Some(answer) => {
                    answers.push(answer);
                    assert(responses_view(answers@) =~= responses_view(before).push(answer@));
                },
                None => {},
            },
            None => {},
        }
        i = i + 1;
    }
    proof {
        assert(qs.take(questions@.len() as int) =~= qs);
    }
    Some(MdnsPacket::new_response(packet.transaction_id(), answers, Vec::new(), Vec::new()))
}

} // verus!
