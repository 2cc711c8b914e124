use mdns_lite::responder::{answer_question, broadcast_interval, reply_to_packet};
use mdns_lite::{
    DnsClass, DnsType, MdnsAnswerError, MdnsName, MdnsNameError, MdnsPacket, MdnsQuery,
    MdnsService, MdnsServiceError, ServiceRegistry, TxtRecords,
};

fn lamp() -> MdnsService {
    MdnsService::new("lamp", "_http._tcp", "local", 80, TxtRecords::new()).unwrap()
}

#[test]
fn broadcast_interval_has_a_floor() {
    assert_eq!(broadcast_interval(0), 1000);
    assert_eq!(broadcast_interval(999), 1000);
    assert_eq!(broadcast_interval(1000), 1000);
    assert_eq!(broadcast_interval(60_000), 60_000);
}

#[test]
fn registry_find_after_register() {
    let mut registry = ServiceRegistry::new();
    assert!(registry.register(lamp()).is_ok());
    let name = MdnsName::from_name("lamp._http._tcp.local.").unwrap();
    assert_eq!(registry.find(&name).unwrap().port(), 80);
    assert!(registry.find(&MdnsName::from_name("other._http._tcp.local.").unwrap()).is_none());

    let replacement = MdnsService::new("lamp", "_http._tcp", "local", 8080, TxtRecords::new()).unwrap();
    assert!(registry.register(replacement).is_ok());
    assert_eq!(registry.services().len(), 1);
    assert_eq!(registry.find(&name).unwrap().port(), 8080);

    let bad = MdnsService::new("", "_http._tcp", "local", 1, TxtRecords::new()).unwrap();
    assert!(registry.register(bad).is_err());
    assert_eq!(registry.services().len(), 1);
}

#[test]
fn registry_register_new_service() {
    let mut registry = ServiceRegistry::new();
    assert_eq!(registry.register_service("printer", "_ipp._tcp", 631), Ok(()));
    let name = MdnsName::from_name("printer._ipp._tcp.local.").unwrap();
    assert_eq!(registry.find(&name).unwrap().port(), 631);
    assert_eq!(
        registry.register_service_with_domain("printer", "_ipp._xyz", 631, "local"),
        Err(MdnsServiceError::InvalidServiceProtocol("_xyz".to_owned()))
    );
    assert_eq!(
        registry.register_service_with_domain("", "_ipp._tcp", 631, "local"),
        Err(MdnsServiceError::NameError(MdnsNameError::LabelTooShort))
    );
    assert_eq!(registry.services().len(), 1);
}

#[test]
fn answers_by_question_type() {
    let mut service = lamp();
    service.add_record("path", "/").unwrap();
    let name = MdnsName::from_name("lamp._http._tcp.local.").unwrap();
    let ipv4 = vec![10, 0, 0, 7];
    let a = answer_question(&MdnsQuery::new(name.clone(), DnsType::A, DnsClass::IN), &service, 30, Some(&ipv4), None)
        .unwrap();
    assert_eq!(a.data(), &ipv4);
    assert_eq!(a.ttl(), 30);
    assert!(answer_question(&MdnsQuery::new(name.clone(), DnsType::AAAA, DnsClass::IN), &service, 30, Some(&ipv4), None)
        .is_none());
    let txt = answer_question(&MdnsQuery::new(name.clone(), DnsType::TXT, DnsClass::IN), &service, 30, None, None)
        .unwrap();
    assert_eq!(txt.data(), &vec![6, b'p', b'a', b't', b'h', b'=', b'/']);
    assert!(answer_question(&MdnsQuery::new(name, DnsType::SRV, DnsClass::IN), &service, 30, None, None).is_none());
}

#[test]
fn reply_answers_registered_services() {
    let mut registry = ServiceRegistry::new();
    registry.register(lamp()).unwrap();
    let ipv4 = vec![10, 0, 0, 7];
    let asked = MdnsName::from_name("lamp._http._tcp.local.").unwrap();
    let unknown = MdnsName::from_name("fan._http._tcp.local.").unwrap();
    let query = MdnsPacket::new_query(
        77,
        vec![
            MdnsQuery::new(asked.clone(), DnsType::A, DnsClass::IN),
            MdnsQuery::new(unknown, DnsType::A, DnsClass::IN),
            MdnsQuery::new(asked, DnsType::TXT, DnsClass::IN),
        ],
    );
    let reply = reply_to_packet(&registry, &query, 120, Some(&ipv4), None).unwrap();
    assert_eq!(reply.transaction_id(), 77);
    assert!(reply.header().flags().qr());
    assert_eq!(reply.answers().len(), 2);
    assert_eq!(reply.answers()[0].response_type(), &DnsType::A);
    assert_eq!(reply.answers()[1].response_type(), &DnsType::TXT);
    assert!(reply_to_packet(&registry, &MdnsPacket::new_empty(1), 120, None, None).is_none());
}

#[test]
fn answer_error_variant() {
    let e = MdnsAnswerError::UnknownQueryType(0x1234);
    assert_eq!(e, MdnsAnswerError::UnknownQueryType(0x1234));
}

#[test]
fn registry_holds_each_name_once() {
    let mut registry = ServiceRegistry::new();
    registry.register_service("a", "_http._tcp", 1).unwrap();
    registry.register_service("b", "_http._tcp", 2).unwrap();
    registry.register_service("a", "_http._tcp", 3).unwrap();
    assert_eq!(registry.services().len(), 2);
    assert_eq!(registry.services()[0].port(), 3);
    assert_eq!(registry.services()[1].port(), 2);
}
