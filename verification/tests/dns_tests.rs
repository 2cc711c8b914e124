use mdns_lite::{
    DnsClass, DnsName, DnsNameError, DnsType, MdnsFlags, MdnsHeader, MdnsName, MdnsPacket,
    MdnsQuery, MdnsResponse, Opcode, Query, Rcode, Response,
};

#[test]
fn test_mdns_flags() {
    let mut flags = MdnsFlags::new();
    assert!(!flags.qr());
    flags.set_qr(true);
    assert!(flags.qr());
    flags.set_qr(false);
    assert!(!flags.qr());

    assert_eq!(flags.opcode(), Opcode::Query);
    flags.set_opcode(Opcode::IQuery);
    assert_eq!(flags.opcode(), Opcode::IQuery);
    flags.set_opcode(Opcode::Status);
    assert_eq!(flags.opcode(), Opcode::Status);
    flags.set_opcode(Opcode::Unknown(9));
    assert_eq!(flags.opcode(), Opcode::Unknown(9));

    assert!(!flags.aa());
    flags.set_aa(true);
    assert!(flags.aa());
    flags.set_aa(false);
    assert!(!flags.aa());

    assert!(!flags.tc());
    flags.set_tc(true);
    assert!(flags.tc());
    flags.set_tc(false);
    assert!(!flags.tc());

    assert!(!flags.rd());
    flags.set_rd(true);
    assert!(flags.rd());
    flags.set_rd(false);
    assert!(!flags.rd());

    assert!(!flags.ra());
    flags.set_ra(true);
    assert!(flags.ra());
    flags.set_ra(false);
    assert!(!flags.ra());

    assert_eq!(flags.rcode(), Rcode::NoError);
    flags.set_rcode(Rcode::FormatError);
    assert_eq!(flags.rcode(), Rcode::FormatError);
    flags.set_rcode(Rcode::ServerFailure);
    assert_eq!(flags.rcode(), Rcode::ServerFailure);
    flags.set_rcode(Rcode::NameError);
    assert_eq!(flags.rcode(), Rcode::NameError);
    flags.set_rcode(Rcode::NotImplemented);
    assert_eq!(flags.rcode(), Rcode::NotImplemented);
    flags.set_rcode(Rcode::Refused);
    assert_eq!(flags.rcode(), Rcode::Refused);
    flags.set_rcode(Rcode::Unknown(7));
    assert_eq!(flags.rcode(), Rcode::Unknown(7));
}

#[test]
fn test_mdns_flags_from_u16() {
    let flags = MdnsFlags::from(0x8000);
    assert!(flags.qr());
    let flags: u16 = flags.into();
    assert_eq!(flags, 0x8000);
}

#[test]
fn test_mdns_header() {
    let header = MdnsHeader::new(1234, MdnsFlags::new(), 1, 2, 3, 4);
    let bytes = header.to_bytes().to_vec();
    assert_eq!(
        bytes,
        vec![
            0x04, 0xd2, // ID
            0x00, 0x00, // Flags
            0x00, 0x01, // QDCOUNT
            0x00, 0x02, // ANCOUNT
            0x00, 0x03, // NSCOUNT
            0x00, 0x04, // ARCOUNT
        ]
    );
}

#[test]
fn protocol_test_dns_type() {
    assert_eq!(DnsType::from(0x0001), DnsType::A);
    assert_eq!(u16::from(DnsType::A), 0x0001);
    assert_eq!(<[u8; 2]>::from(DnsType::A), [0x00, 0x01]);
    assert_eq!(DnsType::from([0x00, 0x01]), DnsType::A);
}

#[test]
fn protocol_test_dns_class() {
    assert_eq!(DnsClass::from(0x0001), DnsClass::IN);
    assert_eq!(u16::from(DnsClass::IN), 0x0001);
    assert_eq!(<[u8; 2]>::from(DnsClass::IN), [0x00, 0x01]);
    assert_eq!(DnsClass::from([0x00, 0x01]), DnsClass::IN);
}

#[test]
fn protocol_test_query() {
    let query = Query::new(
        DnsName::from_name("my_sensor._http._tcp.local.").unwrap(),
        DnsType::A,
        DnsClass::IN,
    );
    assert_eq!(query.name().to_string(), "my_sensor._http._tcp.local.");
    assert_eq!(query.query_type(), DnsType::A);
    assert_eq!(query.query_class(), DnsClass::IN);
}

#[test]
fn protocol_test_response() {
    let mut response = Response::new(
        DnsName::from_name("my_sensor._http._tcp.local.").unwrap(),
        DnsType::A,
        DnsClass::IN,
        120,
        4,
        vec![127, 0, 0, 1],
    );

    assert_eq!(response.name().to_string(), "my_sensor._http._tcp.local.");
    assert_eq!(response.response_type(), &DnsType::A);
    assert_eq!(response.response_class(), &DnsClass::IN);
    assert_eq!(response.ttl(), 120);
    assert_eq!(response.data_length(), 4);
    assert_eq!(response.data(), &vec![127, 0, 0, 1]);

    response.set_ttl(240);
    assert_eq!(response.ttl(), 240);

    response.set_data(vec![192, 168, 0, 1]);
    assert_eq!(response.data_length(), 4);
    assert_eq!(response.data(), &vec![192, 168, 0, 1]);
}

#[test]
fn test_mdns_packet() {
    let header = MdnsHeader::new(1234, MdnsFlags::new(), 0, 0, 0, 0);

    let mut packet = MdnsPacket::new(header, vec![], vec![], vec![], vec![]);
    assert_eq!(packet.header(), &header);
    assert_eq!(packet.questions().len(), 0);
    assert_eq!(packet.answers().len(), 0);
    assert_eq!(packet.authorities().len(), 0);
    assert_eq!(packet.additionals().len(), 0);

    let question = MdnsQuery::new(
        MdnsName::from_name("my_sensor._http._tcp.local.").unwrap(),
        DnsType::A,
        DnsClass::IN,
    );

    packet.add_question(question.clone());
    assert_eq!(packet.questions().len(), 1);
    assert_eq!(packet.questions()[0], question);

    let response = MdnsResponse::new(
        MdnsName::from_name("my_sensor._http._tcp.local.").unwrap(),
        DnsType::A,
        DnsClass::IN,
        120,
        vec![127, 0, 0, 1],
    );

    packet.add_answer(response.clone());
    assert_eq!(packet.answers().len(), 1);
    assert_eq!(packet.answers()[0], response);

    packet.add_authority(response.clone());
    assert_eq!(packet.authorities().len(), 1);
    assert_eq!(packet.authorities()[0], response);

    packet.add_additional(response.clone());
    assert_eq!(packet.additionals().len(), 1);
    assert_eq!(packet.additionals()[0], response);
}

#[test]
fn test_mdns_packet_to_bytes() {
    let header = MdnsHeader::new(1234, MdnsFlags::new(), 0, 0, 0, 0);
    let packet = MdnsPacket::new(header, vec![], vec![], vec![], vec![]);
    assert_eq!(
        packet.to_bytes(),
        vec![
            0x04, 0xd2, // ID
            0x00, 0x00, // Flags
            0x00, 0x00, // QDCOUNT
            0x00, 0x00, // ANCOUNT
            0x00, 0x00, // NSCOUNT
            0x00, 0x00, // ARCOUNT
        ]
    );
}

#[test]
fn test_create_dns_name_from_str() {
    let dns_name = DnsName::from_name("example_service._http._tcp.local.").unwrap();
    assert_eq!(*dns_name.labels(), vec!["example_service", "_http", "_tcp", "local"]);
}

#[test]
fn test_create_dns_name_from_invalid_str() {
    let err = DnsName::from_name("example_service._http._tcp.local").unwrap_err();
    assert_eq!(err, DnsNameError::MustEndWithDot);
}

#[test]
fn test_create_dns_name_from_str_with_long_label() {
    let mut label = "a".repeat(64);
    label.push('.');
    let err = DnsName::from_name(label.as_str()).unwrap_err();
    assert_eq!(err, DnsNameError::LabelTooLong);
}

#[test]
fn test_to_wire_format() {
    let dns_name = DnsName::from_name("example_service._http._tcp.local.").unwrap();
    let wire_format = dns_name.to_wire_format();
    assert_eq!(
        wire_format,
        vec![
            15, b'e', b'x', b'a', b'm', b'p', b'l', b'e', b'_', b's', b'e', b'r', b'v', b'i', b'c',
            b'e', 5, b'_', b'h', b't', b't', b'p', 4, b'_', b't', b'c', b'p', 5, b'l', b'o', b'c',
            b'a', b'l', 0
        ]
    );
}

#[test]
fn test_from_wire_format() {
    let wire_format = vec![
        15, b'e', b'x', b'a', b'm', b'p', b'l', b'e', b'_', b's', b'e', b'r', b'v', b'i', b'c', b'e',
        5, b'_', b'h', b't', b't', b'p', 4, b'_', b't', b'c', b'p', 5, b'l', b'o', b'c', b'a', b'l',
        0,
    ];
    let dns_name = DnsName::from_wire_format(&wire_format).unwrap();
    assert_eq!(*dns_name.labels(), vec!["example_service", "_http", "_tcp", "local"]);
}

#[test]
fn test_from_invalid_wire_format() {
    let wire_format = vec![
        15, b'e', b'x', b'a', b'm', b'p', b'l', b'e', b'_', b's', b'e', b'r', b'v', b'i', b'c', b'e',
        5, b'_', b'h', b't', b't', b'p', 4, b'_', b't', b'c', b'p', 5, b'l', b'o', b'c', b'a', b'l',
    ];
    let err = DnsName::from_wire_format(&wire_format).unwrap_err();
    assert_eq!(err, DnsNameError::InvalidEndOfName);
}

// ---- Further cases ----

#[test]
fn dns_name_errors() {
    assert_eq!(DnsName::from_wire_format(&[4, b'a', 0]).unwrap_err(), DnsNameError::InvalidLabelLength);
    assert_eq!(DnsName::from_wire_format(&[1, 0xff, 0]).unwrap_err(), DnsNameError::InvalidUtf8Label);
    assert_eq!(DnsName::from_wire_format(&[]).unwrap_err(), DnsNameError::InvalidEndOfName);
    assert_eq!(DnsName::from_name("").unwrap_err(), DnsNameError::MustEndWithDot);
}

#[test]
fn dns_name_keeps_empty_labels() {
    let name = DnsName::from_name("a..b.").unwrap();
    assert_eq!(*name.labels(), vec!["a", "", "b"]);
    assert_eq!(name.to_string(), "a..b.");
}

#[test]
fn dns_name_roundtrip_and_text() {
    let name = DnsName::new(vec!["printer".to_owned(), "local".to_owned()]);
    let wire = name.to_wire_format();
    assert_eq!(wire, vec![7, b'p', b'r', b'i', b'n', b't', b'e', b'r', 5, b'l', b'o', b'c', b'a', b'l', 0]);
    let mut with_tail = wire.clone();
    with_tail.extend_from_slice(&[1, 2, 3]);
    assert_eq!(DnsName::from_wire_format(&with_tail).unwrap(), name);
    assert_eq!(DnsName::new(Vec::new()).to_string(), ".");
    assert_eq!(DnsName::new(Vec::new()).to_wire_format(), vec![0]);
}

#[test]
fn dns_name_length_byte_wraps() {
    let name = DnsName::new(vec!["x".repeat(300)]);
    let wire = name.to_wire_format();
    assert_eq!(wire[0], (300 % 256) as u8);
    assert_eq!(wire.len(), 302);
}

#[test]
fn dns_response_keeps_given_length() {
    let mut response = Response::new(DnsName::new(Vec::new()), DnsType::TXT, DnsClass::IN, 1, 99, vec![1]);
    assert_eq!(response.data_length(), 99);
    response.set_data(vec![0; 70000]);
    assert_eq!(response.data_length(), (70000 % 65536) as u16);
    let copy = response.clone();
    assert_eq!(copy, response);
}

#[test]
fn dns_name_conversions() {
    let name = DnsName::try_from("a.b.").unwrap();
    assert_eq!(name, DnsName::from(vec!["a".to_owned(), "b".to_owned()]));
    assert_eq!(DnsName::try_from(String::from("a.b")).unwrap_err(), DnsNameError::MustEndWithDot);
    let labels: Vec<String> = name.into();
    assert_eq!(labels, vec!["a", "b"]);
}

#[test]
fn dns_name_invalid_characters() {
    assert_eq!(DnsName::from_name("my%sensor.local.").unwrap_err(), DnsNameError::InvalidCharacter);
    assert_eq!(DnsName::from_name("my%sensor.local").unwrap_err(), DnsNameError::MustEndWithDot);
    assert_eq!(DnsName::from_name("\u{e9}.").unwrap_err(), DnsNameError::InvalidCharacter);
}
