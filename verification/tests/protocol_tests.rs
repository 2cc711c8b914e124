use mdns_lite::{
    DnsClass, DnsType, MdnsClass, MdnsFlags, MdnsHeader, MdnsName, MdnsNameError, MdnsOpcode,
    MdnsPacket, MdnsParseError, MdnsQuery, MdnsRcode, MdnsResponse, MdnsType,
};

#[test]
fn class_test_dns_class() {
    assert_eq!(DnsClass::from(0x0001), DnsClass::IN);
    assert_eq!(u16::from(DnsClass::IN), 0x0001);
    assert_eq!(<[u8; 2]>::from(DnsClass::IN), [0x00, 0x01]);
    assert_eq!(DnsClass::from([0x00, 0x01]), DnsClass::IN);
}

#[test]
fn type_test_dns_type() {
    assert_eq!(DnsType::from(0x0001), DnsType::A);
    assert_eq!(u16::from(DnsType::A), 0x0001);
    assert_eq!(<[u8; 2]>::from(DnsType::A), [0x00, 0x01]);
    assert_eq!(DnsType::from([0x00, 0x01]), DnsType::A);
}

#[test]
fn test_empty_flags() {
    let flags: MdnsFlags = MdnsFlags::empty();
    assert!(!flags.qr());
    assert_eq!(flags.opcode(), MdnsOpcode::Query);
    assert!(!flags.aa());
    assert!(!flags.tc());
    assert!(!flags.rd());
    assert!(!flags.ra());
    assert_eq!(flags.rcode(), MdnsRcode::NoError);
}

#[test]
fn test_flags_qr() {
    let mut flags: MdnsFlags = MdnsFlags::empty();
    assert!(!flags.qr());
    flags.set_qr(true);
    assert!(flags.qr());
    flags.set_qr(false);
    assert!(!flags.qr());
}

#[test]
fn test_flags_opcode() {
    let mut flags: MdnsFlags = MdnsFlags::empty();
    assert_eq!(flags.opcode(), MdnsOpcode::Query);
    flags.set_opcode(MdnsOpcode::Query);
    assert_eq!(flags.opcode(), MdnsOpcode::Query);
    flags.set_opcode(MdnsOpcode::IQuery);
    assert_eq!(flags.opcode(), MdnsOpcode::IQuery);
    flags.set_opcode(MdnsOpcode::Status);
    assert_eq!(flags.opcode(), MdnsOpcode::Status);
    flags.set_opcode(MdnsOpcode::Unknown(15));
    assert_eq!(flags.opcode(), MdnsOpcode::Unknown(15));
}

#[test]
fn test_flags_aa() {
    let mut flags: MdnsFlags = MdnsFlags::empty();
    assert!(!flags.aa());
    flags.set_aa(true);
    assert!(flags.aa());
    flags.set_aa(false);
    assert!(!flags.aa());
}

#[test]
fn test_flags_tc() {
    let mut flags: MdnsFlags = MdnsFlags::empty();
    assert!(!flags.tc());
    flags.set_tc(true);
    assert!(flags.tc());
    flags.set_tc(false);
    assert!(!flags.tc());
}

#[test]
fn test_flags_rd() {
    let mut flags: MdnsFlags = MdnsFlags::empty();
    assert!(!flags.rd());
    flags.set_rd(true);
    assert!(flags.rd());
    flags.set_rd(false);
    assert!(!flags.rd());
}

#[test]
fn test_flags_ra() {
    let mut flags: MdnsFlags = MdnsFlags::empty();
    assert!(!flags.ra());
    flags.set_ra(true);
    assert!(flags.ra());
    flags.set_ra(false);
    assert!(!flags.ra());
}

#[test]
fn test_flags_rcode() {
    let mut flags: MdnsFlags = MdnsFlags::empty();
    assert_eq!(flags.rcode(), MdnsRcode::NoError);
    flags.set_rcode(MdnsRcode::NoError);
    assert_eq!(flags.rcode(), MdnsRcode::NoError);
    flags.set_rcode(MdnsRcode::FormatError);
    assert_eq!(flags.rcode(), MdnsRcode::FormatError);
    flags.set_rcode(MdnsRcode::ServerFailure);
    assert_eq!(flags.rcode(), MdnsRcode::ServerFailure);
    flags.set_rcode(MdnsRcode::NameError);
    assert_eq!(flags.rcode(), MdnsRcode::NameError);
    flags.set_rcode(MdnsRcode::NotImplemented);
    assert_eq!(flags.rcode(), MdnsRcode::NotImplemented);
    flags.set_rcode(MdnsRcode::Refused);
    assert_eq!(flags.rcode(), MdnsRcode::Refused);
    flags.set_rcode(MdnsRcode::Unknown(15));
    assert_eq!(flags.rcode(), MdnsRcode::Unknown(15));
}

#[test]
fn test_flags_generic() {
    let mut flags = MdnsFlags::empty();
    assert!(!flags.qr());
    flags.set_qr(true);
    assert!(flags.qr());
    flags.set_qr(false);
    assert!(!flags.qr());

    assert_eq!(flags.opcode(), MdnsOpcode::Query);
    flags.set_opcode(MdnsOpcode::IQuery);
    assert_eq!(flags.opcode(), MdnsOpcode::IQuery);
    flags.set_opcode(MdnsOpcode::Status);
    assert_eq!(flags.opcode(), MdnsOpcode::Status);
    flags.set_opcode(MdnsOpcode::Unknown(9));
    assert_eq!(flags.opcode(), MdnsOpcode::Unknown(9));

    assert!(!flags.aa());
    flags.set_aa(true);
    assert!(flags.aa());
    flags.set_aa(false);
    assert!(!flags.aa());

    assert!(!flags.tc());
    flags.set_tc(true);
    assert!(flags.tc());
    flags.set_tc(false);
    assert!(!flags.tc());

    assert!(!flags.rd());
    flags.set_rd(true);
    assert!(flags.rd());
    flags.set_rd(false);
    assert!(!flags.rd());

    assert!(!flags.ra());
    flags.set_ra(true);
    assert!(flags.ra());
    flags.set_ra(false);
    assert!(!flags.ra());

    assert_eq!(flags.rcode(), MdnsRcode::NoError);
    flags.set_rcode(MdnsRcode::FormatError);
    assert_eq!(flags.rcode(), MdnsRcode::FormatError);
    flags.set_rcode(MdnsRcode::ServerFailure);
    assert_eq!(flags.rcode(), MdnsRcode::ServerFailure);
    flags.set_rcode(MdnsRcode::NameError);
    assert_eq!(flags.rcode(), MdnsRcode::NameError);
    flags.set_rcode(MdnsRcode::NotImplemented);
    assert_eq!(flags.rcode(), MdnsRcode::NotImplemented);
    flags.set_rcode(MdnsRcode::Refused);
    assert_eq!(flags.rcode(), MdnsRcode::Refused);
    flags.set_rcode(MdnsRcode::Unknown(7));
    assert_eq!(flags.rcode(), MdnsRcode::Unknown(7));
}

#[test]
fn test_u16_from_flags() {
    let mut flags: MdnsFlags = MdnsFlags::empty();
    assert_eq!(Into::<u16>::into(flags), 0x0000);

    flags.set_qr(true);
    assert_eq!(Into::<u16>::into(flags), MdnsFlags::QR_MASK);

    flags.set_qr(false);
    flags.set_aa(true);
    assert_eq!(Into::<u16>::into(flags), MdnsFlags::AA_MASK);

    flags.set_qr(true);
    assert_eq!(Into::<u16>::into(flags), MdnsFlags::AA_MASK | MdnsFlags::QR_MASK);
}

#[test]
fn test_flags_from_u16() {
    let flags: MdnsFlags = MdnsFlags::from(MdnsFlags::QR_MASK);
    assert!(flags.qr());
}

#[test]
fn test_slice_from_flags() {
    let mut flags: MdnsFlags = MdnsFlags::empty();
    assert_eq!(Into::<[u8; 2]>::into(flags), [0x00, 0x00]);

    flags.set_qr(true);
    assert_eq!(Into::<[u8; 2]>::into(flags), [0x80, 0x00]);

    flags.set_qr(false);
    flags.set_aa(true);
    assert_eq!(Into::<[u8; 2]>::into(flags), [0x04, 0x00]);

    flags.set_qr(true);
    assert_eq!(Into::<[u8; 2]>::into(flags), [0x84, 0x00]);
}

#[test]
fn test_flags_from_slice() {
    let flags: MdnsFlags = MdnsFlags::from([0x84, 0x80]);
    assert!(flags.qr());
    assert_eq!(flags.opcode(), MdnsOpcode::Query);
    assert!(flags.aa());
    assert!(!flags.tc());
    assert!(!flags.rd());
    assert!(flags.ra());
    assert_eq!(flags.rcode(), MdnsRcode::NoError);
}

#[test]
fn test_new_header() {
    let header: MdnsHeader = MdnsHeader::new(1234, MdnsFlags::empty(), 1, 2, 3, 4);
    assert_eq!(header.id(), 1234);
    assert_eq!(header.flags(), MdnsFlags::empty());
    assert_eq!(header.total_question_records(), 1);
    assert_eq!(header.total_answer_records(), 2);
    assert_eq!(header.total_authority_records(), 3);
    assert_eq!(header.total_additional_records(), 4);
}

#[test]
fn test_header_to_bytes() {
    let header: MdnsHeader = MdnsHeader::new(1234, MdnsFlags::empty(), 1, 2, 3, 4);
    let bytes: [u8; 12] = header.to_bytes();
    assert_eq!(
        bytes,
        [
            0x04, 0xd2, // ID
            0x00, 0x00, // Flags
            0x00, 0x01, // QDCOUNT
            0x00, 0x02, // ANCOUNT
            0x00, 0x03, // NSCOUNT
            0x00, 0x04, // ARCOUNT
        ]
    );
}

#[test]
fn test_header_from_bytes() {
    let header_a: MdnsHeader = MdnsHeader::new(1234, MdnsFlags::from(0x8421), 10, 11, 12, 13);
    let mut offset: usize = 0;
    let header_b: MdnsHeader = MdnsHeader::from_bytes(&header_a.to_bytes(), &mut offset)
        .expect("Failed to convert `header_a` into `header_b`");
    assert_eq!(header_a, header_b);
    assert_eq!(offset, 12);
}

#[test]
fn test_name_from_str() {
    let dns_name = MdnsName::from_name("example_service._http._tcp.local.").unwrap();
    assert_eq!(
        dns_name.to_wire_format(),
        &[
            15, b'e', b'x', b'a', b'm', b'p', b'l', b'e', b'_', b's', b'e', b'r', b'v', b'i', b'c',
            b'e', 5, b'_', b'h', b't', b't', b'p', 4, b'_', b't', b'c', b'p', 5, b'l', b'o', b'c',
            b'a', b'l', 0
        ]
    );
}

#[test]
fn test_name_from_invalid_str() {
    let err = MdnsName::from_name("example_service._http._tcp.local").unwrap_err();
    assert_eq!(err, MdnsNameError::MustEndWithDot);
}

#[test]
fn test_name_from_long_label_str() {
    let mut label = "a".repeat(64);
    label.push('.');
    let err = MdnsName::from_name(label.as_str()).unwrap_err();
    assert_eq!(err, MdnsNameError::LabelTooLong);
}

#[test]
fn test_name_to_wire_format() {
    let dns_name = MdnsName::from_name("example_service._http._tcp.local.").unwrap();
    let wire_format = dns_name.to_wire_format();
    assert_eq!(
        wire_format,
        &[
            15, b'e', b'x', b'a', b'm', b'p', b'l', b'e', b'_', b's', b'e', b'r', b'v', b'i', b'c',
            b'e', 5, b'_', b'h', b't', b't', b'p', 4, b'_', b't', b'c', b'p', 5, b'l', b'o', b'c',
            b'a', b'l', 0
        ]
    );
}

#[test]
fn test_name_from_wire_format() {
    let wire_format = &[
        15, b'e', b'x', b'a', b'm', b'p', b'l', b'e', b'_', b's', b'e', b'r', b'v', b'i', b'c', b'e',
        5, b'_', b'h', b't', b't', b'p', 4, b'_', b't', b'c', b'p', 5, b'l', b'o', b'c', b'a', b'l',
        0,
    ];
    let mut offset = 0;
    let dns_name = MdnsName::from_wire_format(wire_format, &mut offset).unwrap();
    assert_eq!(dns_name.to_wire_format(), wire_format);
    assert_eq!(offset, wire_format.len());
}

#[test]
fn test_name_from_invalid_wire_format() {
    let wire_format = &[
        15, b'e', b'x', b'a', b'm', b'p', b'l', b'e', b'_', b's', b'e', b'r', b'v', b'i', b'c', b'e',
        5, b'_', b'h', b't', b't', b'p', 4, b'_', b't', b'c', b'p', 5, b'l', b'o', b'c', b'a', b'l',
    ];
    let err = MdnsName::from_wire_format(wire_format, &mut 0).unwrap_err();
    assert_eq!(err, MdnsNameError::InvalidEndOfLabels);
}

#[test]
fn test_new_empty_packet() {
    let packet = MdnsPacket::new_empty(1234);
    assert_eq!(packet.transaction_id(), 1234);
    assert_eq!(packet.questions().len(), 0);
    assert_eq!(packet.answers().len(), 0);
    assert_eq!(packet.authorities().len(), 0);
    assert_eq!(packet.additionals().len(), 0);
}

#[test]
fn test_populate_packet() {
    let mut packet = MdnsPacket::new_empty(1234);
    let question: MdnsQuery = MdnsQuery::new(
        MdnsName::from_name("my_sensor._http._tcp.local.").unwrap(),
        DnsType::A,
        DnsClass::IN,
    );

    packet.add_question(question.clone());
    assert_eq!(packet.questions().len(), 1);
    assert_eq!(packet.questions()[0], question);

    let response = MdnsResponse::new(
        MdnsName::from_name("my_sensor._http._tcp.local.").unwrap(),
        DnsType::A,
        DnsClass::IN,
        120,
        vec![127, 0, 0, 1],
    );

    packet.add_answer(response.clone());
    assert_eq!(packet.answers().len(), 1);
    assert_eq!(packet.answers()[0], response);

    packet.add_authority(response.clone());
    assert_eq!(packet.authorities().len(), 1);
    assert_eq!(packet.authorities()[0], response);

    packet.add_additional(response.clone());
    assert_eq!(packet.additionals().len(), 1);
    assert_eq!(packet.additionals()[0], response);
}

#[test]
fn test_empty_packet_to_bytes() {
    let packet = MdnsPacket::new_empty(1234);
    assert_eq!(
        packet.to_bytes(),
        vec![
            0x04, 0xd2, // ID
            0x00, 0x00, // Flags
            0x00, 0x00, // QDCOUNT
            0x00, 0x00, // ANCOUNT
            0x00, 0x00, // NSCOUNT
            0x00, 0x00, // ARCOUNT
        ]
    );
}

fn check_packet_roundtrip(packet: MdnsPacket) {
    let from_bytes = MdnsPacket::from_bytes(&packet.to_bytes(), &mut 0)
        .expect("Failed to convert raw packet bytes into a new packet");
    assert_eq!(from_bytes, packet);
}

#[test]
fn test_packet_from_bytes() {
    check_packet_roundtrip(MdnsPacket::new_query(
        1234,
        vec![MdnsQuery::new(
            MdnsName::from_name("test_service._http._tcp.local.").unwrap(),
            DnsType::PTR,
            DnsClass::IN,
        )],
    ));
    check_packet_roundtrip(MdnsPacket::new_response(
        1234,
        vec![MdnsResponse::new(
            MdnsName::from_name("test_service._http._tcp.local.").unwrap(),
            DnsType::PTR,
            DnsClass::IN,
            120,
            vec![127, 0, 0, 1],
        )],
        vec![MdnsResponse::new(
            MdnsName::from_name("test_service._http._tcp.local.").unwrap(),
            DnsType::PTR,
            DnsClass::IN,
            300,
            Vec::new(),
        )],
        vec![MdnsResponse::new(
            MdnsName::from_name("test_service._http._tcp.local.").unwrap(),
            DnsType::PTR,
            DnsClass::IN,
            600,
            vec![0, 1, 2, 3, 4, 5, 6, 7],
        )],
    ));
}

#[test]
fn query_test_query() {
    let query = MdnsQuery::new(
        MdnsName::from_name("my_sensor._http._tcp.local.").unwrap(),
        MdnsType::A,
        MdnsClass::IN,
    );
    assert_eq!(query.name().to_string(), "my_sensor._http._tcp.local.");
    assert_eq!(query.query_type(), MdnsType::A);
    assert_eq!(query.query_class(), MdnsClass::IN);
}

#[test]
fn test_query_from_bytes() {
    let query_a: MdnsQuery = MdnsQuery::new(
        MdnsName::from_name("test_service._http._tcp.local.").unwrap(),
        MdnsType::PTR,
        MdnsClass::IN,
    );
    let query_a_bytes: Vec<u8> = query_a.to_bytes();
    let mut offset: usize = 0;
    let query_b: MdnsQuery = MdnsQuery::from_bytes(&query_a_bytes, &mut offset)
        .expect("Failed to convert `query_a` to `query_b`");
    assert_eq!(query_a, query_b);
    assert_eq!(offset, query_a_bytes.len());
}

#[test]
fn response_test_response() {
    let mut response = MdnsResponse::new(
        MdnsName::from_name("my_sensor._http._tcp.local.").unwrap(),
        MdnsType::A,
        MdnsClass::IN,
        120,
        [127, 0, 0, 1].to_vec(),
    );

    assert_eq!(response.name().to_string(), "my_sensor._http._tcp.local.");
    assert_eq!(response.response_type(), &MdnsType::A);
    assert_eq!(response.response_class(), &MdnsClass::IN);
    assert_eq!(response.ttl(), 120);
    assert_eq!(response.data_length(), 4);
    assert_eq!(response.data(), &[127, 0, 0, 1]);

    response.set_ttl(240);
    assert_eq!(response.ttl(), 240);

    response.set_data([192, 168, 0, 1].to_vec());
    assert_eq!(response.data_length(), 4);
    assert_eq!(response.data(), &[192, 168, 0, 1]);
}

#[test]
fn test_response_from_bytes() {
    let response_a: MdnsResponse = MdnsResponse::new(
        MdnsName::from_name("test_service._http._tcp.local.").unwrap(),
        MdnsType::PTR,
        MdnsClass::IN,
        120,
        [1, 2, 3, 4, 5, 6, 7, 8, 9, 10, 11, 12, 13, 14, 15].to_vec(),
    );
    let response_a_bytes: Vec<u8> = response_a.to_bytes();
    let mut offset: usize = 0;
    let response_b: MdnsResponse = MdnsResponse::from_bytes(&response_a_bytes, &mut offset)
        .expect("Failed to convert `response_a` to `response_b`");
    assert_eq!(response_a, response_b);
    assert_eq!(offset, response_a_bytes.len());
}

// ---- Further cases ----

#[test]
fn name_labels_and_text() {
    let name = MdnsName::from_name("one.two.").unwrap();
    assert_eq!(name.labels(), vec!["one".to_owned(), "two".to_owned()]);
    assert_eq!(name.to_string(), "one.two.");
    assert_eq!(MdnsName::empty().to_wire_format(), &[0]);
    assert_eq!(MdnsName::empty().to_string(), "");
}

#[test]
fn name_trailing_dots_are_dropped() {
    let name = MdnsName::from_name("host.local...").unwrap();
    assert_eq!(name.to_string(), "host.local.");
}

#[test]
fn name_errors() {
    assert_eq!(MdnsName::from_name("").unwrap_err(), MdnsNameError::MustEndWithDot);
    assert_eq!(MdnsName::from_name("a..b.").unwrap_err(), MdnsNameError::LabelTooShort);
    assert_eq!(
        MdnsName::new(&["ok".to_owned(), String::new()]).unwrap_err(),
        MdnsNameError::LabelTooShort
    );
    assert_eq!(MdnsName::new(&["x".repeat(64)]).unwrap_err(), MdnsNameError::LabelTooLong);
    let mut offset = 0;
    assert_eq!(
        MdnsName::from_wire_format(&[5, b'a', b'b', 0], &mut offset).unwrap_err(),
        MdnsNameError::InvalidLabelLength { length: 5, max_length: 3 }
    );
    assert_eq!(offset, 0);
    assert_eq!(
        MdnsName::from_wire_format(&[2, 0xff, 0xfe, 0], &mut offset).unwrap_err(),
        MdnsNameError::InvalidUtf8Label
    );
    let mut long = vec![64u8];
    long.extend(std::iter::repeat(b'a').take(64));
    long.push(0);
    let mut offset = 0;
    assert_eq!(MdnsName::from_wire_format(&long, &mut offset).unwrap_err(), MdnsNameError::LabelTooLong);
    assert_eq!(offset, long.len());
}

#[test]
fn name_read_at_offset() {
    let data = [9, 9, 1, b'a', 0, 7];
    let mut offset = 2;
    let name = MdnsName::from_wire_format(&data, &mut offset).unwrap();
    assert_eq!(name.to_wire_format(), &[1, b'a', 0]);
    assert_eq!(offset, 5);
    let other = MdnsName::from_name("a.").unwrap();
    assert!(name.same_name(&other));
    assert!(!name.same_name(&MdnsName::from_name("b.").unwrap()));
}

#[test]
fn header_counts_roundtrip() {
    let header = MdnsHeader::new(0xbeef, MdnsFlags::from(0xffff), 0xffff, 1, 0, 0x0102);
    let bytes = header.to_bytes();
    assert_eq!(bytes, [0xbe, 0xef, 0xff, 0xff, 0xff, 0xff, 0x00, 0x01, 0x00, 0x00, 0x01, 0x02]);
    let mut offset = 0;
    assert_eq!(MdnsHeader::from_bytes(&bytes, &mut offset).unwrap(), header);
    assert_eq!(offset, 12);
    let mut offset = 0;
    assert_eq!(MdnsHeader::from_bytes(&bytes[..11], &mut offset).unwrap_err(), MdnsParseError::HeaderTooSmall);
    assert_eq!(offset, 0);
}

#[test]
fn flags_fields_are_independent() {
    let mut flags = MdnsFlags::empty();
    flags.set_opcode(MdnsOpcode::Unknown(0x0f));
    flags.set_rcode(MdnsRcode::Refused);
    flags.set_tc(true);
    assert_eq!(u16::from(flags), 0x7800 | 0x0200 | 0x0005);
    flags.set_opcode(MdnsOpcode::Query);
    assert_eq!(u16::from(flags), 0x0200 | 0x0005);
    assert!(flags.tc());
    assert_eq!(flags.rcode(), MdnsRcode::Refused);
}

#[test]
fn record_type_and_class_numbers() {
    assert_eq!(DnsType::from(0x0021), DnsType::SRV);
    assert_eq!(DnsType::from(0x1234), DnsType::Unknown(0x1234));
    assert_eq!(u16::from(DnsType::Unknown(0x1234)), 0x1234);
    assert_eq!(<[u8; 2]>::from(DnsType::AAAA), [0x00, 0x1c]);
    assert_eq!(DnsClass::from(0x00ff), DnsClass::ANY);
    assert_eq!(DnsClass::from([0x12, 0x34]), DnsClass::Unknown(0x1234));
    assert_eq!(<[u8; 2]>::from(DnsClass::Unknown(0xabcd)), [0xab, 0xcd]);
}

#[test]
fn query_errors() {
    let mut bytes = MdnsName::from_name("a.").unwrap().to_wire_format().to_vec();
    bytes.push(0);
    let mut offset = 0;
    assert_eq!(MdnsQuery::from_bytes(&bytes, &mut offset).unwrap_err(), MdnsParseError::MalformedQuery);
    assert_eq!(offset, 0);
    assert_eq!(
        MdnsQuery::from_bytes(&[3, b'a'], &mut offset).unwrap_err(),
        MdnsParseError::NameError(MdnsNameError::InvalidLabelLength { length: 3, max_length: 1 })
    );
}

#[test]
fn query_bytes_layout() {
    let query = MdnsQuery::new(MdnsName::from_name("a.").unwrap(), DnsType::TXT, DnsClass::IN);
    assert_eq!(query.to_bytes(), vec![1, b'a', 0, 0x00, 0x10, 0x00, 0x01]);
    let mut buffer = vec![0xaa];
    query.to_bytes_extend(&mut buffer);
    assert_eq!(buffer, vec![0xaa, 1, b'a', 0, 0x00, 0x10, 0x00, 0x01]);
}

#[test]
fn response_records() {
    let name = MdnsName::from_name("h.local.").unwrap();
    let a = MdnsResponse::new_a(name.clone(), 10, vec![10, 0, 0, 1]);
    assert_eq!(a.response_type(), &DnsType::A);
    assert_eq!(a.data(), &[10, 0, 0, 1]);
    let aaaa = MdnsResponse::new_aaaa(name.clone(), 10, vec![0; 16]);
    assert_eq!(aaaa.response_type(), &DnsType::AAAA);
    assert_eq!(aaaa.data_length(), 16);
    let srv = MdnsResponse::new_srv(name.clone(), 10, 1, 2, 80, name.to_wire_format());
    assert_eq!(srv.data(), &[0, 1, 0, 2, 0, 80, 1, b'h', 5, b'l', b'o', b'c', b'a', b'l', 0]);
    assert_eq!(
        a.to_bytes(),
        vec![1, b'h', 5, b'l', b'o', b'c', b'a', b'l', 0, 0, 1, 0, 1, 0, 0, 0, 10, 0, 4, 10, 0, 0, 1]
    );
    let short = [1, b'h', 0, 0, 1, 0, 1, 0, 0, 0, 10, 0, 4, 10, 0];
    let mut offset = 0;
    assert_eq!(MdnsResponse::from_bytes(&short, &mut offset).unwrap_err(), MdnsParseError::MalformedResponse);
    assert_eq!(offset, 0);
}

#[test]
fn packet_with_records_sets_header() {
    let name = MdnsName::from_name("h.local.").unwrap();
    let answer = MdnsResponse::new_a(name.clone(), 10, vec![10, 0, 0, 1]);
    let packet = MdnsPacket::new_with_records(7, Vec::new(), vec![answer.clone()], vec![answer], Vec::new());
    let header = packet.header();
    assert_eq!(header.id(), 7);
    assert!(header.flags().qr());
    assert!(header.flags().aa());
    assert_eq!(header.total_answer_records(), 1);
    assert_eq!(header.total_authority_records(), 1);
    assert!(packet.has_answers());
    assert!(packet.has_authorities());
    assert!(!packet.has_questions());
    assert!(!packet.has_additionals());
    check_packet_roundtrip(packet);
}

#[test]
fn packet_add_sections_update_counts() {
    let name = MdnsName::from_name("h.local.").unwrap();
    let mut packet = MdnsPacket::new_query(1, Vec::new());
    packet.add_questions(vec![
        MdnsQuery::new(name.clone(), DnsType::A, DnsClass::IN),
        MdnsQuery::new(name.clone(), DnsType::AAAA, DnsClass::IN),
    ]);
    packet.add_answers(vec![MdnsResponse::new_a(name.clone(), 1, vec![1, 2, 3, 4])]);
    packet.add_authorities(vec![MdnsResponse::new_a(name.clone(), 1, vec![1, 2, 3, 4])]);
    packet.add_additionals(vec![MdnsResponse::new_a(name, 1, vec![1, 2, 3, 4])]);
    assert_eq!(packet.header().total_question_records(), 2);
    assert_eq!(packet.header().total_answer_records(), 1);
    assert_eq!(packet.header().total_authority_records(), 1);
    assert_eq!(packet.header().total_additional_records(), 1);
    check_packet_roundtrip(packet);
}

#[test]
fn packet_parse_errors() {
    let mut offset = 0;
    assert_eq!(MdnsPacket::from_bytes(&[0; 5], &mut offset).unwrap_err(), MdnsParseError::HeaderTooSmall);
    let header = MdnsHeader::new(1, MdnsFlags::empty(), 1, 0, 0, 0);
    let bytes = header.to_bytes();
    let mut offset = 0;
    assert!(matches!(MdnsPacket::from_bytes(&bytes, &mut offset), Err(MdnsParseError::NameError(_))));
}

#[test]
fn name_conversions() {
    let name = MdnsName::try_from("lamp.local.").unwrap();
    assert_eq!(&*name, &[4, b'l', b'a', b'm', b'p', 5, b'l', b'o', b'c', b'a', b'l', 0]);
    assert_eq!(MdnsName::try_from(String::from("lamp")).unwrap_err(), MdnsNameError::MustEndWithDot);
    let labels = vec!["lamp".to_owned(), "local".to_owned()];
    assert_eq!(MdnsName::try_from(labels.as_slice()).unwrap(), name);
    assert_eq!(MdnsName::try_from(labels.clone()).unwrap(), name);
    let back: Vec<String> = name.into();
    assert_eq!(back, labels);
}

#[test]
fn name_invalid_characters() {
    assert_eq!(MdnsName::from_name("my%sensor.local.").unwrap_err(), MdnsNameError::InvalidCharacter);
    assert_eq!(MdnsName::from_name("caf\u{e9}.local.").unwrap_err(), MdnsNameError::InvalidCharacter);
    assert_eq!(MdnsName::from_name("a b.").unwrap_err(), MdnsNameError::InvalidCharacter);
    assert_eq!(MdnsName::from_name("my%sensor.local").unwrap_err(), MdnsNameError::MustEndWithDot);
    assert!(MdnsName::from_name("Lamp-2_x.local.").is_ok());
}

#[test]
fn rcode_stays_in_its_field() {
    let mut flags = MdnsFlags::empty();
    flags.set_rcode(MdnsRcode::Unknown(0x80));
    assert_eq!(u16::from(flags), 0);
    assert!(!flags.ra());
    flags.set_ra(true);
    flags.set_rcode(MdnsRcode::Unknown(0x1f));
    assert_eq!(u16::from(flags), 0x0080 | 0x000f);
    assert_eq!(flags.rcode(), MdnsRcode::Unknown(15));
}
