use mdns_lite::{
    DnsClass, DnsType, MdnsName, MdnsNameError, MdnsResponse, MdnsService, MdnsServiceError,
    TxtRecordError, TxtRecords,
};

#[test]
fn service_test_new_txt_records() {
    let records = TxtRecords::new();
    assert!(records.is_empty());
    assert_eq!(records.len(), 0);
}

#[test]
fn service_test_default_txt_records() {
    let new = TxtRecords::new();
    let default = TxtRecords::default();
    assert_eq!(new, default);
}

#[test]
fn service_test_add_txt_records() {
    let mut records = TxtRecords::new();
    assert_eq!(records.len(), 0);

    records.add("version", "1.0").unwrap();
    assert_eq!(records.len(), 1);
    assert_eq!(records.get("version"), Some(&"1.0".to_owned()));

    records.add("version", "1.1").unwrap();
    assert_eq!(records.len(), 1);
    assert_eq!(records.get("version"), Some(&"1.1".to_owned()));

    records.add("path", "/api").unwrap();
    assert_eq!(records.len(), 2);
    assert_eq!(records.get("version"), Some(&"1.1".to_owned()));
    assert_eq!(records.get("path"), Some(&"/api".to_owned()));

    for i in 2..records.capacity() {
        records.add(format!("test_record_{i}").as_str(), "test").unwrap();
    }
    assert_eq!(records.len(), records.capacity());

    assert_eq!(
        records.add("this_should_fail", "too_many_elements").err(),
        Some(MdnsServiceError::TxtRecordsFull)
    );
}

#[test]
fn service_test_remove_txt_records() {
    let mut records = TxtRecords::new();
    records.add("record_1", "value_1").unwrap();
    records.add("record_2", "value_2").unwrap();
    records.add("record_3", "value_3").unwrap();
    records.add("record_4", "value_4").unwrap();
    assert_eq!(records.len(), 4);

    assert_eq!(records.remove("record_2"), Some("value_2".to_owned()));
    assert_eq!(records.len(), 3);
    assert_eq!(records.get("record_1"), Some(&"value_1".to_owned()));
    assert_eq!(records.get("record_3"), Some(&"value_3".to_owned()));
    assert_eq!(records.get("record_4"), Some(&"value_4".to_owned()));

    assert_eq!(records.remove("record_2"), None);
    assert_eq!(records.len(), 3);
    assert_eq!(records.remove("non_existent"), None);
    assert_eq!(records.len(), 3);

    assert_eq!(records.remove("record_4"), Some("value_4".to_owned()));
    assert_eq!(records.len(), 2);
    assert_eq!(records.remove("record_1"), Some("value_1".to_owned()));
    assert_eq!(records.len(), 1);
    assert_eq!(records.remove("record_3"), Some("value_3".to_owned()));
    assert_eq!(records.len(), 0);
}

#[test]
fn service_test_serialise_txt_records() {
    let mut records = TxtRecords::new();
    assert_eq!(records.len(), 0);
    assert_eq!(records.serialise(), Vec::new());

    records.add("version", "0.1.0").unwrap();
    records.add("path", "/api").unwrap();
    records.add("type", "sensor").unwrap();
    assert_eq!(records.len(), 3);

    assert_eq!(records.serialise(), b"version=0.1.0\x00path=/api\x00type=sensor\x00".to_vec(),);
}

fn create_test_mdns_service() -> MdnsService {
    MdnsService::new("bedroom_lightbulb", "_http._tcp", "local", 80, TxtRecords::new()).unwrap()
}

#[test]
fn service_test_new_mdns_service() {
    let mut service = create_test_mdns_service();
    assert_eq!(service.instance_name_labels().first().unwrap(), "bedroom_lightbulb");
    assert_eq!(service.service_type_labels(), &vec!["_http", "_tcp"]);
    assert_eq!(service.service_type_protocol(), &"_tcp".to_owned());
    assert_eq!(service.service_domain(), "local");
    assert_eq!(service.port(), 80);
    assert_eq!(service.total_records(), 0);
    assert_eq!(service.records().len(), 0);
    assert_eq!(service.records_mut().len(), 0);
}

#[test]
fn service_test_add_record() {
    let mut service = create_test_mdns_service();
    assert_eq!(service.total_records(), 0);
    assert_eq!(service.add_record("version", "1.0"), Ok(None));
    assert_eq!(service.total_records(), 1);
    assert_eq!(service.add_record("version", "1.1"), Ok(Some("1.0".to_owned())));
    assert_eq!(service.total_records(), 1);
    assert_eq!(service.add_record("entry_2", "2"), Ok(None));
    assert_eq!(service.total_records(), 2);
    assert_eq!(service.add_record("entry_3", "3"), Ok(None));
    assert_eq!(service.total_records(), 3);
    assert_eq!(service.add_record("entry_4", "4"), Ok(None));
    assert_eq!(service.total_records(), 4);
    assert_eq!(service.add_record("entry_5", "5"), Ok(None));
    assert_eq!(service.total_records(), 5);
}

#[test]
fn service_test_remove_record() {
    let mut service = create_test_mdns_service();
    service.add_record("record_1", "1").unwrap();
    service.add_record("record_2", "2").unwrap();
    service.add_record("record_3", "3").unwrap();
    service.add_record("record_4", "4").unwrap();
    assert_eq!(service.total_records(), 4);

    assert_eq!(service.remove_record("does_not_exist"), None);
    assert_eq!(service.total_records(), 4);

    assert_eq!(service.remove_record("record_1"), Some("1".to_owned()));
    assert_eq!(service.total_records(), 3);
    assert_eq!(service.remove_record("record_4"), Some("4".to_owned()));
    assert_eq!(service.total_records(), 2);
    assert_eq!(service.remove_record("record_3"), Some("3".to_owned()));
    assert_eq!(service.total_records(), 1);
    assert_eq!(service.remove_record("record_3"), None);
    assert_eq!(service.total_records(), 1);
    assert_eq!(service.remove_record("record_2"), Some("2".to_owned()));
    assert_eq!(service.total_records(), 0);
}

#[test]
fn service_test_get_record() {
    let mut service = create_test_mdns_service();
    service.add_record("record_1", "1").unwrap();
    service.add_record("record_2", "2").unwrap();
    service.add_record("record_3", "3").unwrap();
    service.add_record("record_4", "4").unwrap();
    assert_eq!(service.total_records(), 4);

    assert_eq!(service.get_record("record_1"), Some(&"1".to_owned()));
    assert_eq!(service.get_record("record_0"), None);
    assert_eq!(service.get_record("record_2"), Some(&"2".to_owned()));
    assert_eq!(service.get_record("record_3"), Some(&"3".to_owned()));
    assert_eq!(service.get_record("record_4"), Some(&"4".to_owned()));
}

#[test]
fn service_test_validate_instance_name() {
    assert_eq!(MdnsService::validate_instance_name("ValidName"), Ok(vec!["ValidName".to_owned()]));
    assert_eq!(
        MdnsService::validate_instance_name("Another_Valid-Name"),
        Ok(vec!["Another_Valid-Name".to_owned()])
    );
    assert_eq!(
        MdnsService::validate_instance_name("One.Two.Three"),
        Ok(vec!["One".to_owned(), "Two".to_owned(), "Three".to_owned()])
    );

    assert!(MdnsService::validate_instance_name("Invalid%Name").is_err());
    assert!(MdnsService::validate_instance_name("Invalid\u{0000}Name").is_err());
}

#[test]
fn service_test_validate_service_type() {
    assert_eq!(MdnsService::validate_service_type("_udp"), Ok(vec!["_udp".to_owned()]));
    assert_eq!(
        MdnsService::validate_service_type("_http._tcp"),
        Ok(vec!["_http".to_owned(), "_tcp".to_owned()])
    );
    assert_eq!(
        MdnsService::validate_service_type("_ftp._udp"),
        Ok(vec!["_ftp".to_owned(), "_udp".to_owned()])
    );

    assert!(MdnsService::validate_service_type("_invalid").is_err());
    assert!(MdnsService::validate_service_type("_http._invalidprotocol").is_err());
    assert!(MdnsService::validate_service_type("http._tcp").is_err());
    assert!(MdnsService::validate_service_type("_http._tcp._extra").is_err());
}

#[test]
fn service_test_validate_service_domain() {
    assert_eq!(MdnsService::validate_service_domain("validdomain"), Ok("validdomain".to_string()));
    assert_eq!(
        MdnsService::validate_service_domain("another-valid_domain"),
        Ok("another-valid_domain".to_string())
    );

    assert!(MdnsService::validate_service_domain("invalid.domain").is_err());
    assert!(MdnsService::validate_service_domain("invalid%domain").is_err());
    assert!(MdnsService::validate_service_domain("invalid\u{0000}domain").is_err());
}

// ---- Further cases ----

#[test]
fn txt_get_after_add_and_remove() {
    let mut records = TxtRecords::new();
    assert_eq!(records.add("a", "1"), Ok(None));
    assert_eq!(records.add("b", "2"), Ok(None));
    assert_eq!(records.get("a"), Some(&"1".to_owned()));
    assert_eq!(records.add("a", "3"), Ok(Some("1".to_owned())));
    assert_eq!(records.get("a"), Some(&"3".to_owned()));
    assert_eq!(records.get("b"), Some(&"2".to_owned()));
    assert_eq!(records.remove("a"), Some("3".to_owned()));
    assert_eq!(records.get("a"), None);
    assert_eq!(records.get("b"), Some(&"2".to_owned()));
}

#[test]
fn txt_order_after_update_and_remove() {
    let mut records = TxtRecords::new();
    records.add("a", "1").unwrap();
    records.add("b", "2").unwrap();
    records.add("c", "3").unwrap();
    records.add("a", "4").unwrap();
    assert_eq!(records.serialise(), b"a=4\x00b=2\x00c=3\x00".to_vec());
    records.remove("a");
    assert_eq!(records.serialise(), b"c=3\x00b=2\x00".to_vec());
}

#[test]
fn txt_full_keeps_updating_existing_keys() {
    let mut records = TxtRecords::new();
    for i in 0..16 {
        records.add(format!("k{i}").as_str(), "v").unwrap();
    }
    assert_eq!(records.capacity(), 16);
    assert_eq!(records.add("k3", "w"), Ok(Some("v".to_owned())));
    assert_eq!(records.get("k3"), Some(&"w".to_owned()));
    assert_eq!(records.add("new", "x"), Err(MdnsServiceError::TxtRecordsFull));
    assert_eq!(records.len(), 16);
    assert_eq!(records.get("new"), None);
}

#[test]
fn txt_wire_format() {
    let mut records = TxtRecords::new();
    assert_eq!(records.to_wire_format(), Ok(Vec::new()));
    records.add("path", "/api").unwrap();
    records.add("v", "1").unwrap();
    assert_eq!(
        records.to_wire_format(),
        Ok(vec![9, b'p', b'a', b't', b'h', b'=', b'/', b'a', b'p', b'i', 3, b'v', b'=', b'1'])
    );
    let value = "x".repeat(253);
    records.add("k", value.as_str()).unwrap();
    assert_eq!(records.to_wire_format().unwrap().len(), 10 + 4 + 256);
    records.add("k", "xx").unwrap();
    records.add("kk", value.as_str()).unwrap();
    assert_eq!(records.to_wire_format(), Err(TxtRecordError::EntryTooLong));
}

#[test]
fn service_validation_errors() {
    assert_eq!(
        MdnsService::validate_instance_name("ok.bad%one"),
        Err(MdnsServiceError::InvalidInstanceName("bad%one".to_owned()))
    );
    assert_eq!(
        MdnsService::validate_instance_name("tab\u{0009}.x\u{0085}"),
        Err(MdnsServiceError::InvalidInstanceName("tab\u{0009}".to_owned()))
    );
    assert_eq!(MdnsService::validate_instance_name(""), Ok(vec![String::new()]));
    assert_eq!(
        MdnsService::validate_service_type("http._tcp"),
        Err(MdnsServiceError::InvalidServiceType("http".to_owned()))
    );
    assert_eq!(
        MdnsService::validate_service_type("_h ttp._tcp"),
        Err(MdnsServiceError::InvalidServiceType("_h ttp".to_owned()))
    );
    assert_eq!(
        MdnsService::validate_service_type("_http._sctp"),
        Err(MdnsServiceError::InvalidServiceProtocol("_sctp".to_owned()))
    );
    assert_eq!(
        MdnsService::validate_service_domain("bad%domain"),
        Err(MdnsServiceError::InvalidServiceDomain("bad%domain".to_owned()))
    );
    assert_eq!(
        MdnsService::new("x", "_http._tcp", "lo\u{009f}cal", 1, TxtRecords::new()).err(),
        Some(MdnsServiceError::InvalidServiceDomain("lo\u{009f}cal".to_owned()))
    );
    assert_eq!(
        MdnsService::new("a%b", "nope", "local", 1, TxtRecords::new()).err(),
        Some(MdnsServiceError::InvalidInstanceName("a%b".to_owned()))
    );
}

#[test]
fn service_names() {
    let service = MdnsService::new("lamp", "_http._tcp", "local", 80, TxtRecords::new()).unwrap();
    assert_eq!(service.labels(), vec!["lamp", "_http", "_tcp", "local"]);
    assert_eq!(service.service_name().unwrap().to_string(), "lamp._http._tcp.local.");
    assert_eq!(service.host_name().unwrap().to_string(), "lamp.local.");
    let empty = MdnsService::new("", "_http._tcp", "local", 80, TxtRecords::new()).unwrap();
    assert_eq!(empty.service_name().unwrap_err(), MdnsNameError::LabelTooShort);
}

#[test]
fn service_announcement() {
    let mut service = MdnsService::new("lamp", "_http._tcp", "local", 80, TxtRecords::new()).unwrap();
    let ipv4 = vec![192, 168, 1, 2];
    let packet = service.to_service_announcement_packet(120, Some(&ipv4), None).unwrap();
    assert_eq!(packet.transaction_id(), 0);
    assert!(!packet.has_questions());
    assert_eq!(packet.answers().len(), 2);
    assert_eq!(packet.authorities().len(), 1);
    assert!(packet.header().flags().qr());
    assert!(packet.header().flags().aa());
    let ptr = &packet.answers()[0];
    assert_eq!(ptr.response_type(), &DnsType::PTR);
    assert_eq!(ptr.name().to_string(), "_http._tcp.local.");
    assert_eq!(ptr.data(), &MdnsName::from_name("lamp._http._tcp.local.").unwrap().to_wire_format().to_vec());
    let srv = &packet.answers()[1];
    assert_eq!(srv.response_type(), &DnsType::SRV);
    let mut srv_data = vec![0, 0, 0, 0, 0, 80];
    srv_data.extend_from_slice(MdnsName::from_name("lamp.local.").unwrap().to_wire_format());
    assert_eq!(srv.data(), &srv_data);
    let a = &packet.authorities()[0];
    assert_eq!(
        a,
        &MdnsResponse::new(MdnsName::from_name("lamp.local.").unwrap(), DnsType::A, DnsClass::IN, 120, ipv4.clone())
    );

    service.add_record("path", "/").unwrap();
    let ipv6 = vec![0; 16];
    let packet = service.to_service_announcement_packet(60, None, Some(&ipv6)).unwrap();
    assert_eq!(packet.answers().len(), 3);
    assert_eq!(packet.answers()[2].data(), &vec![6, b'p', b'a', b't', b'h', b'=', b'/']);
    assert_eq!(packet.authorities()[0].response_type(), &DnsType::AAAA);

    service.add_record("long", "x".repeat(300).as_str()).unwrap();
    assert_eq!(
        service.to_service_announcement_packet(60, None, None).err(),
        Some(MdnsServiceError::TxtRecordError(TxtRecordError::EntryTooLong))
    );

    let bad = MdnsService::new("", "_http._tcp", "local", 80, TxtRecords::new()).unwrap();
    assert_eq!(
        bad.to_service_announcement_packet(60, None, None).err(),
        Some(MdnsServiceError::NameError(MdnsNameError::LabelTooShort))
    );
}

#[test]
fn response_txt_record() {
    let mut records = TxtRecords::new();
    records.add("a", "b").unwrap();
    let name = MdnsName::from_name("s.local.").unwrap();
    let txt = MdnsResponse::new_txt(name.clone(), 5, &records).unwrap();
    assert_eq!(txt.response_type(), &DnsType::TXT);
    assert_eq!(txt.data(), &vec![3, b'a', b'=', b'b']);
    records.add("c", "y".repeat(255).as_str()).unwrap();
    assert_eq!(MdnsResponse::new_txt(name, 5, &records).unwrap_err(), TxtRecordError::EntryTooLong);
}
