//! End-to-end tests of the query-answering engine, driving it with real DNS
//! datagrams built and decoded through the wire-format crate.

use nanodns::engine::ProtocolError;
use nanodns::message::Rcode;
use nanodns::message::rcode_value;
use nanodns::zone::DnsAuthority;
use nanodns::Ipv4;

use trust_dns_proto::op::Message;
use trust_dns_proto::op::MessageType;
use trust_dns_proto::op::OpCode;
use trust_dns_proto::op::Query;
use trust_dns_proto::op::ResponseCode;
use trust_dns_proto::rr::rdata::A;
use trust_dns_proto::rr::Name;
use trust_dns_proto::rr::RData;
use trust_dns_proto::rr::RecordType;

fn example_zone() -> DnsAuthority {
    let names = vec![(b"example.com".to_vec(), Ipv4::new(10, 0, 0, 1))];
    DnsAuthority::new(names).expect("valid zone")
}

fn query_bytes(id: u16, names_and_types: &[(&str, RecordType)]) -> Vec<u8> {
    let mut msg = Message::new();
    msg.set_id(id).set_message_type(MessageType::Query).set_op_code(OpCode::Query);
    for (name, rtype) in names_and_types {
        msg.add_query(Query::query(Name::from_utf8(name).unwrap(), *rtype));
    }
    msg.to_vec().unwrap()
}

#[test]
fn present_name_gets_one_a_record() {
    let zone = example_zone();
    let raw = query_bytes(0x1234, &[("example.com.", RecordType::A)]);
    let reply = zone.answer_query(raw).expect("a reply is owed");
    let msg = Message::from_vec(&reply).expect("reply decodes");
    assert_eq!(msg.id(), 0x1234);
    assert_eq!(msg.message_type(), MessageType::Response);
    assert_eq!(msg.response_code(), ResponseCode::NoError);
    assert!(msg.authoritative());
    assert_eq!(msg.answers().len(), 1);
    let answer = &msg.answers()[0];
    assert_eq!(answer.record_type(), RecordType::A);
    assert_eq!(answer.ttl(), 300);
    assert_eq!(answer.data(), Some(&RData::A(A::new(10, 0, 0, 1))));
    assert_eq!(answer.name().to_utf8(), "example.com.");
}

#[test]
fn absent_name_gets_nxdomain() {
    let zone = example_zone();
    let raw = query_bytes(7, &[("missing.example.com.", RecordType::A)]);
    let reply = zone.answer_query(raw).expect("a reply is owed");
    let msg = Message::from_vec(&reply).expect("reply decodes");
    assert_eq!(msg.response_code(), ResponseCode::NXDomain);
    assert_eq!(msg.answers().len(), 0);
    assert_eq!(msg.id(), 7);
}

#[test]
fn mixed_supported_and_unsupported_questions() {
    let zone = example_zone();
    let raw = query_bytes(9, &[("example.com.", RecordType::A), ("example.com.", RecordType::MX)]);
    let reply = zone.answer_query(raw).expect("a reply is owed");
    let msg = Message::from_vec(&reply).expect("reply decodes");
    assert_eq!(msg.response_code(), ResponseCode::NoError);
    assert_eq!(msg.answers().len(), 1);
    assert_eq!(msg.answers()[0].record_type(), RecordType::A);
}

#[test]
fn duplicate_questions_each_answered() {
    let zone = example_zone();
    let raw = query_bytes(9, &[("example.com.", RecordType::A), ("example.com.", RecordType::A)]);
    let reply = zone.answer_query(raw).expect("a reply is owed");
    let msg = Message::from_vec(&reply).expect("reply decodes");
    assert_eq!(msg.response_code(), ResponseCode::NoError);
    assert_eq!(msg.answers().len(), 2);
}

#[test]
fn zero_questions_gets_nxdomain() {
    let zone = example_zone();
    let raw = query_bytes(21, &[]);
    let reply = zone.answer_query(raw).expect("a reply is owed");
    let msg = Message::from_vec(&reply).expect("reply decodes");
    assert_eq!(msg.response_code(), ResponseCode::NXDomain);
    assert_eq!(msg.answers().len(), 0);
}

#[test]
fn aaaa_question_is_skipped() {
    let zone = example_zone();
    let raw = query_bytes(3, &[("example.com.", RecordType::AAAA)]);
    let reply = zone.answer_query(raw).expect("a reply is owed");
    let msg = Message::from_vec(&reply).expect("reply decodes");
    assert_eq!(msg.response_code(), ResponseCode::NXDomain);
    assert_eq!(msg.answers().len(), 0);
}

#[test]
fn response_message_gets_notimp() {
    let zone = example_zone();
    let mut msg = Message::new();
    msg.set_id(0xBEEF).set_message_type(MessageType::Response).set_op_code(OpCode::Query);
    msg.add_query(Query::query(Name::from_utf8("example.com.").unwrap(), RecordType::A));
    let raw = msg.to_vec().unwrap();
    let reply = zone.answer_query(raw).expect("a reply is owed");
    let parsed = Message::from_vec(&reply).expect("reply decodes");
    assert_eq!(parsed.response_code(), ResponseCode::NotImp);
    assert_eq!(parsed.id(), 0xBEEF);
    assert_eq!(parsed.op_code(), OpCode::Query);
    assert_eq!(parsed.answers().len(), 0);
}

#[test]
fn nonstandard_opcode_gets_notimp() {
    let zone = example_zone();
    let mut msg = Message::new();
    msg.set_id(11).set_message_type(MessageType::Query).set_op_code(OpCode::Update);
    let raw = msg.to_vec().unwrap();
    let reply = zone.answer_query(raw).expect("a reply is owed");
    let parsed = Message::from_vec(&reply).expect("reply decodes");
    assert_eq!(parsed.response_code(), ResponseCode::NotImp);
    assert_eq!(parsed.id(), 11);
    assert_eq!(parsed.op_code(), OpCode::Update);
}

#[test]
fn truncated_datagram_is_malformed() {
    let zone = example_zone();
    let result = zone.answer_query(vec![0u8]);
    assert_eq!(result, Err(ProtocolError::Malformed));
}

#[test]
fn garbage_datagram_is_malformed() {
    let zone = example_zone();
    assert_eq!(zone.answer_query(Vec::new()), Err(ProtocolError::Malformed));
    assert_eq!(zone.answer_query(vec![0xFF; 5]), Err(ProtocolError::Malformed));
}

#[test]
fn same_query_twice_yields_identical_reply() {
    let zone = example_zone();
    let raw = query_bytes(0x4242, &[("example.com.", RecordType::A)]);
    let first = zone.answer_query(raw.clone()).expect("a reply is owed");
    let second = zone.answer_query(raw).expect("a reply is owed");
    assert_eq!(first, second);
}

#[test]
fn duplicate_zone_entry_keeps_later_address() {
    let names = vec![
        (b"example.com".to_vec(), Ipv4::new(1, 1, 1, 1)),
        (b"example.com".to_vec(), Ipv4::new(2, 2, 2, 2)),
    ];
    let zone = DnsAuthority::new(names).expect("valid zone");
    let raw = query_bytes(5, &[("example.com.", RecordType::A)]);
    let reply = zone.answer_query(raw).expect("a reply is owed");
    let msg = Message::from_vec(&reply).expect("reply decodes");
    assert_eq!(msg.answers()[0].data(), Some(&RData::A(A::new(2, 2, 2, 2))));
}

#[test]
fn lookup_is_exact_and_case_sensitive() {
    let zone = example_zone();
    assert_eq!(zone.lookup(&b"example.com".to_vec()), Some(Ipv4::new(10, 0, 0, 1)));
    assert_eq!(zone.lookup(&b"Example.com".to_vec()), None);
    assert_eq!(zone.lookup(&b"sub.example.com".to_vec()), None);
    assert_eq!(zone.lookup(&b"example.co".to_vec()), None);
}

#[test]
fn invalid_zone_domain_rejects_startup() {
    let overlong_label = vec![b'a'; 64];
    let names = vec![(overlong_label.clone(), Ipv4::new(10, 0, 0, 1))];
    let err = DnsAuthority::new(names).expect_err("label of 64 octets is invalid");
    match err {
        nanodns::zone::ConfigError::InvalidDomain(d) => assert_eq!(d, overlong_label),
        other => panic!("expected InvalidDomain, got {:?}", other),
    }
}

#[test]
fn rcode_wire_values() {
    assert_eq!(rcode_value(Rcode::NoError), 0);
    assert_eq!(rcode_value(Rcode::FormErr), 1);
    assert_eq!(rcode_value(Rcode::NXDomain), 3);
    assert_eq!(rcode_value(Rcode::NotImp), 4);
    assert_eq!(rcode_value(Rcode::NotAuth), 9);
}
