//! Tests of the zone-file format: line handling, field splitting, and
//! dotted-quad address parsing.

use nanodns::bytes::split_bytes;
use nanodns::bytes::trim;
use nanodns::zone::ConfigError;
use nanodns::zonefile::load_zone;
use nanodns::zonefile::parse_ipv4;
use nanodns::zonefile::parse_zone_text;
use nanodns::Ipv4;

#[test]
fn simple_zone_file_parses() {
    let text = b"example.com=10.0.0.1\nother.org=192.168.7.9\n".to_vec();
    let pairs = parse_zone_text(&text).expect("well-formed zone file");
    assert_eq!(
        pairs,
        vec![
            (b"example.com".to_vec(), Ipv4::new(10, 0, 0, 1)),
            (b"other.org".to_vec(), Ipv4::new(192, 168, 7, 9)),
        ]
    );
}

#[test]
fn comments_and_blank_lines_are_skipped() {
    let text = b"# the zone\n\n   \nexample.com=10.0.0.1\n  # indented comment\n".to_vec();
    let pairs = parse_zone_text(&text).expect("well-formed zone file");
    assert_eq!(pairs, vec![(b"example.com".to_vec(), Ipv4::new(10, 0, 0, 1))]);
}

#[test]
fn whitespace_around_fields_is_trimmed() {
    let text = b"  example.com =  10.0.0.1 \r\n".to_vec();
    let pairs = parse_zone_text(&text).expect("well-formed zone file");
    assert_eq!(pairs, vec![(b"example.com".to_vec(), Ipv4::new(10, 0, 0, 1))]);
}

#[test]
fn line_without_equals_fails_naming_the_line() {
    let text = b"bad-line-no-equals".to_vec();
    let err = parse_zone_text(&text).expect_err("malformed line must fail the load");
    match err {
        ConfigError::MalformedLine(line) => assert_eq!(line, b"bad-line-no-equals".to_vec()),
        other => panic!("expected MalformedLine, got {:?}", other),
    }
}

#[test]
fn line_with_two_equals_fails() {
    let text = b"a=b=c".to_vec();
    let err = parse_zone_text(&text).expect_err("three fields must fail the load");
    assert!(matches!(err, ConfigError::MalformedLine(_)));
}

#[test]
fn bad_address_fails_naming_the_field() {
    let text = b"example.com=10.0.0.256".to_vec();
    let err = parse_zone_text(&text).expect_err("octet over 255 must fail the load");
    match err {
        ConfigError::InvalidAddress(addr) => assert_eq!(addr, b"10.0.0.256".to_vec()),
        other => panic!("expected InvalidAddress, got {:?}", other),
    }
}

#[test]
fn first_bad_line_wins() {
    let text = b"no-equals-here\nexample.com=10.0.0.256\n".to_vec();
    let err = parse_zone_text(&text).expect_err("first offending line must be named");
    assert!(matches!(err, ConfigError::MalformedLine(_)));
}

#[test]
fn parse_ipv4_accepts_dotted_quads() {
    assert_eq!(parse_ipv4(&b"10.0.0.1".to_vec()), Some(Ipv4::new(10, 0, 0, 1)));
    assert_eq!(parse_ipv4(&b"0.0.0.0".to_vec()), Some(Ipv4::new(0, 0, 0, 0)));
    assert_eq!(parse_ipv4(&b"255.255.255.255".to_vec()), Some(Ipv4::new(255, 255, 255, 255)));
}

#[test]
fn parse_ipv4_rejects_bad_forms() {
    assert_eq!(parse_ipv4(&b"".to_vec()), None);
    assert_eq!(parse_ipv4(&b"1.2.3".to_vec()), None);
    assert_eq!(parse_ipv4(&b"1.2.3.4.5".to_vec()), None);
    assert_eq!(parse_ipv4(&b"256.0.0.1".to_vec()), None);
    assert_eq!(parse_ipv4(&b"01.2.3.4".to_vec()), None);
    assert_eq!(parse_ipv4(&b"1.2..4".to_vec()), None);
    assert_eq!(parse_ipv4(&b"a.b.c.d".to_vec()), None);
    assert_eq!(parse_ipv4(&b"1.2.3.4 ".to_vec()), None);
}

#[test]
fn trim_removes_surrounding_whitespace() {
    assert_eq!(trim(&b"  a b \t".to_vec()), b"a b".to_vec());
    assert_eq!(trim(&b"\r\n".to_vec()), Vec::<u8>::new());
    assert_eq!(trim(&b"x".to_vec()), b"x".to_vec());
    assert_eq!(trim(&Vec::new()), Vec::<u8>::new());
}

#[test]
fn split_keeps_empty_parts() {
    assert_eq!(
        split_bytes(&b"a=b".to_vec(), b'='),
        vec![b"a".to_vec(), b"b".to_vec()]
    );
    assert_eq!(
        split_bytes(&b"==".to_vec(), b'='),
        vec![Vec::new(), Vec::new(), Vec::new()]
    );
    assert_eq!(split_bytes(&Vec::new(), b'='), vec![Vec::<u8>::new()]);
}

#[test]
fn load_zone_builds_a_servable_table() {
    let text = b"# demo zone\nexample.com=10.0.0.1\nexample.com=10.0.0.2\n".to_vec();
    let zone = load_zone(&text).expect("well-formed zone file");
    assert_eq!(zone.lookup(&b"example.com".to_vec()), Some(Ipv4::new(10, 0, 0, 2)));
    assert_eq!(zone.lookup(&b"missing.example.com".to_vec()), None);
}

#[test]
fn load_zone_rejects_invalid_domain() {
    let mut text = vec![b'a'; 64];
    text.extend_from_slice(b"=10.0.0.1");
    let err = load_zone(&text).expect_err("overlong label must fail the load");
    assert!(matches!(err, ConfigError::InvalidDomain(_)));
}
