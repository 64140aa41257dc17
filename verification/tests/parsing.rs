use subnet_calc::parse::{parse_cidr, parse_ip, parse_octet, trim, ParseError};
use subnet_calc::subnet::NetworkPrefix;

#[test]
fn octets_parse_within_range() {
    assert_eq!(parse_octet("0"), Some(0));
    assert_eq!(parse_octet("42"), Some(42));
    assert_eq!(parse_octet("255"), Some(255));
    assert_eq!(parse_octet("007"), Some(7));
}

#[test]
fn octets_reject_bad_input() {
    assert_eq!(parse_octet(""), None);
    assert_eq!(parse_octet("256"), None);
    assert_eq!(parse_octet("12a"), None);
    assert_eq!(parse_octet("-1"), None);
    assert_eq!(parse_octet("99999999999999999999"), None);
}

#[test]
fn trim_removes_edge_whitespace() {
    assert_eq!(trim("  192 \r\n"), "192");
    assert_eq!(trim("a b"), "a b");
    assert_eq!(trim(" \t\n"), "");
    assert_eq!(trim(""), "");
}

#[test]
fn prefix_parses_from_split_line() {
    let segments = vec!["192", "168", "10\n"];
    assert_eq!(
        parse_ip(&segments),
        Ok(NetworkPrefix { o1: 192, o2: 168, o3: 10 })
    );
}

#[test]
fn prefix_ignores_extra_segments() {
    let segments = vec!["10", "0", "0", "7"];
    assert_eq!(parse_ip(&segments), Ok(NetworkPrefix { o1: 10, o2: 0, o3: 0 }));
}

#[test]
fn prefix_rejects_bad_segments() {
    let non_numeric = vec!["192", "x", "10\n"];
    assert_eq!(parse_ip(&non_numeric), Err(ParseError::MalformedPrefix));
    let out_of_range = vec!["300", "168", "10\n"];
    assert_eq!(parse_ip(&out_of_range), Err(ParseError::MalformedPrefix));
    let empty = vec!["", "168", "10\n"];
    assert_eq!(parse_ip(&empty), Err(ParseError::MalformedPrefix));
}

#[test]
fn cidr_parses_within_range() {
    assert_eq!(parse_cidr("24"), Ok(24));
    assert_eq!(parse_cidr(" 31\n"), Ok(31));
    assert_eq!(parse_cidr("28"), Ok(28));
}

#[test]
fn cidr_rejects_out_of_range_and_garbage() {
    assert_eq!(parse_cidr("23"), Err(ParseError::MalformedCidr));
    assert_eq!(parse_cidr("32"), Err(ParseError::MalformedCidr));
    assert_eq!(parse_cidr("300"), Err(ParseError::MalformedCidr));
    assert_eq!(parse_cidr("abc"), Err(ParseError::MalformedCidr));
    assert_eq!(parse_cidr(""), Err(ParseError::MalformedCidr));
}
