use prism_lb::decimal::{decimal_string, parse_port, PortError};
use std::num::IntErrorKind;

#[test]
fn decimal_text_of_numbers() {
    assert_eq!(decimal_string(0), "0");
    assert_eq!(decimal_string(7), "7");
    assert_eq!(decimal_string(10), "10");
    assert_eq!(decimal_string(80), "80");
    assert_eq!(decimal_string(65535), "65535");
    assert_eq!(decimal_string(u64::MAX), "18446744073709551615");
}

#[test]
fn parse_port_values() {
    assert_eq!(parse_port("80"), Ok(80));
    assert_eq!(parse_port("+80"), Ok(80));
    assert_eq!(parse_port("0"), Ok(0));
    assert_eq!(parse_port("65535"), Ok(65535));
    assert_eq!(parse_port("00065535"), Ok(65535));
    assert_eq!(parse_port("65536"), Err(PortError::PosOverflow));
    assert_eq!(parse_port("999999999999"), Err(PortError::PosOverflow));
    assert_eq!(parse_port("70000x"), Err(PortError::PosOverflow));
    assert_eq!(parse_port("7000x0"), Err(PortError::InvalidDigit));
    assert_eq!(parse_port(""), Err(PortError::Empty));
    assert_eq!(parse_port("+"), Err(PortError::InvalidDigit));
    assert_eq!(parse_port("-"), Err(PortError::InvalidDigit));
    assert_eq!(parse_port("-1"), Err(PortError::InvalidDigit));
    assert_eq!(parse_port("8a"), Err(PortError::InvalidDigit));
    assert_eq!(parse_port(" 80"), Err(PortError::InvalidDigit));
    assert_eq!(parse_port("80 "), Err(PortError::InvalidDigit));
    assert_eq!(parse_port("++80"), Err(PortError::InvalidDigit));
}

fn std_kind(text: &str) -> Result<u16, PortError> {
    text.parse::<u16>().map_err(|e| match e.kind() {
        IntErrorKind::Empty => PortError::Empty,
        IntErrorKind::InvalidDigit => PortError::InvalidDigit,
        IntErrorKind::PosOverflow => PortError::PosOverflow,
        other => panic!("unexpected kind {:?}", other),
    })
}

#[test]
fn parse_port_agrees_with_std() {
    let cases = [
        "", "+", "-", "0", "1", "+0", "-0", "42", "+65535", "65535", "65536", "70000", "0000", "1e3",
        "٣", "１", "12 ", "abc", "5001", "+-1", "0x10", "4294967297", "70000x", "7000x0", "99999a",
        "000000000065535", "000000000065536", "+a", "a+",
    ];
    for c in cases.iter() {
        assert_eq!(parse_port(c), std_kind(c), "text {:?}", c);
    }
}

#[test]
fn port_error_texts_match_std() {
    assert_eq!(PortError::Empty.message(), "".parse::<u16>().unwrap_err().to_string());
    assert_eq!(PortError::InvalidDigit.message(), "x".parse::<u16>().unwrap_err().to_string());
    assert_eq!(PortError::PosOverflow.message(), "70000".parse::<u16>().unwrap_err().to_string());
}

#[test]
fn port_text_round_trip() {
    for p in [0u16, 1, 9, 10, 99, 100, 443, 5001, 8080, 65534, 65535].iter() {
        let text = decimal_string(*p as u64);
        assert_eq!(parse_port(&text), Ok(*p));
    }
}
