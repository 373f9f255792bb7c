use sms_stats::message::{Message, ParseError};
use sms_stats::positional::read_xml_line;

const CANONICAL: &str = "<sms protocol=\"0\" address=\"+12345678901\" contact_name=\"John Smith\" date=\"1234567890123\" readable_date=\"Fri, 39 May 2015 04:13:14 MST\" type=\"2\" subject=\"null\" body=\"Here&apos;s a message\" toa=\"null\" sc_toa=\"null\" service_center=\"null\" read=\"1\" status=\"-1\" locked=\"0\" />";

fn check_canonical(m: &Message) {
    assert_eq!(m.protocol, 0);
    assert_eq!(m.address, "+12345678901");
    assert_eq!(m.contact_name, "John Smith");
    assert_eq!(m.date, 1234567890123);
    assert_eq!(m.readable_date, "Fri, 39 May 2015 04:13:14 MST");
    assert_eq!(m.type_, 2);
    assert_eq!(m.subject, "null");
    assert_eq!(m.body, "Here's a message");
    assert_eq!(m.toa, "null");
    assert_eq!(m.sc_toa, "null");
    assert_eq!(m.service_center, "null");
    assert!(m.read);
    assert_eq!(m.status, -1);
    assert!(!m.locked);
}

#[test]
fn parses_canonical_line() {
    let m = Message::read_from_xml(CANONICAL).unwrap();
    check_canonical(&m);
}

#[test]
fn parses_indented_line() {
    let line = format!("\t  {}  \r", CANONICAL);
    let m = Message::read_from_xml(&line).unwrap();
    check_canonical(&m);
}

#[test]
fn missing_attribute_is_reported() {
    let line = CANONICAL.replace(" subject=\"null\"", "");
    assert_eq!(
        Message::read_from_xml(&line),
        Err(ParseError::MissingField("subject".to_string()))
    );
}

#[test]
fn first_missing_attribute_in_export_order_is_reported() {
    let line = "<sms body=\"x\" />";
    assert_eq!(
        Message::read_from_xml(line),
        Err(ParseError::MissingField("protocol".to_string()))
    );
}

#[test]
fn attribute_order_does_not_matter() {
    let permuted = "<sms locked=\"0\" status=\"-1\" read=\"1\" service_center=\"null\" sc_toa=\"null\" toa=\"null\" body=\"Here&apos;s a message\" subject=\"null\" type=\"2\" readable_date=\"Fri, 39 May 2015 04:13:14 MST\" date=\"1234567890123\" contact_name=\"John Smith\" address=\"+12345678901\" protocol=\"0\" />";
    let a = Message::read_from_xml(CANONICAL).unwrap();
    let b = Message::read_from_xml(permuted).unwrap();
    assert_eq!(a, b);
}

#[test]
fn invalid_number_is_reported() {
    let line = CANONICAL.replace("date=\"1234567890123\"", "date=\"12x\"");
    assert_eq!(
        Message::read_from_xml(&line),
        Err(ParseError::InvalidNumber("date".to_string(), "12x".to_string()))
    );
}

#[test]
fn unsigned_field_rejects_minus_sign() {
    let line = CANONICAL.replace("protocol=\"0\"", "protocol=\"-1\"");
    assert_eq!(
        Message::read_from_xml(&line),
        Err(ParseError::InvalidNumber("protocol".to_string(), "-1".to_string()))
    );
}

#[test]
fn out_of_range_status_is_invalid() {
    let line = CANONICAL.replace("status=\"-1\"", "status=\"2147483648\"");
    assert_eq!(
        Message::read_from_xml(&line),
        Err(ParseError::InvalidNumber("status".to_string(), "2147483648".to_string()))
    );
}

#[test]
fn numbers_at_the_edges_of_their_types() {
    let line = CANONICAL
        .replace("protocol=\"0\"", "protocol=\"+4294967295\"")
        .replace("date=\"1234567890123\"", "date=\"-9223372036854775808\"")
        .replace("status=\"-1\"", "status=\"2147483647\"");
    let m = Message::read_from_xml(&line).unwrap();
    assert_eq!(m.protocol, 4294967295);
    assert_eq!(m.date, i64::MIN);
    assert_eq!(m.status, 2147483647);
}

#[test]
fn flags_are_set_only_by_one() {
    let line = CANONICAL
        .replace("read=\"1\"", "read=\"yes\"")
        .replace("locked=\"0\"", "locked=\"1\"");
    let m = Message::read_from_xml(&line).unwrap();
    assert!(!m.read);
    assert!(m.locked);
}

#[test]
fn positional_reader_parses_canonical_line() {
    let m = read_xml_line(CANONICAL).unwrap();
    check_canonical(&m);
}

#[test]
fn positional_reader_reports_short_line() {
    let line = "<sms protocol=\"0\" address=\"+1\" />";
    assert_eq!(
        read_xml_line(line),
        Err(ParseError::MissingField("contact_name".to_string()))
    );
}

#[test]
fn positional_reader_reads_flags_as_numbers() {
    let line = CANONICAL.replace("read=\"1\"", "read=\"yes\"");
    assert_eq!(
        read_xml_line(&line),
        Err(ParseError::InvalidNumber("read".to_string(), "yes".to_string()))
    );
}
