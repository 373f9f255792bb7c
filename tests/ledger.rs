use sms_stats::driver::{analyze, is_sms_line};
use sms_stats::ledger::{record, Contact};
use sms_stats::message::Message;

fn msg(address: &str, name: &str, type_: u32, body: &str) -> Message {
    Message {
        protocol: 0,
        address: address.to_string(),
        contact_name: name.to_string(),
        date: 0,
        readable_date: "null".to_string(),
        type_,
        subject: "null".to_string(),
        body: body.to_string(),
        toa: "null".to_string(),
        sc_toa: "null".to_string(),
        service_center: "null".to_string(),
        read: true,
        status: -1,
        locked: false,
    }
}

fn line(address: &str, type_: u32, body: &str) -> String {
    format!(
        "<sms protocol=\"0\" address=\"{}\" contact_name=\"Someone\" date=\"1\" readable_date=\"r\" type=\"{}\" subject=\"null\" body=\"{}\" toa=\"null\" sc_toa=\"null\" service_center=\"null\" read=\"1\" status=\"-1\" locked=\"0\" />",
        address, type_, body
    )
}

#[test]
fn new_contact_has_nothing_counted() {
    let c = Contact::new("Ann", "+1");
    assert_eq!(c.contact_name, "Ann");
    assert_eq!(c.address, "+1");
    assert_eq!((c.count_to, c.length_to, c.count_from, c.length_from), (0, 0, 0, 0));
}

#[test]
fn contact_counts_by_direction() {
    let c = Contact::new("Ann", "+1");
    let c = c.record(&msg("+1", "Ann", 2, "h\u{e9}llo"));
    assert_eq!((c.count_to, c.length_to, c.count_from, c.length_from), (1, 5, 0, 0));
    let c = c.record(&msg("+1", "Ann", 1, "hey"));
    assert_eq!((c.count_to, c.length_to, c.count_from, c.length_from), (1, 5, 1, 3));
    let c = c.record(&msg("+1", "Ann", 3, "ignored"));
    assert_eq!((c.count_to, c.length_to, c.count_from, c.length_from), (1, 5, 1, 3));
}

#[test]
fn same_address_merges_into_one_contact() {
    let mut contacts: Vec<Contact> = Vec::new();
    record(msg("+1", "Ann", 2, "abc"), &mut contacts);
    record(msg("+1", "Other", 1, "de"), &mut contacts);
    assert_eq!(contacts.len(), 1);
    let c = &contacts[0];
    assert_eq!(c.contact_name, "Ann");
    assert_eq!((c.count_to, c.length_to, c.count_from, c.length_from), (1, 3, 1, 2));
}

#[test]
fn touched_contact_moves_to_the_end() {
    let mut contacts: Vec<Contact> = Vec::new();
    record(msg("+1", "Ann", 2, "a"), &mut contacts);
    record(msg("+2", "Bob", 2, "b"), &mut contacts);
    record(msg("+1", "Ann", 1, "c"), &mut contacts);
    let order: Vec<&str> = contacts.iter().map(|c| c.address.as_str()).collect();
    assert_eq!(order, vec!["+2", "+1"]);
}

#[test]
fn counts_cover_directed_messages() {
    let msgs = vec![
        msg("+1", "Ann", 2, "a"),
        msg("+2", "Bob", 1, "bb"),
        msg("+1", "Ann", 1, "ccc"),
        msg("+1", "Ann", 7, "dddd"),
        msg("+2", "Bob", 2, "e"),
        msg("+1", "Ann", 2, "ff"),
    ];
    let mut contacts: Vec<Contact> = Vec::new();
    for m in msgs.iter() {
        record(m.clone(), &mut contacts);
    }
    for c in contacts.iter() {
        let expected = msgs
            .iter()
            .filter(|m| m.address == c.address && (m.type_ == 1 || m.type_ == 2))
            .count();
        assert_eq!(c.count_to + c.count_from, expected);
    }
    assert_eq!(contacts.len(), 2);
}

#[test]
fn candidate_lines_start_with_sms_tag() {
    assert!(is_sms_line("  <sms protocol=\"0\""));
    assert!(!is_sms_line("<smsx"));
    assert!(!is_sms_line("<mms a=\"b\" />"));
    assert!(!is_sms_line(""));
}

#[test]
fn end_to_end_counts_contacts_and_errors() {
    let lines = vec![
        line("+1", 2, "hi"),
        line("+2", 1, "hello"),
        "<sms protocol=\"zero\" />".to_string(),
    ];
    let (contacts, errors) = analyze(&lines);
    assert_eq!(contacts.len(), 2);
    assert_eq!(errors, 1);
    assert_eq!(contacts[0].address, "+1");
    assert_eq!((contacts[0].count_to, contacts[0].length_to), (1, 2));
    assert_eq!(contacts[1].address, "+2");
    assert_eq!((contacts[1].count_from, contacts[1].length_from), (1, 5));
}

#[test]
fn non_candidate_lines_are_skipped() {
    let lines = vec![
        "<?xml version='1.0' encoding='UTF-8' standalone='yes' ?>".to_string(),
        "<smses count=\"1\">".to_string(),
        line("+1", 1, "x &amp; y"),
        "</smses>".to_string(),
    ];
    let (contacts, errors) = analyze(&lines);
    assert_eq!(errors, 0);
    assert_eq!(contacts.len(), 1);
    assert_eq!((contacts[0].count_from, contacts[0].length_from), (1, 5));
}
