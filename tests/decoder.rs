use sms_stats::entity::desanitize;
use sms_stats::positional::parse_body;

#[test]
fn mod_test_desanitization() {
    assert_eq!(parse_body("&apos;&amp;&quot;&lt;&gt;"), "\'&\"<>");
}

#[test]
fn decodes_the_five_entities() {
    assert_eq!(desanitize("&apos;&amp;&quot;&lt;&gt;"), "'&\"<>");
}

#[test]
fn unknown_entity_becomes_question_mark() {
    assert_eq!(desanitize("&foo;"), "?");
    assert_eq!(desanitize("a&#10;b"), "a?b");
}

#[test]
fn dangling_entity_is_dropped() {
    assert_eq!(desanitize("abc&amp"), "abc");
}

#[test]
fn plain_text_passes_through() {
    assert_eq!(desanitize("hello"), "hello");
    assert_eq!(desanitize(""), "");
}

#[test]
fn semicolon_outside_entity_is_kept() {
    assert_eq!(desanitize("a;b"), "a;b");
}

#[test]
fn second_ampersand_restarts_token() {
    assert_eq!(desanitize("x&ab&lt;y"), "x<y");
}

#[test]
fn decoding_is_never_longer() {
    let s = "caf\u{e9} &amp; th\u{e9} &quot;ok&quot; &zz";
    let d = desanitize(s);
    assert_eq!(d, "caf\u{e9} & th\u{e9} \"ok\" ");
    assert!(d.chars().count() <= s.chars().count());
}
