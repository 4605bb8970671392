use site_app::contact::Contact;
use site_app::json::{chars_of, read_string, write_string_literal};

fn s(x: &str) -> Option<String> {
    Some(x.to_string())
}

#[test]
fn scenario_document_has_the_five_fields() {
    let c = Contact::new(s("Jane"), s("Doe"), s("jane@example.com"), s("555-1234"), s(""));
    assert_eq!(
        c.to_json(),
        r#"{"first_name":"Jane","last_name":"Doe","email":"jane@example.com","phone":"555-1234","note":""}"#
    );
}

#[test]
fn all_fields_absent_give_nulls() {
    let c = Contact::new(None, None, None, None, None);
    assert_eq!(
        c.to_json(),
        r#"{"first_name":null,"last_name":null,"email":null,"phone":null,"note":null}"#
    );
}

#[test]
fn all_fields_empty_give_empty_strings() {
    let c = Contact::new(s(""), s(""), s(""), s(""), s(""));
    assert_eq!(
        c.to_json(),
        r#"{"first_name":"","last_name":"","email":"","phone":"","note":""}"#
    );
}

#[test]
fn mixed_presence_writes_null_only_for_absent_fields() {
    let c = Contact::new(s("Ann"), None, s("a@b.c"), None, s("hi"));
    assert_eq!(
        c.to_json(),
        r#"{"first_name":"Ann","last_name":null,"email":"a@b.c","phone":null,"note":"hi"}"#
    );
}

#[test]
fn every_presence_pattern_serializes_to_the_five_keys() {
    for mask in 0u32..32 {
        let pick = |bit: u32, v: &str| if mask & (1 << bit) != 0 { s(v) } else { None };
        let c = Contact::new(pick(0, "a"), pick(1, "b"), pick(2, "c"), pick(3, "d"), pick(4, "e"));
        let text = c.to_json();
        for key in ["first_name", "last_name", "email", "phone", "note"] {
            assert_eq!(text.matches(&format!("\"{}\":", key)).count(), 1);
        }
        assert!(text.starts_with('{') && text.ends_with('}'));
        let back = Contact::from_json(&text).unwrap();
        assert_eq!(back.first_name(), c.first_name());
        assert_eq!(back.note(), c.note());
    }
}

#[test]
fn special_characters_are_escaped() {
    let c = Contact::new(s("a\"b\\c"), s("line\nbreak\ttab"), s("\u{1}\u{1f}\u{8}\u{c}\r"), s("é🎉"), s("/"));
    assert_eq!(
        c.to_json(),
        "{\"first_name\":\"a\\\"b\\\\c\",\"last_name\":\"line\\nbreak\\ttab\",\"email\":\"\\u0001\\u001f\\b\\f\\r\",\"phone\":\"é🎉\",\"note\":\"/\"}"
    );
}

#[test]
fn round_trip_keeps_every_field() {
    let c = Contact::new(s("a\"b\\c"), None, s("\u{1}\u{7f}x"), s("é🎉"), s(""));
    let back = Contact::from_json(&c.to_json()).unwrap();
    assert_eq!(back.first_name(), &s("a\"b\\c"));
    assert_eq!(back.last_name(), &None);
    assert_eq!(back.email(), &s("\u{1}\u{7f}x"));
    assert_eq!(back.phone(), &s("é🎉"));
    assert_eq!(back.note(), &s(""));
}

#[test]
fn round_trip_of_scenario_record() {
    let c = Contact::new(s("Jane"), s("Doe"), s("jane@example.com"), s("555-1234"), s(""));
    let back = Contact::from_json(&c.to_json()).unwrap();
    assert_eq!(back.to_json(), c.to_json());
    assert_eq!(back.email(), &s("jane@example.com"));
}

#[test]
fn from_json_rejects_other_forms() {
    let good = r#"{"first_name":null,"last_name":null,"email":null,"phone":null,"note":null}"#;
    assert!(Contact::from_json(good).is_some());
    assert!(Contact::from_json("").is_none());
    assert!(Contact::from_json("{}").is_none());
    assert!(Contact::from_json(&format!("{} ", good)).is_none());
    assert!(Contact::from_json(
        r#"{ "first_name":null,"last_name":null,"email":null,"phone":null,"note":null}"#
    )
    .is_none());
    assert!(Contact::from_json(
        r#"{"last_name":null,"first_name":null,"email":null,"phone":null,"note":null}"#
    )
    .is_none());
    assert!(Contact::from_json(
        r#"{"first_name":"\u001F","last_name":null,"email":null,"phone":null,"note":null}"#
    )
    .is_none());
    assert!(Contact::from_json(
        r#"{"first_name":"\u000a","last_name":null,"email":null,"phone":null,"note":null}"#
    )
    .is_none());
}

#[test]
fn from_json_reads_lower_case_control_escape() {
    let text = r#"{"first_name":"\u001f","last_name":null,"email":null,"phone":null,"note":"x"}"#;
    let c = Contact::from_json(text).unwrap();
    assert_eq!(c.first_name(), &s("\u{1f}"));
    assert_eq!(c.note(), &s("x"));
}

#[test]
fn string_literal_is_quoted_and_escaped() {
    assert_eq!(write_string_literal("plain"), "\"plain\"");
    assert_eq!(write_string_literal("a\"b"), "\"a\\\"b\"");
    assert_eq!(write_string_literal(""), "\"\"");
}

#[test]
fn read_string_finds_the_closing_quote() {
    let t = chars_of("x\"a\\\"b\"rest");
    let (v, end) = read_string(&t, 1).unwrap();
    assert_eq!(v, "a\"b");
    assert_eq!(end, 7);
    assert!(read_string(&t, 0).is_none());
    assert!(read_string(&chars_of("\"open"), 0).is_none());
}
