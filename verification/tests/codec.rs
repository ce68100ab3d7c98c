use logs_plugin::codec::{deserialize_report, serialize_report};
use logs_plugin::Report;

fn round_trip(topic: &str, payload: &str) {
    let r = Report { topic: topic.to_owned(), payload: payload.to_owned() };
    let wire = serialize_report(&r);
    let back = deserialize_report(&wire).expect("serialized form decodes");
    assert_eq!(back.topic, topic);
    assert_eq!(back.payload, payload);
}

#[test]
fn round_trip_plain() {
    round_trip("tln/alpha/logs", "1: 2024-01-02 03:04:05 +00:00 : boot ok\n");
}

#[test]
fn round_trip_empty_strings() {
    round_trip("", "");
}

#[test]
fn round_trip_quotes_and_backslashes() {
    round_trip("a\"b\\c", "say \"hi\" \\ done");
}

#[test]
fn round_trip_control_characters() {
    round_trip("line1\nline2", "tab\there\rbell\u{7}nul\u{0}");
}

#[test]
fn round_trip_unicode() {
    round_trip("h\u{e9}llo \u{2603}", "\u{1f600} wide");
}

#[test]
fn serialized_form_is_exact() {
    let r = Report { topic: "a".to_owned(), payload: "b".to_owned() };
    assert_eq!(serialize_report(&r), "{\"topic\":\"a\",\"payload\":\"b\"}");
}

#[test]
fn serialized_escapes_are_exact() {
    let r = Report { topic: "a\"b".to_owned(), payload: "c\\d\ne".to_owned() };
    assert_eq!(
        serialize_report(&r),
        "{\"topic\":\"a\\\"b\",\"payload\":\"c\\\\d\\u000ae\"}"
    );
}

#[test]
fn serialized_form_parses_as_json() {
    let r = Report {
        topic: "t\"x\\y".to_owned(),
        payload: "p\nq\u{1}".to_owned(),
    };
    let wire = serialize_report(&r);
    let v: serde_json::Value = serde_json::from_str(&wire).expect("valid under a JSON parser");
    assert_eq!(v["topic"].as_str().unwrap(), "t\"x\\y");
    assert_eq!(v["payload"].as_str().unwrap(), "p\nq\u{1}");
}

#[test]
fn deserialize_accepts_whitespace_between_tokens() {
    let r = deserialize_report(" { \"topic\" : \"x\" ,\n\t\"payload\" : \"y\" } ")
        .expect("whitespace between tokens is insignificant");
    assert_eq!(r.topic, "x");
    assert_eq!(r.payload, "y");
}

#[test]
fn deserialize_decodes_hex_escapes() {
    let r = deserialize_report("{\"topic\":\"\\u0007\",\"payload\":\"\\u0000\"}")
        .expect("hex escapes decode");
    assert_eq!(r.topic, "\u{7}");
    assert_eq!(r.payload, "\u{0}");
}

#[test]
fn deserialize_rejects_malformed_input() {
    assert!(deserialize_report("").is_none());
    assert!(deserialize_report("{}").is_none());
    assert!(deserialize_report("{\"topic\":\"a\"}").is_none());
    assert!(deserialize_report("{\"payload\":\"b\",\"topic\":\"a\"}").is_none());
    assert!(deserialize_report("{\"topic\":\"a\",\"payload\":\"b\"").is_none());
    assert!(deserialize_report("{\"topic\":\"a\",\"payload\":\"b\"} trailing").is_none());
    assert!(deserialize_report("{\"topic\":\"a\",\"payload\":\"b\\u12zz\"}").is_none());
    assert!(deserialize_report("{\"topic\":\"unterminated,\"payload\":\"b\"}").is_none());
}
