use n3n_mgmt_api::json::JsonValue;
use n3n_mgmt_api::n2n::ReplyCollector;

fn field(v: &JsonValue, key: &str) -> Option<String> {
    match v {
        JsonValue::Object(entries) => entries.iter().find(|(k, _)| k == key).and_then(|(_, v)| match v {
            JsonValue::Str(s) => Some(s.clone()),
            _ => None,
        }),
        _ => None,
    }
}

#[test]
fn brace_inside_string_yields_row_then_end() {
    let mut c = ReplyCollector::new();
    assert!(c.accept_datagram(br#"{"_type":"row","n":"a}"}{"_type":"end"}"#));
    assert!(c.is_finished());
    let r = c.into_responses();
    assert_eq!(r.len(), 2);
    assert_eq!(field(&r[0], "n"), Some("a}".to_string()));
    assert_eq!(field(&r[1], "_type"), Some("end".to_string()));
}

#[test]
fn escaped_quotes_and_backslashes_yield_all_objects() {
    let mut c = ReplyCollector::new();
    assert!(c.accept_datagram(br#"{"_type":"row","s":"\"{"}{"_type":"row","t":"\\"}{"_type":"end"}"#));
    let r = c.into_responses();
    assert_eq!(r.len(), 3);
    assert_eq!(field(&r[0], "s"), Some("\"{".to_string()));
    assert_eq!(field(&r[1], "t"), Some("\\".to_string()));
    assert_eq!(field(&r[2], "_type"), Some("end".to_string()));
}

#[test]
fn objects_that_do_not_parse_are_dropped() {
    let mut c = ReplyCollector::new();
    assert!(c.accept_datagram(br#"{"_type":"row",}{"_type":"row","a":"1"}"#));
    assert!(!c.is_finished());
    let r = c.into_responses();
    assert_eq!(r.len(), 1);
    assert_eq!(field(&r[0], "a"), Some("1".to_string()));
}

#[test]
fn end_marker_is_case_sensitive_and_later_objects_are_kept() {
    let mut c = ReplyCollector::new();
    assert!(c.accept_datagram(br#"{"_type":"END"}{"_type":"row"}"#));
    assert!(!c.is_finished());
    assert!(c.accept_datagram(br#"{"_type":"end"}{"_type":"row","x":1}"#));
    assert!(c.is_finished());
    assert_eq!(c.into_responses().len(), 4);
}

#[test]
fn non_utf8_datagram_changes_nothing() {
    let mut c = ReplyCollector::new();
    assert!(c.accept_datagram(br#"{"_type":"row"}"#));
    assert!(!c.accept_datagram(&[b'{', 0xff, b'}']));
    assert!(!c.is_finished());
    assert_eq!(c.into_responses().len(), 1);
}
