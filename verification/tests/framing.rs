use n3n_mgmt_api::framing::{frame_datagram, split_json_objects};

#[test]
fn splits_consecutive_objects() {
    let data = br#"{"a":1}{"b":{"c":2}}"#;
    assert_eq!(split_json_objects(data), vec![(0, 7), (7, 20)]);
}

#[test]
fn braces_inside_strings_do_not_count() {
    let data = br#"{"a":"}{"}"#;
    assert_eq!(split_json_objects(data), vec![(0, 10)]);
}

#[test]
fn escaped_quote_stays_inside_string() {
    let data = br#"{"a":"x\"}"}{}"#;
    assert_eq!(split_json_objects(data), vec![(0, 12), (12, 14)]);
}

#[test]
fn text_between_objects_joins_the_next_object() {
    let data = b"{}\n {}";
    assert_eq!(split_json_objects(data), vec![(0, 2), (2, 6)]);
}

#[test]
fn unfinished_object_is_not_returned() {
    assert_eq!(split_json_objects(br#"{"a":{"b":1}"#), vec![]);
    assert_eq!(split_json_objects(b""), vec![]);
}

#[test]
fn stray_closing_brace_blocks_later_objects() {
    assert_eq!(split_json_objects(b"}{}"), vec![]);
}

#[test]
fn invalid_utf8_is_refused() {
    assert_eq!(frame_datagram(&[b'{', 0xff, b'}']), None);
    assert_eq!(frame_datagram("{\"é\":1}".as_bytes()), Some(vec![(0, 8)]));
}

#[test]
fn splitting_resumes_after_a_closed_object() {
    let tail = br#" {"x":"{"}{}"#;
    let mut whole = b"{}".to_vec();
    whole.extend_from_slice(tail);
    let alone: Vec<(usize, usize)> = split_json_objects(tail).into_iter().map(|(a, b)| (a + 2, b + 2)).collect();
    let mut expected = vec![(0, 2)];
    expected.extend(alone);
    assert_eq!(split_json_objects(&whole), expected);
    assert_eq!(expected, vec![(0, 2), (2, 12), (12, 14)]);
}
