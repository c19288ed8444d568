use n3n_mgmt_api::json::{find_key, text_field_is, JsonValue};
use n3n_mgmt_api::n2n::N2nClient;

fn text(s: &str) -> JsonValue {
    JsonValue::Str(s.to_string())
}

fn object(entries: Vec<(&str, JsonValue)>) -> JsonValue {
    JsonValue::Object(entries.into_iter().map(|(k, v)| (k.to_string(), v)).collect())
}

fn keys(v: &JsonValue) -> Vec<String> {
    match v {
        JsonValue::Object(entries) => entries.iter().map(|(k, _)| k.clone()).collect(),
        _ => panic!("not an object"),
    }
}

#[test]
fn filter_removes_underscore_keys_at_every_depth() {
    let client = N2nClient::new("127.0.0.1:5644");
    let value = object(vec![
        ("_type", text("row")),
        ("community", text("net0")),
        (
            "peer",
            object(vec![("_hidden", JsonValue::Bool(true)), ("mac", text("aa:bb"))]),
        ),
        (
            "list",
            JsonValue::Array(vec![object(vec![("_x", JsonValue::Null), ("y", JsonValue::Null)])]),
        ),
    ]);
    let out = client.filter_out_underscore_keys(&value);
    assert_eq!(keys(&out), vec!["community", "peer", "list"]);
    match &out {
        JsonValue::Object(entries) => {
            assert_eq!(keys(&entries[1].1), vec!["mac"]);
            match &entries[2].1 {
                JsonValue::Array(items) => assert_eq!(keys(&items[0]), vec!["y"]),
                _ => panic!("list lost"),
            }
        }
        _ => panic!("not an object"),
    }
}

#[test]
fn filter_keeps_leaves_and_numbers() {
    let client = N2nClient::new("127.0.0.1:5644");
    let value = object(vec![("n", JsonValue::Number(serde_json::Number::from(42u64)))]);
    let out = client.filter_out_underscore_keys(&value);
    match out {
        JsonValue::Object(entries) => match &entries[0].1 {
            JsonValue::Number(n) => assert_eq!(n.as_u64(), Some(42)),
            _ => panic!("number lost"),
        },
        _ => panic!("not an object"),
    }
    match client.filter_out_underscore_keys(&text("_x")) {
        JsonValue::Str(s) => assert_eq!(s, "_x"),
        _ => panic!("string changed"),
    }
}

#[test]
fn filter_twice_is_filter_once() {
    let client = N2nClient::new("x");
    let value = object(vec![("_a", text("1")), ("b", object(vec![("_c", text("2")), ("d", text("3"))]))]);
    let once = client.filter_out_underscore_keys(&value);
    let twice = client.filter_out_underscore_keys(&once);
    assert_eq!(keys(&once), keys(&twice));
    assert_eq!(keys(&once), vec!["b"]);
}

#[test]
fn find_key_returns_first_match() {
    let entries = vec![
        ("a".to_string(), JsonValue::Null),
        ("b".to_string(), JsonValue::Bool(true)),
        ("b".to_string(), JsonValue::Bool(false)),
    ];
    assert_eq!(find_key(&entries, &"b".to_string()), Some(1));
    assert_eq!(find_key(&entries, &"c".to_string()), None);
}

#[test]
fn text_field_checks_string_values_only() {
    let v = object(vec![("_type", text("row")), ("n", JsonValue::Bool(true))]);
    assert!(text_field_is(&v, &"_type".to_string(), &"row".to_string()));
    assert!(!text_field_is(&v, &"_type".to_string(), &"end".to_string()));
    assert!(!text_field_is(&v, &"n".to_string(), &"true".to_string()));
    assert!(!text_field_is(&text("row"), &"_type".to_string(), &"row".to_string()));
}

#[test]
fn filter_keeps_keys_unique() {
    let client = N2nClient::new("x");
    let value = object(vec![("_a", text("1")), ("b", text("2")), ("c", object(vec![("_d", text("3")), ("e", text("4"))]))]);
    let out = client.filter_out_underscore_keys(&value);
    let mut k = keys(&out);
    let before = k.len();
    k.dedup();
    assert_eq!(k.len(), before);
    assert_eq!(k, vec!["b", "c"]);
}
