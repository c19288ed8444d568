use n3n_mgmt_api::api::{failure_reply, init_protocol, HttpStatus};
use n3n_mgmt_api::json::JsonValue;
use n3n_mgmt_api::n2n::{N2nClient, N2nError, ReplyCollector};

fn text(s: &str) -> JsonValue {
    JsonValue::Str(s.to_string())
}

fn object(entries: Vec<(&str, JsonValue)>) -> JsonValue {
    JsonValue::Object(entries.into_iter().map(|(k, v)| (k.to_string(), v)).collect())
}

fn begin() -> JsonValue {
    object(vec![("_tag", text("1")), ("_type", text("begin")), ("cmd", text("edges"))])
}

fn end() -> JsonValue {
    object(vec![("_tag", text("1")), ("_type", text("end")), ("cmd", text("edges"))])
}

fn row(mac: &str) -> JsonValue {
    object(vec![("_tag", text("1")), ("_type", text("row")), ("mac", text(mac))])
}

fn result_of(v: JsonValue) -> JsonValue {
    match v {
        JsonValue::Object(mut entries) => {
            assert_eq!(entries.len(), 1);
            assert_eq!(entries[0].0, "result");
            entries.remove(0).1
        }
        _ => panic!("reply is not an object"),
    }
}

fn mac_of(v: &JsonValue) -> String {
    match v {
        JsonValue::Object(entries) => {
            assert_eq!(entries.len(), 1);
            assert_eq!(entries[0].0, "mac");
            match &entries[0].1 {
                JsonValue::Str(s) => s.clone(),
                _ => panic!("mac is not a string"),
            }
        }
        _ => panic!("row is not an object"),
    }
}

#[test]
fn listing_collects_rows_without_hidden_keys() {
    let client = N2nClient::new("127.0.0.1:5644");
    let replies = vec![begin(), row("aa"), row("bb"), end()];
    let out = client.process_response(replies, "edges").ok().unwrap();
    match result_of(out) {
        JsonValue::Array(items) => {
            assert_eq!(items.len(), 2);
            assert_eq!(mac_of(&items[0]), "aa");
            assert_eq!(mac_of(&items[1]), "bb");
        }
        _ => panic!("listing is not an array"),
    }
}

#[test]
fn listing_without_rows_is_empty_array() {
    let client = N2nClient::new("127.0.0.1:5644");
    let out = client.process_response(vec![begin(), end()], "supernodes").ok().unwrap();
    match result_of(out) {
        JsonValue::Array(items) => assert!(items.is_empty()),
        _ => panic!("listing is not an array"),
    }
}

#[test]
fn timestamps_takes_first_row_only() {
    let client = N2nClient::new("127.0.0.1:5644");
    let out = client.process_response(vec![begin(), row("first"), row("second"), end()], "timestamps").ok().unwrap();
    assert_eq!(mac_of(&result_of(out)), "first");
}

#[test]
fn timestamps_without_rows_is_null() {
    let client = N2nClient::new("127.0.0.1:5644");
    let out = client.process_response(vec![begin(), end()], "timestamps").ok().unwrap();
    assert!(matches!(result_of(out), JsonValue::Null));
}

#[test]
fn unknown_command_report_is_not_implemented() {
    let client = N2nClient::new("127.0.0.1:5644");
    let error = object(vec![("_tag", text("1")), ("_type", text("error")), ("error", text("unknowncmd"))]);
    let out = client.process_response(vec![error], "info");
    assert!(matches!(out, Err(N2nError::NotImplemented)));
    assert_eq!(N2nError::NotImplemented.message(), "not implemented");
}

#[test]
fn unknown_command_report_wins_over_invalid_command() {
    let client = N2nClient::new("127.0.0.1:5644");
    let error = object(vec![("_type", text("error")), ("error", text("unknowncmd"))]);
    let out = client.process_response(vec![row("aa"), error], "bogus");
    assert!(matches!(out, Err(N2nError::NotImplemented)));
}

#[test]
fn other_errors_are_not_unknown_commands() {
    let client = N2nClient::new("127.0.0.1:5644");
    let error = object(vec![("_type", text("error")), ("error", text("badauth"))]);
    let out = client.process_response(vec![error, row("aa")], "edges").ok().unwrap();
    match result_of(out) {
        JsonValue::Array(items) => assert_eq!(items.len(), 1),
        _ => panic!("listing is not an array"),
    }
}

#[test]
fn invalid_command_is_refused() {
    let client = N2nClient::new("127.0.0.1:5644");
    let out = client.process_response(vec![row("aa")], "bogus");
    assert!(matches!(out, Err(N2nError::InvalidCommand)));
    assert_eq!(N2nError::InvalidCommand.message(), "Invalid cmd");
}

#[test]
fn not_implemented_answer() {
    let client = N2nClient::new("127.0.0.1:5644");
    assert!(matches!(client.not_implemented(), Err(N2nError::NotImplemented)));
}

#[test]
fn command_line_text() {
    let client = N2nClient::new("127.0.0.1:5644");
    assert_eq!(client.command_text("edges"), "r 1 edges");
    assert_eq!(client.address(), "127.0.0.1:5644");
}

#[test]
fn collector_finishes_on_end_marker() {
    let mut c = ReplyCollector::new();
    assert!(!c.is_finished());
    c.accept(begin());
    c.accept(row("aa"));
    assert!(!c.is_finished());
    c.accept(end());
    assert!(c.is_finished());
    c.accept(row("late"));
    assert!(c.is_finished());
    assert_eq!(c.into_responses().len(), 4);
}

#[test]
fn n2n_info_not_implemented_is_answered_404() {
    let protocol = init_protocol("udp://127.0.0.1:5644").ok().unwrap();
    let client = N2nClient::new("127.0.0.1:5644");
    let error = object(vec![("_tag", text("1")), ("_type", text("error")), ("error", text("unknowncmd"))]);
    let e = match client.process_response(vec![error], "info") {
        Err(e) => e,
        Ok(_) => panic!("info must not be implemented"),
    };
    let reply = failure_reply(&protocol, &e.message(), "detail");
    assert_eq!(reply.status, HttpStatus::NotFound);
    assert_eq!(reply.body, "not implemented");
}
