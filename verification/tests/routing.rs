use n3n_mgmt_api::api::{
    api_method_name, choose_static_file, failure_reply, health_reply, init_protocol,
    invalid_method_reply, path_stays_inside, plan_request, ApiMethod, AppConfig, BackendCall, EndpointError,
    HttpStatus, ProtocolType, StaticFile,
};
use n3n_mgmt_api::n3n::{ApiResponse, JsonRpcResponse, N3nClient};
use n3n_mgmt_api::json::JsonValue;
use n3n_mgmt_api::text::{contains_text, starts_with, trim_leading, trim_trailing};

#[test]
fn endpoints_select_the_protocol() {
    match init_protocol("unix:///run/n3n/edge/mgmt") {
        Ok(ProtocolType::N3n(c)) => {
            assert_eq!(c.api_endpoint(), "unix:///run/n3n/edge/mgmt");
            assert_eq!(c.unix_socket_path(), Some("/run/n3n/edge/mgmt"));
            assert_eq!(c.request_url(), "http://x/v1");
        }
        _ => panic!("unix endpoint is n3n"),
    }
    match init_protocol("http://localhost:7777/") {
        Ok(ProtocolType::N3n(c)) => {
            assert_eq!(c.unix_socket_path(), None);
            assert_eq!(c.request_url(), "http://localhost:7777/v1");
        }
        _ => panic!("http endpoint is n3n"),
    }
    assert!(matches!(init_protocol("https://h"), Ok(ProtocolType::N3n(_))));
    match init_protocol("udp://127.0.0.1:5644") {
        Ok(ProtocolType::N2n(c)) => assert_eq!(c.address(), "127.0.0.1:5644"),
        _ => panic!("udp endpoint is n2n"),
    }
    match init_protocol("udp://udp://h:1") {
        Ok(ProtocolType::N2n(c)) => assert_eq!(c.address(), "h:1"),
        _ => panic!("udp endpoint is n2n"),
    }
    assert!(matches!(init_protocol("tcp://h:1"), Err(EndpointError::Unsupported)));
    assert!(matches!(init_protocol(""), Err(EndpointError::Unsupported)));
    assert!(matches!(init_protocol("UDP://127.0.0.1:5644"), Err(EndpointError::Unsupported)));
    assert!(matches!(init_protocol("/run/n3n/edge/mgmt"), Err(EndpointError::Unsupported)));
    assert_eq!(EndpointError::Unsupported.message(), "Unsupported endpoint format");
}

#[test]
fn request_url_drops_trailing_slashes() {
    let c = N3nClient::new("http://127.0.0.1:5645///");
    assert_eq!(c.request_url(), "http://127.0.0.1:5645/v1");
    let r = c.request_for("get_edges");
    assert_eq!(r.jsonrpc(), "2.0");
    assert_eq!(r.method(), "get_edges");
    assert_eq!(r.id(), 1);
}

#[test]
fn api_response_keeps_result_only() {
    let resp = JsonRpcResponse::new(
        "2.0".to_string(),
        Some(JsonValue::Bool(true)),
        Some(JsonValue::Null),
        JsonValue::Number(serde_json::Number::from(1u64)),
    );
    let answer = ApiResponse::from_rpc_response(resp);
    assert!(matches!(answer.into_result(), Some(JsonValue::Bool(true))));
}

#[test]
fn path_segments_map_to_rpc_names() {
    assert_eq!(api_method_name("edges"), Some("get_edges".to_string()));
    assert_eq!(api_method_name("packetstats"), Some("get_packetstats".to_string()));
    assert_eq!(api_method_name("bogus"), None);
    assert_eq!(api_method_name("get_edges"), None);
    let all = [
        ApiMethod::Edges,
        ApiMethod::Supernodes,
        ApiMethod::Info,
        ApiMethod::PacketStats,
        ApiMethod::Timestamps,
        ApiMethod::Communities,
    ];
    for m in all {
        assert_eq!(ApiMethod::from_segment(m.segment()), Some(m));
        assert_eq!(ApiMethod::from_rpc_name(&m.rpc_name()), Some(m));
    }
}

#[test]
fn requests_are_planned_per_protocol() {
    let n3n = init_protocol("http://h").ok().unwrap();
    let n2n = init_protocol("udp://h:1").ok().unwrap();
    match plan_request(&n3n, "get_info") {
        Some(BackendCall::N3nRequest(m)) => assert_eq!(m, "get_info"),
        _ => panic!("n3n forwards the method"),
    }
    match plan_request(&n2n, "get_timestamps") {
        Some(BackendCall::N2nCommand(c)) => assert_eq!(c, "timestamps"),
        _ => panic!("n2n runs the command"),
    }
    assert!(plan_request(&n2n, "get_bogus").is_none());
    assert!(plan_request(&n3n, "edges").is_none());
}

#[test]
fn failures_become_replies() {
    let n3n = init_protocol("http://h").ok().unwrap();
    let n2n = init_protocol("udp://h:1").ok().unwrap();
    let r = failure_reply(&n2n, "not implemented", "Custom { kind: NotFound, error: \"not implemented\" }");
    assert_eq!(r.status, HttpStatus::NotFound);
    assert_eq!(r.body, "not implemented");
    let r = failure_reply(&n2n, "Invalid cmd", "X");
    assert_eq!(r.status, HttpStatus::InternalServerError);
    assert_eq!(r.body, "N2N request failed: X");
    let r = failure_reply(&n3n, "not implemented", "Y");
    assert_eq!(r.status, HttpStatus::InternalServerError);
    assert_eq!(r.body, "N3N request failed: Y");
    let r = invalid_method_reply();
    assert_eq!(r.status, HttpStatus::BadRequest);
    assert_eq!(r.body, "Invalid method");
    let r = health_reply();
    assert_eq!(r.status, HttpStatus::Success);
    assert_eq!(r.body, "ok");
}

#[test]
fn static_files_fall_back_to_the_app() {
    assert_eq!(choose_static_file("docs", true, true, true), StaticFile::DirectoryIndex);
    assert_eq!(choose_static_file("docs", true, false, true), StaticFile::AppIndex);
    assert_eq!(choose_static_file("app.js", false, false, true), StaticFile::Requested);
    assert_eq!(choose_static_file("route/x", false, false, false), StaticFile::AppIndex);
    assert_eq!(choose_static_file("../secret", false, false, true), StaticFile::AppIndex);
    assert_eq!(choose_static_file("a/../b", false, false, true), StaticFile::Requested);
    assert_eq!(choose_static_file("a/../docs", true, true, true), StaticFile::DirectoryIndex);
    assert_eq!(choose_static_file("/etc/passwd", false, false, true), StaticFile::AppIndex);
}

#[test]
fn requested_paths_stay_inside_the_directory() {
    assert!(path_stays_inside(""));
    assert!(path_stays_inside("index.html"));
    assert!(path_stays_inside("assets/app.js"));
    assert!(path_stays_inside("a/..b/c"));
    assert!(path_stays_inside("./x"));
    assert!(!path_stays_inside(".."));
    assert!(!path_stays_inside("a/../../b"));
    assert!(path_stays_inside("a/.."));
    assert!(path_stays_inside("a/../b"));
    assert!(path_stays_inside("a/./b/../../c"));
    assert!(!path_stays_inside("./../x"));
    assert!(!path_stays_inside("a//../.."));
    assert!(!path_stays_inside("/abs"));
}

#[test]
fn text_helpers() {
    assert!(starts_with("udp://x", "udp://"));
    assert!(!starts_with("ud", "udp://"));
    assert_eq!(trim_leading("aaab", "a"), "b");
    assert_eq!(trim_leading("abc", ""), "abc");
    assert_eq!(trim_trailing("x//", '/'), "x");
    assert_eq!(trim_trailing("///", '/'), "");
    assert!(contains_text("an error: not implemented", "not implemented"));
    assert!(!contains_text("not implemente", "not implemented"));
    assert!(contains_text("abc", ""));
}

#[test]
fn app_config_holds_settings() {
    let cfg = AppConfig { api_endpoint: "udp://h:1".to_string(), host: "0.0.0.0".to_string(), port: 8376 };
    let copy = cfg.clone();
    assert_eq!(copy.port, 8376);
    assert_eq!(copy.host, "0.0.0.0");
}
