use webtools::config::FetchConfig;
use webtools::mcp::{
    err_reply, fetch_reply, initialize_result, negotiate, ok_reply, parse_tool_call, read_frame,
    render_fetch, route, tool_failure, tool_text, tools_list, Frame, Route, ToolCall,
    DEFAULT_PROTOCOL_VERSION,
};
use webtools::page::convert_html;
use webtools::types::{ContentStatus, ContentType, FetchOptions};

#[test]
fn a_known_protocol_version_is_echoed_back() {
    assert_eq!(negotiate(Some("2025-06-18")), "2025-06-18");
    assert_eq!(negotiate(Some("2024-11-05")), "2024-11-05");
}

#[test]
fn an_unknown_protocol_version_falls_back_to_the_default() {
    assert_eq!(negotiate(Some("1999-01-01")), DEFAULT_PROTOCOL_VERSION);
    assert_eq!(negotiate(None), DEFAULT_PROTOCOL_VERSION);
}

#[test]
fn failed_calls_are_marked_as_errors() {
    let v: serde_json::Value = serde_json::from_str(&tool_failure("blocked")).unwrap();
    assert_eq!(v["isError"], true);
    let v: serde_json::Value = serde_json::from_str(&tool_text("fine")).unwrap();
    assert!(v.get("isError").is_none());
    assert_eq!(v["content"][0]["text"], "fine");
}

#[test]
fn notifications_blank_and_malformed_frames_get_no_reply() {
    assert!(matches!(read_frame("   "), Frame::Skip));
    assert!(matches!(read_frame("{not json"), Frame::Skip));
    assert!(matches!(read_frame(r#"{"jsonrpc":"2.0","method":"notifications/initialized"}"#), Frame::Skip));
    match read_frame(r#"  {"jsonrpc":"2.0","id":7,"method":"ping"}  "#) {
        Frame::Request { id, method, .. } => {
            assert_eq!(id, "7");
            assert_eq!(method, "ping");
        }
        Frame::Skip => panic!("a request was skipped"),
    }
}

#[test]
fn methods_are_routed_and_replies_are_json_rpc() {
    assert!(matches!(route("tools/call"), Route::ToolsCall));
    assert!(matches!(route("nope"), Route::NotFound));
    let ok: serde_json::Value = serde_json::from_str(&ok_reply("\"a\"", "{}")).unwrap();
    assert_eq!(ok["jsonrpc"], "2.0");
    assert_eq!(ok["id"], "a");
    let err: serde_json::Value = serde_json::from_str(&err_reply("3", -32601, "method not found")).unwrap();
    assert_eq!(err["error"]["code"], -32601);
    assert_eq!(err["error"]["message"], "method not found");
}

#[test]
fn initialize_answers_the_clients_version_and_tools_are_listed() {
    let msg = r#"{"id":1,"method":"initialize","params":{"protocolVersion":"2025-03-26"}}"#;
    let v: serde_json::Value = serde_json::from_str(&initialize_result(msg, "0.3.0")).unwrap();
    assert_eq!(v["protocolVersion"], "2025-03-26");
    assert_eq!(v["serverInfo"]["name"], "webtools");
    assert_eq!(v["serverInfo"]["version"], "0.3.0");
    let tools: serde_json::Value = serde_json::from_str(tools_list()).unwrap();
    let names: Vec<&str> = tools["tools"].as_array().unwrap().iter().map(|t| t["name"].as_str().unwrap()).collect();
    assert_eq!(names, vec!["fetch", "search"]);
}

fn cfg() -> FetchConfig {
    FetchConfig {
        timeout_secs: Some(20),
        max_tokens: None,
        ca_certs: vec!["/etc/ssl/corp.pem".to_string()],
        cache_ttl_secs: None,
    }
}

#[test]
fn a_fetch_call_takes_its_arguments_then_the_settings_then_the_defaults() {
    let msg = r#"{"id":1,"method":"tools/call","params":{"name":"fetch","arguments":{"url":"https://x.test","output":"markdown","offset":12,"json":true}}}"#;
    match parse_tool_call(msg, &cfg()) {
        ToolCall::Fetch { options, as_json } => {
            assert!(as_json);
            assert_eq!(options.url, "https://x.test");
            assert_eq!(options.content_type, ContentType::Markdown);
            assert_eq!(options.max_tokens, Some(6000));
            assert_eq!(options.offset, 12);
            assert_eq!(options.timeout_secs, 20);
            assert_eq!(options.tls.ca_certs, vec!["/etc/ssl/corp.pem".to_string()]);
        }
        _ => panic!("expected a fetch"),
    }
}

#[test]
fn a_call_without_its_required_argument_or_to_an_unknown_tool_is_refused() {
    let msg = r#"{"id":1,"params":{"name":"search","arguments":{}}}"#;
    assert!(matches!(parse_tool_call(msg, &cfg()), ToolCall::Missing("missing required argument: query")));
    let msg = r#"{"id":1,"params":{"name":"shell"}}"#;
    match parse_tool_call(msg, &cfg()) {
        ToolCall::Unknown(name) => assert_eq!(name, "shell"),
        _ => panic!("expected an unknown tool"),
    }
}

#[test]
fn a_search_call_reads_its_switches() {
    let msg = r#"{"id":1,"params":{"name":"search","arguments":{"query":"rust","max_results":3,"safe_search":"off"}}}"#;
    match parse_tool_call(msg, &cfg()) {
        ToolCall::Search { query, max_results, safe_search, timeout_secs, as_json } => {
            assert_eq!(query, "rust");
            assert_eq!(max_results, 3);
            assert_eq!(safe_search, Some(false));
            assert_eq!(timeout_secs, 10);
            assert!(!as_json);
        }
        _ => panic!("expected a search"),
    }
}

#[test]
fn a_rendered_fetch_has_a_citation_header_and_a_continuation() {
    let body = format!("<html><head><title>Doc</title></head><body><article><p>{}</p></article></body></html>", "word ".repeat(300));
    let mut options = FetchOptions::default();
    options.max_tokens = Some(40);
    let result = convert_html(&body, "https://x.test/doc", &options);
    let text = render_fetch(&result);
    assert!(text.starts_with("Doc\nhttps://x.test/doc\n\n"), "{text}");
    assert!(text.contains("; continue with offset="), "{text}");
    let reply: serde_json::Value = serde_json::from_str(&fetch_reply(ContentStatus::NeedsJs, "x")).unwrap();
    assert_eq!(reply["isError"], true);
    assert!(reply["content"][0]["text"].as_str().unwrap().starts_with("x\n\n[no text content"));
}
