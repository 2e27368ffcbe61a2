use grep_cli::args::{parse, Options, ParseOutcome};
use grep_cli::session::{
    request_message, RequestParams, CLIENT_NAME,
    next_action, search_arguments, start_session, ArgValue, McpRequest, SessionAction,
    SessionPhase, INITIALIZE_ID, SEARCH_CALL_ID,
};
use grep_cli::transport::{Json, JsonValue};

fn reply_json(text: &str) -> Json {
    to_json(serde_json::from_str::<serde_json::Value>(text).unwrap())
}

fn to_json(v: serde_json::Value) -> Json {
    let text = serde_json::to_string(&v).unwrap();
    let value = match v {
        serde_json::Value::Null => JsonValue::Null,
        serde_json::Value::Bool(b) => JsonValue::Bool(b),
        serde_json::Value::Number(n) => JsonValue::Number(n.as_u64()),
        serde_json::Value::String(s) => JsonValue::Str(s),
        serde_json::Value::Array(items) => JsonValue::Array(items.into_iter().map(to_json).collect()),
        serde_json::Value::Object(map) => {
            JsonValue::Object(map.into_iter().map(|(k, v)| (k, to_json(v))).collect())
        }
    };
    Json { value, text }
}

fn options(list: &[&str]) -> Options {
    match parse(list.iter().map(|s| s.to_string()).collect()).unwrap() {
        ParseOutcome::Run(o) => o,
        other => panic!("not a run: {other:?}"),
    }
}

fn names(args: &[(String, ArgValue)]) -> Vec<&str> {
    args.iter().map(|(n, _)| n.as_str()).collect()
}

#[test]
fn a_session_starts_with_initialize() {
    let (phase, action) = start_session();
    assert_eq!(phase, SessionPhase::Initializing);
    match action {
        SessionAction::Send { request: McpRequest::Initialize, id } => {
            assert_eq!(id, Some(INITIALIZE_ID))
        }
        _ => panic!("expected the initialize request"),
    }
}

#[test]
fn runs_the_three_requests_in_order() {
    let o = options(&["needle", "--repo", "a/b", "--language", "Rust"]);
    let init = reply_json(
        r#"{"protocolVersion":"2025-06-18","serverInfo":{"name":"grep","version":"1"},"capabilities":{}}"#,
    );
    let (phase, action) = next_action(SessionPhase::Initializing, Ok(init), &o);
    assert_eq!(phase, SessionPhase::Notifying);
    assert!(matches!(
        action,
        SessionAction::Send { request: McpRequest::InitializedNotification, id: None }
    ));
    let null = Json { value: JsonValue::Null, text: "null".into() };
    let (phase, action) = next_action(SessionPhase::Notifying, Ok(null), &o);
    assert_eq!(phase, SessionPhase::Searching);
    match action {
        SessionAction::Send { request: McpRequest::SearchCall(args), id } => {
            assert_eq!(id, Some(SEARCH_CALL_ID));
            assert_eq!(
                names(&args),
                ["query", "matchCase", "matchWholeWords", "useRegexp", "repo", "language"]
            );
        }
        _ => panic!("expected the search call"),
    }
    let result = reply_json(r#"{"content":[{"type":"text","text":"one"},{"type":"text","text":"two"}]}"#);
    let (phase, action) = next_action(SessionPhase::Searching, Ok(result), &o);
    assert_eq!(phase, SessionPhase::Finished);
    match action {
        SessionAction::Finish(Ok(texts)) => assert_eq!(texts, ["one", "two"]),
        _ => panic!("expected the tool texts"),
    }
}

#[test]
fn a_failed_request_or_bad_initialize_ends_the_session() {
    let o = options(&["q"]);
    let (phase, action) = next_action(SessionPhase::Searching, Err("MCP request failed: x".into()), &o);
    assert_eq!(phase, SessionPhase::Finished);
    assert!(matches!(action, SessionAction::Finish(Err(m)) if m == "MCP request failed: x"));
    let old = reply_json(
        r#"{"protocolVersion":"2024-11-05","serverInfo":{"name":"grep","version":"1"},"capabilities":{}}"#,
    );
    let (phase, action) = next_action(SessionPhase::Initializing, Ok(old), &o);
    assert_eq!(phase, SessionPhase::Finished);
    assert!(matches!(
        action,
        SessionAction::Finish(Err(m)) if m == "MCP server protocolVersion must be exactly 2025-06-18"
    ));
}

#[test]
fn search_arguments_carry_only_given_filters() {
    let plain = search_arguments(&options(&["q"]));
    assert_eq!(names(&plain), ["query", "matchCase", "matchWholeWords", "useRegexp"]);
    let full = search_arguments(&options(&[
        "--match-case", "--use-regexp", "--path", "src", "--language", "Go", "--language", "C", "q",
    ]));
    assert_eq!(
        names(&full),
        ["query", "matchCase", "matchWholeWords", "useRegexp", "path", "language"]
    );
    assert!(matches!(&full[0].1, ArgValue::Text(s) if s == "q"));
    assert!(matches!(full[1].1, ArgValue::Flag(true)));
    assert!(matches!(full[2].1, ArgValue::Flag(false)));
    assert!(matches!(full[3].1, ArgValue::Flag(true)));
    assert!(matches!(&full[4].1, ArgValue::Text(s) if s == "src"));
    assert!(matches!(&full[5].1, ArgValue::Texts(l) if l == &["Go", "C"]));
}

#[test]
fn builds_each_request_message() {
    let init = request_message(McpRequest::Initialize, Some(INITIALIZE_ID), "9.9.9");
    assert_eq!((init.jsonrpc.as_str(), init.id, init.method.as_str()), ("2.0", Some(1), "initialize"));
    match init.params {
        RequestParams::Initialize { protocol_version, client_name, client_version } => {
            assert_eq!(protocol_version, "2025-06-18");
            assert_eq!(client_name, CLIENT_NAME);
            assert_eq!(client_version, "9.9.9");
        }
        _ => panic!("expected initialize params"),
    }
    let note = request_message(McpRequest::InitializedNotification, None, "1");
    assert_eq!((note.id, note.method.as_str()), (None, "notifications/initialized"));
    assert!(matches!(note.params, RequestParams::Empty));
    let args = search_arguments(&options(&["q"]));
    let call = request_message(McpRequest::SearchCall(args), Some(SEARCH_CALL_ID), "1");
    assert_eq!((call.id, call.method.as_str()), (Some(2), "tools/call"));
    match call.params {
        RequestParams::ToolCall { name, arguments } => {
            assert_eq!(name, "searchGitHub");
            assert_eq!(names(&arguments), ["query", "matchCase", "matchWholeWords", "useRegexp"]);
        }
        _ => panic!("expected tool call params"),
    }
}
