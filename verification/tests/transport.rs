use grep_cli::transport::{
    retained_session_id,
    check_body_size, check_reply_head, check_response, check_session_id, is_event_stream,
    is_success_status, parse_sse, read_reply_body, tool_texts, validate_initialize_result, Json,
    JsonValue, ReplyBody, PROTOCOL_VERSION,
};

/// The library's form of a JSON text, as the client builds it from `serde_json::Value`.
fn json(text: &str) -> Json {
    convert(serde_json::from_str::<serde_json::Value>(text).unwrap())
}

fn convert(v: serde_json::Value) -> Json {
    let text = serde_json::to_string(&v).unwrap();
    let value = match v {
        serde_json::Value::Null => JsonValue::Null,
        serde_json::Value::Bool(b) => JsonValue::Bool(b),
        serde_json::Value::Number(n) => JsonValue::Number(n.as_u64()),
        serde_json::Value::String(s) => JsonValue::Str(s),
        serde_json::Value::Array(items) => JsonValue::Array(items.into_iter().map(convert).collect()),
        serde_json::Value::Object(map) => {
            JsonValue::Object(map.into_iter().map(|(k, v)| (k, convert(v))).collect())
        }
    };
    Json { value, text }
}

#[test]
fn decodes_sse_data_lines() {
    let values =
        parse_sse("event: message\ndata: {\"jsonrpc\":\"2.0\",\ndata: \"id\":1,\"result\":{}}\n\n")
            .unwrap();
    let first: serde_json::Value = serde_json::from_str(&values[0]).unwrap();
    assert_eq!(first["id"], 1);
}

#[test]
fn rejects_rpc_error() {
    assert!(check_response(
        vec![json(r#"{"jsonrpc":"2.0","id":2,"error":{"code":-1}}"#)],
        Some(2)
    )
    .unwrap_err()
    .contains("JSON-RPC error"));
}

#[test]
fn rejects_tool_error() {
    assert!(tool_texts(&json(r#"{"isError": true, "content": []}"#))
        .unwrap_err()
        .contains("search tool error"));
}

#[test]
fn rejects_wrong_id() {
    assert!(check_response(vec![json(r#"{"jsonrpc":"2.0","id":3,"result":{}}"#)], Some(2)).is_err());
}

#[test]
fn ignores_notifications_while_selecting_expected_response() {
    let result = check_response(
        vec![
            json(r#"{"jsonrpc":"2.0", "method":"notifications/progress", "params": {}}"#),
            json(r#"{"jsonrpc":"2.0", "id":2, "result":{"ok":true}}"#),
        ],
        Some(2),
    )
    .unwrap();
    assert_eq!(result.text, r#"{"ok":true}"#);
    assert!(matches!(result.value, JsonValue::Object(ref members) if members.len() == 1));
}

#[test]
fn rejects_server_requests_and_mismatched_responses() {
    let server_request = check_response(
        vec![json(r#"{"jsonrpc":"2.0", "id":2, "method":"ping", "params": {}}"#)],
        Some(2),
    )
    .unwrap_err();
    assert!(server_request.contains("unsupported server"));
    let mismatched = check_response(
        vec![
            json(r#"{"jsonrpc":"2.0", "method":"notifications/progress"}"#),
            json(r#"{"jsonrpc":"2.0", "id":3, "result":{}}"#),
        ],
        Some(2),
    )
    .unwrap_err();
    assert!(mismatched.contains("did not match"));
}

#[test]
fn validates_initialize_result_shape_and_protocol() {
    let valid = json(&format!(
        r#"{{"protocolVersion": "{PROTOCOL_VERSION}", "serverInfo": {{"name":"grep.app", "version":"1"}}, "capabilities": {{}}}}"#
    ));
    assert!(validate_initialize_result(&valid).is_ok());
    for invalid in [
        r#"{"protocolVersion":"2024-11-05", "serverInfo":{"name":"x", "version":"1"}, "capabilities":{}}"#.to_string(),
        format!(r#"{{"protocolVersion":"{PROTOCOL_VERSION}", "serverInfo":"x", "capabilities":{{}}}}"#),
        format!(r#"{{"protocolVersion":"{PROTOCOL_VERSION}", "serverInfo":{{"name":"", "version":"1"}}, "capabilities":{{}}}}"#),
        format!(r#"{{"protocolVersion":"{PROTOCOL_VERSION}", "serverInfo":{{"name":"x", "version":"1"}}, "capabilities":[]}}"#),
    ] {
        assert!(validate_initialize_result(&json(&invalid)).is_err());
    }
}

#[test]
fn rejects_non_boolean_tool_error_flag() {
    assert_eq!(
        tool_texts(&json(r#"{"isError": "false", "content": []}"#)).unwrap_err(),
        "tool result isError must be a boolean"
    );
}

#[test]
fn reports_rpc_error_details_sanitized() {
    assert_eq!(
        check_response(
            vec![json(r#"{"jsonrpc":"2.0","id":2,"error":{"code":-1,"message":"a\u001bb"}}"#)],
            Some(2)
        )
        .unwrap_err(),
        r#"MCP JSON-RPC error: {"code":-1,"message":"a\u001bb"}"#
    );
    assert_eq!(
        tool_texts(&json(r#"{"isError": true}"#)).unwrap_err(),
        "search tool error: no details"
    );
}

#[test]
fn checks_every_response_shape() {
    assert_eq!(
        check_response(vec![], None).unwrap_err(),
        "response id was not expected"
    );
    assert_eq!(
        check_response(vec![], Some(1)).unwrap_err(),
        "MCP response contained no response for request"
    );
    assert_eq!(
        check_response(vec![json("[]")], Some(1)).unwrap_err(),
        "MCP message must be a JSON object"
    );
    assert_eq!(
        check_response(vec![json(r#"{"jsonrpc":"1.0","id":1,"result":1}"#)], Some(1)).unwrap_err(),
        "invalid JSON-RPC version in response"
    );
    assert_eq!(
        check_response(vec![json(r#"{"jsonrpc":"2.0","method":""}"#)], Some(1)).unwrap_err(),
        "invalid JSON-RPC notification method"
    );
    assert_eq!(
        check_response(vec![json(r#"{"jsonrpc":"2.0","method":"m","result":1}"#)], Some(1)).unwrap_err(),
        "invalid JSON-RPC notification payload"
    );
    assert_eq!(
        check_response(vec![json(r#"{"jsonrpc":"2.0","id":1,"error":1,"result":1}"#)], Some(1)).unwrap_err(),
        "MCP response has both result and error"
    );
    assert_eq!(
        check_response(vec![json(r#"{"jsonrpc":"2.0","id":1}"#)], Some(1)).unwrap_err(),
        "MCP response has neither result nor error"
    );
    assert_eq!(
        check_response(
            vec![
                json(r#"{"jsonrpc":"2.0","id":1,"result":1}"#),
                json(r#"{"jsonrpc":"2.0","id":1,"result":2}"#)
            ],
            Some(1)
        )
        .unwrap_err(),
        "MCP response contained multiple results for one request"
    );
    assert_eq!(
        check_response(vec![json(r#"{"jsonrpc":"2.0"}"#)], Some(1)).unwrap_err(),
        "MCP message has neither method nor id"
    );
}

#[test]
fn extracts_tool_texts_in_order() {
    let texts = tool_texts(&json(
        r#"{"isError": false, "content": [{"type":"text","text":"a"},{"type":"text","text":"b"}]}"#,
    ))
    .unwrap();
    assert_eq!(texts, vec!["a".to_string(), "b".to_string()]);
    assert_eq!(
        tool_texts(&json(r#"{"content": [{"type":"image"}]}"#)).unwrap_err(),
        "tool result contains a non-text item"
    );
    assert_eq!(
        tool_texts(&json(r#"{"content": [{"type":"text"}]}"#)).unwrap_err(),
        "tool text item has no text"
    );
    assert_eq!(
        tool_texts(&json(r#"{"content": {}}"#)).unwrap_err(),
        "tool result has no content array"
    );
    let many = format!(r#"{{"content": [{}]}}"#, vec![r#"{"type":"text","text":"x"}"#; 201].join(","));
    assert_eq!(
        tool_texts(&json(&many)).unwrap_err(),
        "tool result has too many content items"
    );
}

#[test]
fn frames_sse_records() {
    assert_eq!(
        parse_sse("data: 1\r\n\r\ndata:2\rdata: 3\r\rdata: [DONE]\n\n").unwrap(),
        vec!["1".to_string(), "2\n3".to_string()]
    );
    assert_eq!(
        parse_sse("event: ping\n\n").unwrap_err(),
        "SSE response contained no JSON messages"
    );
}

#[test]
fn checks_http_limits() {
    assert!(is_event_stream("text/event-stream"));
    assert!(is_event_stream(" Text/Event-Stream ; charset=utf-8"));
    assert!(!is_event_stream("application/json"));
    assert!(is_success_status(200) && is_success_status(299));
    assert!(!is_success_status(300) && !is_success_status(199));
    assert!(check_body_size(2 * 1024 * 1024).is_ok());
    assert_eq!(
        check_body_size(2 * 1024 * 1024 + 1).unwrap_err(),
        "MCP response exceeds 2 MiB limit"
    );
    assert!(check_session_id(&"s".repeat(1024)).is_ok());
    assert_eq!(
        check_session_id(&"s".repeat(1025)).unwrap_err(),
        "server supplied an oversized MCP session id"
    );
}

#[test]
fn reads_reply_bodies() {
    assert!(matches!(read_reply_body(None, true, b""), Ok(ReplyBody::Ignored)));
    assert!(matches!(
        read_reply_body(Some(1), false, br#"{"id":1}"#),
        Ok(ReplyBody::Single(t)) if t == r#"{"id":1}"#
    ));
    assert!(matches!(
        read_reply_body(Some(1), true, b"data: 1\n\ndata: 2\n\n"),
        Ok(ReplyBody::Events(v)) if v == ["1", "2"]
    ));
    assert!(matches!(
        read_reply_body(Some(1), true, b"event: x\n\n"),
        Err(m) if m == "SSE response contained no JSON messages"
    ));
    assert!(matches!(
        read_reply_body(Some(1), false, &[0xff, 0xfe]),
        Err(m) if m == "MCP response is not UTF-8"
    ));
    let big = vec![b' '; 2 * 1024 * 1024 + 1];
    assert!(matches!(
        read_reply_body(None, false, &big),
        Err(m) if m == "MCP response exceeds 2 MiB limit"
    ));
}

#[test]
fn checks_reply_heads_in_order() {
    assert!(check_reply_head(Some("abc"), 200, "200 OK").is_ok());
    assert!(check_reply_head(None, 204, "204 No Content").is_ok());
    assert_eq!(
        check_reply_head(None, 404, "404 Not Found").unwrap_err(),
        "MCP server returned HTTP 404 Not Found"
    );
    assert_eq!(
        check_reply_head(Some(&"s".repeat(1025)), 500, "500 Internal Server Error").unwrap_err(),
        "server supplied an oversized MCP session id"
    );
}

#[test]
fn keeps_the_latest_acceptable_session_id() {
    assert_eq!(retained_session_id(None, Some("abc")), Some("abc".to_string()));
    assert_eq!(retained_session_id(Some("old".into()), None), Some("old".to_string()));
    assert_eq!(
        retained_session_id(Some("old".into()), Some(&"s".repeat(1025))),
        Some("old".to_string())
    );
    assert_eq!(retained_session_id(Some("old".into()), Some("new")), Some("new".to_string()));
}
