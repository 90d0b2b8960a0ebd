use codex_switch::json::{parse_json, print_json, Json};
use codex_switch::responses_input::{
    is_content_array_too_long_error, sanitize_input_content_arrays, ProxyError,
};
use serde_json::Value;

fn json(text: &str) -> Json {
    parse_json(text).expect("JSON text")
}

fn value(json: &Json) -> Value {
    serde_json::from_str(&print_json(json)).expect("printed JSON")
}

fn val(text: &str) -> Value {
    serde_json::from_str(text).expect("JSON text")
}

fn upstream_error(status: u16, message: &str) -> ProxyError {
    let mut error = Json::object();
    error.insert("message", Json::string(message));
    let mut body = Json::object();
    body.insert("error", error);
    ProxyError::UpstreamError {
        status,
        body: Some(print_json(&body)),
    }
}

#[test]
fn matches_exact_field_error_text() {
    let error = upstream_error(
        400,
        "Invalid 'input[5].content': array too long. Expected an array with maximum length 0, but got an array with length 1 instead.",
    );
    assert!(is_content_array_too_long_error(&error));
}

#[test]
fn matches_array_above_max_length_shape() {
    let error = upstream_error(
        400,
        "[ArrayParam] [input[5].content] [array_above_max_length] Invalid 'input[5].content': array too long. Expected an array with maximum length 0, but got an array with length 1 instead.",
    );
    assert!(is_content_array_too_long_error(&error));
}

#[test]
fn ignores_unrelated_upstream_errors() {
    for (status, message) in [
        (400, "Invalid 'input[0].content': string too long"),
        (400, "maximum context length exceeded"),
        (500, "Invalid 'input[5].content': array too long"),
        (401, "Invalid 'input[5].content': array too long"),
    ] {
        assert!(!is_content_array_too_long_error(&upstream_error(
            status, message
        )));
    }
}

#[test]
fn normalizes_reasoning_and_function_call_content() {
    let mut body = json(r#"{
        "input": [
            {"type": "reasoning", "id": "r1", "content": [{"type": "reasoning_text", "text": "think"}]},
            {"type": "function_call", "call_id": "c1", "name": "f", "arguments": "{}", "content": [{"type": "x"}]},
            {"type": "function_call_output", "call_id": "c1", "output": "ok", "content": [{"type": "y"}]}
        ]
    }"#);
    assert_eq!(sanitize_input_content_arrays(&mut body), 3);
    let body = value(&body);
    let input = body["input"].as_array().unwrap();
    assert_eq!(input[0]["content"], val("[]"));
    assert_eq!(input[1]["content"], val("[]"));
    assert_eq!(input[2]["content"], val("[]"));
}

#[test]
fn leaves_messages_and_clean_items_untouched() {
    let mut body = json(r#"{
        "input": [
            {"type": "message", "role": "user", "content": [{"type": "input_text", "text": "hi"}]},
            {"type": "reasoning", "id": "r2", "content": []},
            {"type": "reasoning", "id": "r3", "content": null},
            {"type": "function_call", "call_id": "c2", "name": "f", "arguments": "{}"}
        ]
    }"#);
    let before = value(&body);
    assert_eq!(sanitize_input_content_arrays(&mut body), 0);
    assert_eq!(value(&body), before);
}

#[test]
fn noop_without_input_array() {
    let mut body = json(r#"{ "model": "gpt-5.6-sol" }"#);
    assert_eq!(sanitize_input_content_arrays(&mut body), 0);
    assert_eq!(value(&body), val(r#"{ "model": "gpt-5.6-sol" }"#));
}

#[test]
fn idempotent_second_pass() {
    let mut body = json(r#"{
        "input": [
            {"type": "reasoning", "id": "r1", "content": [{"type": "reasoning_text", "text": "think"}]}
        ]
    }"#);
    assert_eq!(sanitize_input_content_arrays(&mut body), 1);
    assert_eq!(sanitize_input_content_arrays(&mut body), 0);
}

#[test]
fn error_texts_that_are_no_json_are_read_as_they_are() {
    let plain = |body: Option<&str>| ProxyError::UpstreamError {
        status: 400,
        body: body.map(str::to_string),
    };
    assert!(is_content_array_too_long_error(&plain(Some(
        "Invalid 'input[5].content': array too long. Expected an array with maximum length 0"
    ))));
    assert!(!is_content_array_too_long_error(&plain(None)));
    assert!(!is_content_array_too_long_error(&ProxyError::Other));
}
