use codex_switch::json::{parse_json, print_json, Json};
use codex_switch::remote_compaction::{
    compaction_prompt, compaction_sse_events, convert_response_to_compaction,
    is_remote_compaction_request, response_summary_text, restored_compaction_context,
    CompactionEvent,
};
use serde_json::Value;

fn json(text: &str) -> Json {
    parse_json(text).expect("JSON text")
}

fn value(json: &Json) -> Value {
    serde_json::from_str(&print_json(json)).expect("printed JSON")
}

#[test]
fn recognizes_v2_trigger_and_collapses_three_outputs_to_one_compaction() {
    let request = json(
        r#"{
            "input": [
                {"type": "message", "role": "user", "content": "hello"},
                {"type": "compaction_trigger"}
            ]
        }"#,
    );
    assert!(is_remote_compaction_request(&request));

    let response = json(
        r#"{
            "id": "resp_1",
            "status": "completed",
            "output": [
                {"type": "reasoning", "summary": [{"type": "summary_text", "text": "reason"}]},
                {"type": "message", "role": "assistant", "content": [{"type": "output_text", "text": "summary"}]},
                {"type": "function_call", "name": "ignored", "arguments": "{}"}
            ]
        }"#,
    );
    let compacted = convert_response_to_compaction(response);
    let output = compacted.get_array("output").unwrap();
    assert_eq!(output.len(), 1);
    assert_eq!(output[0].get_str("type"), Some("compaction"));
    assert!(restored_compaction_context(&output[0])
        .unwrap()
        .contains("summary"));

    let events = compaction_sse_events(&compacted);
    let done_count = events
        .iter()
        .filter(|event| matches!(event, CompactionEvent::OutputItemDone { .. }))
        .count();
    assert_eq!(done_count, 1);
}

#[test]
fn a_summary_is_restored_exactly() {
    let response = json(
        r#"{ "id": "r", "status": "completed", "output": [
            {"type": "message", "content": [
                {"type": "output_text", "text": "first 中"},
                {"type": "output_text", "text": "second"}
            ]}
        ] }"#,
    );
    assert_eq!(response_summary_text(&response), "first \u{4e2d}\n\nsecond");
    let compacted = convert_response_to_compaction(response);
    let item = &compacted.get_array("output").unwrap()[0];
    assert_eq!(
        restored_compaction_context(item).unwrap(),
        "The following is a compacted summary of the earlier conversation. Treat it as authoritative context:\n\nfirst \u{4e2d}\n\nsecond"
    );
    assert!(item
        .get_str("encrypted_content")
        .unwrap()
        .starts_with("ccswitch-remote-compaction-v1:"));
    assert!(!item.get_str("encrypted_content").unwrap().contains("second"));
}

#[test]
fn foreign_items_are_not_restored() {
    for text in [
        r#"{ "type": "compaction", "encrypted_content": "YQ==" }"#,
        r#"{ "type": "compaction", "encrypted_content": "ccswitch-remote-compaction-v1:***" }"#,
        r#"{ "type": "compaction" }"#,
    ] {
        assert!(restored_compaction_context(&json(text)).is_none(), "{text}");
    }
    assert!(!is_remote_compaction_request(&json(r#"{ "input": "hello" }"#)));
    assert!(!is_remote_compaction_request(&json(
        r#"{ "input": [{ "type": "message" }] }"#
    )));
}

#[test]
fn a_response_without_text_gets_a_fixed_summary() {
    let response = json(r#"{ "output": [] }"#);
    assert_eq!(
        response_summary_text(&response),
        "No textual summary was returned by the upstream model."
    );
}

#[test]
fn the_events_tell_of_the_response_from_start_to_end() {
    let compacted = convert_response_to_compaction(json(
        r#"{ "id": "r", "status": "completed", "output": [
            {"type": "message", "content": [{"type": "output_text", "text": "s"}]}
        ] }"#,
    ));
    let events = compaction_sse_events(&compacted);
    assert_eq!(events.len(), 5);
    assert!(matches!(&events[0], CompactionEvent::ResponseCreated(_)));
    assert!(matches!(&events[1], CompactionEvent::ResponseInProgress(_)));
    assert!(matches!(
        &events[2],
        CompactionEvent::OutputItemAdded { index: 0, .. }
    ));
    assert!(matches!(
        &events[3],
        CompactionEvent::OutputItemDone { index: 0, .. }
    ));
    match &events[4] {
        CompactionEvent::ResponseCompleted(response) => {
            assert_eq!(value(response), value(&compacted))
        }
        _ => panic!("the last event completes the response"),
    }
    assert!(compaction_prompt().starts_with("Create a concise but complete handoff summary"));
}
