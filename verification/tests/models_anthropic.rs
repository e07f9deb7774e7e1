//! The Anthropic Messages adapter.

use pactrail::json::{Json, JsonMap};
use pactrail::models::anthropic::{
    anthropic_finish_reason, parse_response, request_body, AnthropicConfig, AnthropicDriver,
    AnthropicStream, AnthropicStreamAccumulator,
};
use pactrail::models::driver::ModelError;
use pactrail::models::sse::SseEvent;
use pactrail::models::types::{
    ConversationItem, FinishReason, Message, ModelCapabilities, ModelRequest, ModelStreamEvent,
    Temperature, ToolCall, ToolResult,
};
use pactrail::tools::builtin::builtin_registry;

fn json(text: &str) -> Json {
    Json::parse(text).unwrap_or_else(|error| unreachable!("fixture JSON: {error}"))
}

fn at(value: &Json, path: &str) -> Json {
    path.split('.').fold(value.clone(), |found, step| match step.parse::<usize>() {
        Ok(index) => match found.as_array().and_then(|items| items.get(index)) {
            Some(item) => item.clone(),
            None => Json::Null,
        },
        Err(_) => found.get(step).cloned().unwrap_or(Json::Null),
    })
}

fn text_at(value: &Json, path: &str) -> String {
    at(value, path).as_str().unwrap_or("<none>").to_owned()
}

fn config() -> AnthropicConfig {
    AnthropicConfig {
        name: "anthropic".to_owned(),
        base_url: "https://api.anthropic.com".to_owned(),
        model: "messages-test".to_owned(),
        has_api_key: true,
        timeout_ns: 1_000_000_000,
        capabilities: ModelCapabilities {
            parallel_tools: true,
            max_output_tokens: 1_024,
            ..ModelCapabilities::default()
        },
        stream: true,
    }
}

fn event(kind: &str, value: &str) -> SseEvent {
    SseEvent {
        event: Some(kind.to_owned()),
        data: json(value).to_text(),
    }
}

fn zero() -> Temperature {
    match json("0.0") {
        Json::Number(number) => Temperature::Value(number),
        other => unreachable!("number: {other:?}"),
    }
}

#[test]
fn maps_system_tools_and_parallel_results_to_native_blocks() {
    let tools = builtin_registry()
        .unwrap_or_else(|error| unreachable!("registry: {}", error.message()))
        .descriptors();
    let request = ModelRequest {
        conversation: vec![
            ConversationItem::Message(Message::system("policy")),
            ConversationItem::Message(Message::system("context")),
            ConversationItem::Message(Message::user("inspect")),
            ConversationItem::AssistantToolCalls {
                text: String::new(),
                calls: vec![ToolCall {
                    id: "call-1".to_owned(),
                    name: "read_file".to_owned(),
                    arguments: json(r#"{"path": "src/lib.rs"}"#),
                    extensions: JsonMap::new(),
                }],
            },
            ConversationItem::ToolResult(ToolResult {
                call_id: "call-1".to_owned(),
                name: "read_file".to_owned(),
                content: json(r#"{"text": "source"}"#),
                is_error: false,
            }),
        ],
        tools,
        max_output_tokens: 512,
        temperature: zero(),
        phase: None,
        route: None,
    };
    let body = request_body(&config(), &request, true)
        .unwrap_or_else(|error| unreachable!("native request: {}", error.message()));
    assert_eq!(text_at(&body, "system"), "policy\n\ncontext");
    assert_eq!(at(&body, "stream").as_bool(), Some(true));
    assert_eq!(text_at(&body, "messages.1.content.0.type"), "tool_use");
    assert_eq!(text_at(&body, "messages.2.content.0.type"), "tool_result");
    assert_eq!(
        at(&body, "tool_choice.disable_parallel_tool_use").as_bool(),
        Some(false)
    );
}

#[test]
fn parses_buffered_native_tool_response_and_cache_usage() {
    let response = parse_response(
        &json(
            r#"{
                "id": "msg-1",
                "type": "message",
                "model": "messages-test",
                "content": [
                    {"type": "text", "text": "checking"},
                    {"type": "tool_use", "id": "call-1", "name": "read_file", "input": {"path": "src/lib.rs"}}
                ],
                "stop_reason": "tool_use",
                "usage": {"input_tokens": 20, "output_tokens": 8, "cache_read_input_tokens": 5}
            }"#,
        ),
        Some("request-1".to_owned()),
    )
    .unwrap_or_else(|error| unreachable!("native response: {}", error.message()));
    assert_eq!(response.text, "checking");
    assert_eq!(response.tool_calls[0].name, "read_file");
    assert_eq!(response.finish_reason, FinishReason::ToolCalls);
    assert_eq!(response.usage.cached_input_tokens, 5);
}

#[test]
fn assembles_partial_json_only_after_the_tool_block_stops() {
    let mut log = Vec::new();
    let mut accumulator = AnthropicStreamAccumulator::new();
    let events = [
        event(
            "message_start",
            r#"{"type": "message_start", "message": {"id": "msg-1", "usage": {"input_tokens": 10, "output_tokens": 0}}}"#,
        ),
        event(
            "content_block_start",
            r#"{"type": "content_block_start", "index": 0, "content_block": {"type": "tool_use", "id": "call-1", "name": "read_file", "input": {}}}"#,
        ),
        event(
            "content_block_delta",
            r#"{"type": "content_block_delta", "index": 0, "delta": {"type": "input_json_delta", "partial_json": "{\"path\":\"src/"}}"#,
        ),
        event(
            "content_block_delta",
            r#"{"type": "content_block_delta", "index": 0, "delta": {"type": "input_json_delta", "partial_json": "lib.rs\"}"}}"#,
        ),
        event("content_block_stop", r#"{"type": "content_block_stop", "index": 0}"#),
        event(
            "message_delta",
            r#"{"type": "message_delta", "delta": {"stop_reason": "tool_use"}, "usage": {"output_tokens": 6}}"#,
        ),
        event("message_stop", r#"{"type": "message_stop"}"#),
    ];
    for item in events {
        accumulator
            .apply(&item, &mut log)
            .unwrap_or_else(|error| unreachable!("valid event: {}", error.message()));
    }
    let response = accumulator
        .finish(Some("request-1".to_owned()), 9)
        .unwrap_or_else(|error| unreachable!("complete stream: {}", error.message()));
    assert_eq!(text_at(&response.tool_calls[0].arguments, "path"), "src/lib.rs");
    assert_eq!(response.usage.total(), 16);
    assert!(log.iter().any(|event| matches!(
        event,
        ModelStreamEvent::ToolArgumentsDelta { bytes, .. } if *bytes > 0
    )));
}

#[test]
fn rejects_named_event_disagreement_and_unfinished_blocks() {
    let mut log = Vec::new();
    let mut accumulator = AnthropicStreamAccumulator::new();
    assert!(matches!(
        accumulator.apply(&event("ping", r#"{"type": "message_stop"}"#), &mut log),
        Err(ModelError::MalformedResponse(message)) if message.contains("disagrees")
    ));

    let mut incomplete = AnthropicStreamAccumulator::new();
    for item in [
        event(
            "message_start",
            r#"{"type": "message_start", "message": {"id": "msg-1", "usage": {"input_tokens": 1, "output_tokens": 0}}}"#,
        ),
        event(
            "content_block_start",
            r#"{"type": "content_block_start", "index": 0, "content_block": {"type": "text", "text": ""}}"#,
        ),
        event(
            "message_delta",
            r#"{"type": "message_delta", "delta": {"stop_reason": "end_turn"}, "usage": {"output_tokens": 1}}"#,
        ),
        event("message_stop", r#"{"type": "message_stop"}"#),
    ] {
        incomplete
            .apply(&item, &mut log)
            .unwrap_or_else(|error| unreachable!("valid event: {}", error.message()));
    }
    assert!(matches!(
        incomplete.finish(None, 0),
        Err(ModelError::MalformedResponse(message)) if message.contains("before a content block stopped")
    ));
}

#[test]
fn stop_reasons_are_normalized() {
    assert_eq!(anthropic_finish_reason(Some("end_turn")), FinishReason::Complete);
    assert_eq!(anthropic_finish_reason(Some("tool_use")), FinishReason::ToolCalls);
    assert_eq!(anthropic_finish_reason(Some("max_tokens")), FinishReason::Length);
}

#[test]
fn anthropic_streams_show_the_text_of_their_response() {
    let stream = concat_events(&[
        (
            "message_start",
            r#"{"type": "message_start", "message": {"id": "msg-1", "usage": {"input_tokens": 3, "output_tokens": 0}}}"#,
        ),
        (
            "content_block_start",
            r#"{"type": "content_block_start", "index": 0, "content_block": {"type": "text", "text": ""}}"#,
        ),
        (
            "content_block_delta",
            r#"{"type": "content_block_delta", "index": 0, "delta": {"type": "text_delta", "text": "hel"}}"#,
        ),
        (
            "content_block_delta",
            r#"{"type": "content_block_delta", "index": 0, "delta": {"type": "text_delta", "text": "lo"}}"#,
        ),
        ("content_block_stop", r#"{"type": "content_block_stop", "index": 0}"#),
        (
            "message_delta",
            r#"{"type": "message_delta", "delta": {"stop_reason": "end_turn"}, "usage": {"output_tokens": 2}}"#,
        ),
        ("message_stop", r#"{"type": "message_stop"}"#),
    ]);
    let mut log = Vec::new();
    let mut session = AnthropicStream::new(Some("request-1".to_owned()));
    for byte in stream.as_bytes() {
        session
            .push(std::slice::from_ref(byte), 4, &mut log)
            .unwrap_or_else(|error| unreachable!("chunk: {}", error.message()));
    }
    let response = session
        .finish()
        .unwrap_or_else(|error| unreachable!("stream: {}", error.message()));
    let shown: String = log
        .iter()
        .filter_map(|event| match event {
            ModelStreamEvent::TextDelta { text } => Some(text.as_str()),
            _ => None,
        })
        .collect();
    assert_eq!(shown, "hello");
    assert_eq!(response.text, "hello");
    assert_eq!(response.usage.total(), 5);
    assert_eq!(response.provider_request_id.as_deref(), Some("request-1"));
}

fn concat_events(events: &[(&str, &str)]) -> String {
    events
        .iter()
        .map(|(name, data)| format!("event: {name}\ndata: {data}\n\n"))
        .collect()
}

#[test]
fn endpoints_and_keys_are_checked() {
    let driver = AnthropicDriver::new(config())
        .unwrap_or_else(|error| unreachable!("driver: {}", error.message()));
    assert_eq!(driver.endpoint(), "https://api.anthropic.com/v1/messages");
    let mut plain = config();
    plain.base_url = "http://api.anthropic.com".to_owned();
    assert!(matches!(AnthropicDriver::new(plain), Err(ModelError::InvalidRequest(_))));
    let mut keyless = config();
    keyless.has_api_key = false;
    assert!(matches!(AnthropicDriver::new(keyless), Err(ModelError::InvalidRequest(_))));
}
