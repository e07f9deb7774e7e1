//! The OpenAI Responses adapter.

use pactrail::json::Json;
use pactrail::models::driver::ModelError;
use pactrail::models::openai_responses::{
    accept_reply, parse_response, request_body, OpenAiResponsesConfig, OpenAiResponsesDriver,
};
use pactrail::models::types::{
    ConversationItem, FinishReason, Message, ModelCapabilities, ModelRequest, Temperature,
    ToolResult,
};

fn json(text: &str) -> Json {
    Json::parse(text).unwrap_or_else(|error| unreachable!("fixture JSON: {error}"))
}

fn at(value: &Json, path: &str) -> Json {
    path.split('.').fold(value.clone(), |found, step| match step.parse::<usize>() {
        Ok(index) => match found.as_array().and_then(|items| items.get(index)) {
            Some(item) => item.clone(),
            None => Json::Null,
        },
        Err(_) => found.get(step).cloned().unwrap_or(Json::Null),
    })
}

fn text_at(value: &Json, path: &str) -> String {
    at(value, path).as_str().unwrap_or("<none>").to_owned()
}

fn config() -> OpenAiResponsesConfig {
    OpenAiResponsesConfig {
        name: "openai-responses".to_owned(),
        base_url: "https://api.openai.com/v1".to_owned(),
        model: "test-model".to_owned(),
        has_api_key: true,
        timeout_ns: 30_000_000_000,
        capabilities: ModelCapabilities::default(),
    }
}

fn zero() -> Temperature {
    match json("0.0") {
        Json::Number(number) => Temperature::Value(number),
        other => unreachable!("number: {other:?}"),
    }
}

#[test]
fn stateless_request_replays_exact_reasoning_and_function_outputs() {
    let response = parse_response(
        &json(
            r#"{
                "object": "response", "id": "resp-1", "status": "completed",
                "output": [
                    {"type": "reasoning", "id": "reason-1", "encrypted_content": "sealed"},
                    {"type": "function_call", "call_id": "call-1", "name": "read_file", "arguments": "{\"path\":\"src/lib.rs\"}"}
                ],
                "usage": {"input_tokens": 20, "output_tokens": 5,
                    "input_tokens_details": {"cached_tokens": 4, "cache_write_tokens": 2}}
            }"#,
        ),
        None,
    )
    .unwrap_or_else(|error| unreachable!("response: {}", error.message()));
    assert_eq!(response.finish_reason, FinishReason::ToolCalls);
    assert_eq!(response.usage.cache_creation_input_tokens, 2);
    let conversation = vec![
        ConversationItem::Message(Message::user("Inspect source")),
        ConversationItem::AssistantToolCalls {
            text: response.text,
            calls: response.tool_calls,
        },
        ConversationItem::ToolResult(ToolResult {
            call_id: "call-1".to_owned(),
            name: "read_file".to_owned(),
            content: json(r#"{"content": "pub fn x() {}"}"#),
            is_error: false,
        }),
    ];
    let request = ModelRequest {
        conversation,
        tools: Vec::new(),
        max_output_tokens: 128,
        temperature: zero(),
        phase: None,
        route: None,
    };
    let body = request_body(&config(), &request)
        .unwrap_or_else(|error| unreachable!("request: {}", error.message()));
    assert_eq!(at(&body, "store").as_bool(), Some(false));
    assert_eq!(text_at(&body, "input.1.encrypted_content"), "sealed");
    assert_eq!(text_at(&body, "input.2.call_id"), "call-1");
    assert_eq!(text_at(&body, "input.3.type"), "function_call_output");
}

#[test]
fn invalid_response_items_and_plain_http_fail_closed() {
    let mut unsafe_config = config();
    unsafe_config.base_url = "http://api.openai.com/v1".to_owned();
    assert!(OpenAiResponsesDriver::new(unsafe_config).is_err());
    assert!(parse_response(
        &json(
            r#"{"object": "response", "status": "completed", "output": [{"type": "web_search_call"}]}"#
        ),
        None
    )
    .is_err());
}

#[test]
fn buffered_http_response_uses_native_responses_path() {
    let mut config = config();
    config.base_url = "http://127.0.0.1:4321/v1".to_owned();
    let body = request_body(
        &config,
        &ModelRequest {
            conversation: vec![ConversationItem::Message(Message::user("hi"))],
            tools: Vec::new(),
            max_output_tokens: 128,
            temperature: Temperature::Unset,
            phase: None,
            route: None,
        },
    )
    .unwrap_or_else(|error| unreachable!("request: {}", error.message()));
    let driver = OpenAiResponsesDriver::new(config)
        .unwrap_or_else(|error| unreachable!("driver: {}", error.message()));
    assert_eq!(driver.endpoint(), "http://127.0.0.1:4321/v1/responses");
    assert!(body.to_text().contains("\"store\":false"));
    let response = parse_response(
        &json(
            r#"{
                "object": "response", "id": "resp-test", "status": "completed",
                "output": [{"type": "message", "content": [{"type": "output_text", "text": "done"}]}],
                "usage": {"input_tokens": 10, "output_tokens": 2}
            }"#,
        ),
        None,
    )
    .unwrap_or_else(|error| unreachable!("response: {}", error.message()));
    assert_eq!(response.text, "done");
}

#[test]
fn incomplete_calls_are_never_executable() {
    for output in [
        r#"[{"type": "function_call", "call_id": "call-1", "name": "read_file", "arguments": "{\"path\":"}]"#,
        r#"[{"type": "function_call", "call_id": "call-1", "name": "read_file", "arguments": "[1]"}]"#,
        r#"[{"type": "function_call", "name": "read_file", "arguments": "{}"}]"#,
    ] {
        let value = format!(r#"{{"object": "response", "status": "completed", "output": {output}}}"#);
        assert!(parse_response(&json(&value), None).is_err());
    }
}

#[test]
fn only_plain_successes_are_accepted() {
    assert_eq!(
        accept_reply(200, b"{\"id\": 1}").ok().map(|value| value.to_text()),
        Some("{\"id\":1}".to_owned())
    );
    assert!(matches!(accept_reply(200, b"{"), Err(ModelError::Json(_))));
    assert!(matches!(
        accept_reply(202, b"{\"error\": {\"message\": \"busy\"}}"),
        Err(ModelError::Provider { status: 202, message }) if message == "busy"
    ));
    assert!(matches!(
        accept_reply(500, "é".repeat(600).as_bytes()),
        Err(ModelError::Provider { status: 500, message }) if message == "é".repeat(512)
    ));
}
