//! The Gemini adapter.

use pactrail::json::{Json, JsonMap};
use pactrail::models::driver::ModelError;
use pactrail::models::endpoint::leaves_room;
use pactrail::models::gemini::{
    gemini_finish_reason, parse_function_call, parse_response, request_body, GeminiConfig,
    GeminiDriver, GeminiStream, GeminiStreamAccumulator,
};
use pactrail::models::types::{
    ConversationItem, FinishReason, Message, ModelCapabilities, ModelRequest, ModelStreamEvent,
    Temperature, ToolCall, ToolResult,
};

fn json(text: &str) -> Json {
    Json::parse(text).unwrap_or_else(|error| unreachable!("fixture JSON: {error}"))
}

fn at(value: &Json, path: &str) -> Json {
    path.split('.').fold(value.clone(), |found, step| match step.parse::<usize>() {
        Ok(index) => match found.as_array().and_then(|items| items.get(index)) {
            Some(item) => item.clone(),
            None => Json::Null,
        },
        Err(_) => found.get(step).cloned().unwrap_or(Json::Null),
    })
}

fn text_at(value: &Json, path: &str) -> String {
    at(value, path).as_str().unwrap_or("<none>").to_owned()
}

fn config() -> GeminiConfig {
    GeminiConfig {
        name: "gemini".to_owned(),
        base_url: "https://generativelanguage.googleapis.com".to_owned(),
        model: "gemini-test".to_owned(),
        has_api_key: true,
        timeout_ns: 1_000_000_000,
        capabilities: ModelCapabilities {
            max_output_tokens: 1_024,
            ..ModelCapabilities::default()
        },
        stream: true,
    }
}

fn zero() -> Temperature {
    match json("0.0") {
        Json::Number(number) => Temperature::Value(number),
        other => unreachable!("number: {other:?}"),
    }
}

#[test]
fn native_request_preserves_function_ids_results_and_thought_signatures() {
    let mut extensions = JsonMap::new();
    extensions.insert("thought_signature", Json::text("signed-state"));
    let request = ModelRequest {
        conversation: vec![
            ConversationItem::Message(Message::system("policy")),
            ConversationItem::Message(Message::user("inspect")),
            ConversationItem::AssistantToolCalls {
                text: String::new(),
                calls: vec![ToolCall {
                    id: "call-1".to_owned(),
                    name: "read_file".to_owned(),
                    arguments: json(r#"{"path": "src/lib.rs"}"#),
                    extensions,
                }],
            },
            ConversationItem::ToolResult(ToolResult {
                call_id: "call-1".to_owned(),
                name: "read_file".to_owned(),
                content: json(r#"{"text": "source"}"#),
                is_error: false,
            }),
        ],
        tools: Vec::new(),
        max_output_tokens: 512,
        temperature: zero(),
        phase: None,
        route: None,
    };
    let body = request_body(&config(), &request)
        .unwrap_or_else(|error| unreachable!("native request: {}", error.message()));
    assert_eq!(text_at(&body, "systemInstruction.parts.0.text"), "policy");
    assert_eq!(text_at(&body, "contents.1.parts.0.thoughtSignature"), "signed-state");
    assert_eq!(text_at(&body, "contents.2.parts.0.functionResponse.id"), "call-1");
}

#[test]
fn buffered_response_preserves_signed_function_call_and_usage() {
    let response = parse_response(
        &json(
            r#"{
                "candidates": [{
                    "content": {"role": "model", "parts": [{
                        "functionCall": {"id": "call-1", "name": "read_file", "args": {"path": "src/lib.rs"}},
                        "thoughtSignature": "signed-state"
                    }]},
                    "finishReason": "STOP"
                }],
                "usageMetadata": {"promptTokenCount": 12, "candidatesTokenCount": 4, "cachedContentTokenCount": 3},
                "modelVersion": "gemini-test-001",
                "responseId": "response-1"
            }"#,
        ),
        Some("request-1".to_owned()),
    )
    .unwrap_or_else(|error| unreachable!("native response: {}", error.message()));
    assert_eq!(response.tool_calls[0].id, "call-1");
    assert_eq!(
        response.tool_calls[0].extensions.get("thought_signature").and_then(Json::as_str),
        Some("signed-state")
    );
    assert_eq!(response.usage.cached_input_tokens, 3);
}

#[test]
fn missing_function_id_gets_a_stable_synthetic_id() {
    let part = json(r#"{"functionCall": {"name": "read_file", "args": {"path": "a"}}}"#);
    let first = parse_function_call(&at(&part, "functionCall"), &part, 0)
        .unwrap_or_else(|error| unreachable!("call: {}", error.message()));
    let second = parse_function_call(&at(&part, "functionCall"), &part, 0)
        .unwrap_or_else(|error| unreachable!("call: {}", error.message()));
    assert_eq!(first.id, second.id);
    assert!(first.id.starts_with("gemini-"));
}

#[test]
fn synthetic_ids_tell_calls_apart() {
    let part = json(r#"{"functionCall": {"name": "read_file", "args": {"path": "a"}}}"#);
    let call = at(&part, "functionCall");
    let first = parse_function_call(&call, &part, 0)
        .unwrap_or_else(|error| unreachable!("call: {}", error.message()));
    let second = parse_function_call(&call, &part, 1)
        .unwrap_or_else(|error| unreachable!("call: {}", error.message()));
    assert_ne!(first.id, second.id);
}

#[test]
fn stream_deduplicates_identical_function_parts_and_rejects_usage_regression() {
    let mut log = Vec::new();
    let mut accumulator = GeminiStreamAccumulator::new();
    let call = json(
        r#"{
            "candidates": [{
                "content": {"parts": [{"functionCall": {"id": "call-1", "name": "read_file", "args": {"path": "a"}}}]}
            }],
            "usageMetadata": {"promptTokenCount": 10, "candidatesTokenCount": 2}
        }"#,
    );
    accumulator
        .apply(&call, &mut log)
        .unwrap_or_else(|error| unreachable!("first chunk: {}", error.message()));
    accumulator
        .apply(&call, &mut log)
        .unwrap_or_else(|error| unreachable!("duplicate chunk: {}", error.message()));
    assert_eq!(accumulator.calls().len(), 1);
    assert!(matches!(
        accumulator.apply(
            &json(
                r#"{
                    "candidates": [],
                    "usageMetadata": {"promptTokenCount": 9, "candidatesTokenCount": 2}
                }"#
            ),
            &mut log
        ),
        Err(ModelError::MalformedResponse(message)) if message.contains("regressed")
    ));
}

#[test]
fn model_identifier_cannot_escape_the_endpoint_path() {
    let mut invalid = config();
    invalid.model = "models/../other".to_owned();
    assert!(matches!(GeminiDriver::new(invalid), Err(ModelError::InvalidRequest(_))));
}

#[test]
fn endpoints_name_the_model_and_the_method() {
    let driver = GeminiDriver::new(config())
        .unwrap_or_else(|error| unreachable!("driver: {}", error.message()));
    let buffered = driver
        .endpoint(false)
        .unwrap_or_else(|error| unreachable!("endpoint: {}", error.message()));
    assert_eq!(
        buffered,
        "https://generativelanguage.googleapis.com/v1beta/models/gemini-test:generateContent"
    );
    let streamed = driver
        .endpoint(true)
        .unwrap_or_else(|error| unreachable!("endpoint: {}", error.message()));
    assert_eq!(
        streamed,
        "https://generativelanguage.googleapis.com/v1beta/models/gemini-test:streamGenerateContent?alt=sse"
    );
}

#[test]
fn finish_reasons_are_normalized() {
    assert_eq!(gemini_finish_reason(Some("STOP")), FinishReason::Complete);
    assert_eq!(gemini_finish_reason(Some("MAX_TOKENS")), FinishReason::Length);
}

#[test]
fn gemini_streams_show_the_text_of_their_response() {
    let body = concat_data(&[
        r#"{"candidates": [{"content": {"parts": [{"text": "hel"}]}}]}"#,
        r#"{"candidates": [{"content": {"parts": [{"text": "lo"}]}, "finishReason": "STOP"}], "usageMetadata": {"promptTokenCount": 3, "candidatesTokenCount": 1}}"#,
    ]);
    let mut log = Vec::new();
    let mut session = GeminiStream::new(None);
    session
        .push(body.as_bytes(), 7, &mut log)
        .unwrap_or_else(|error| unreachable!("chunk: {}", error.message()));
    let response = session
        .finish()
        .unwrap_or_else(|error| unreachable!("stream: {}", error.message()));
    let shown: String = log
        .iter()
        .filter_map(|event| match event {
            ModelStreamEvent::TextDelta { text } => Some(text.as_str()),
            _ => None,
        })
        .collect();
    assert_eq!(shown, "hello");
    assert_eq!(response.text, "hello");
    assert_eq!(response.usage.total(), 4);
}

fn concat_data(events: &[&str]) -> String {
    events.iter().map(|data| format!("data: {data}\n\n")).collect()
}

#[test]
fn endpoints_keep_the_path_of_their_base() {
    let mut based = config();
    based.base_url = "http://127.0.0.1:8080/proxy%20a//".to_owned();
    let driver = GeminiDriver::new(based)
        .unwrap_or_else(|error| unreachable!("driver: {}", error.message()));
    assert_eq!(
        driver.endpoint(true).ok().as_deref(),
        Some("http://127.0.0.1:8080/proxy%20a/v1beta/models/gemini-test:streamGenerateContent?alt=sse")
    );
}

#[test]
fn urls_have_room_within_their_positions() {
    assert!(leaves_room(4_294_967_276, 1));
    assert!(!leaves_room(4_294_967_277, 1));
    assert!(!leaves_room(0, usize::MAX));
}
