//! The OpenAI-compatible adapter, endpoints and retries.

use pactrail::json::Json;
use pactrail::models::driver::ModelError;
use pactrail::models::openai_compatible::{
    cached_input_tokens, canonical_messages, parse_response, request_body, OpenAiCompatibleConfig,
    OpenAiCompatibleDriver, OpenAiStream, OpenAiStreamAccumulator,
};
use pactrail::models::sse::SseEvent;
use pactrail::models::transport::{
    check_declared_length, next_step, parse_retry_after, require_event_stream, retry_delay,
    ExchangeStep, MAX_RESPONSE_BYTES, MAX_RETRY_DELAY,
};
use pactrail::models::types::{
    ConversationItem, FinishReason, Message, ModelCapabilities, ModelRequest, ModelStreamEvent,
    Temperature,
};

const SECOND: u128 = 1_000_000_000;

fn json(text: &str) -> Json {
    Json::parse(text).unwrap_or_else(|error| unreachable!("fixture JSON: {error}"))
}

fn at(value: &Json, path: &str) -> Json {
    path.split('.').fold(value.clone(), |found, step| match step.parse::<usize>() {
        Ok(index) => match found.as_array().and_then(|items| items.get(index)) {
            Some(item) => item.clone(),
            None => Json::Null,
        },
        Err(_) => found.get(step).cloned().unwrap_or(Json::Null),
    })
}

fn text_at(value: &Json, path: &str) -> String {
    at(value, path).as_str().unwrap_or("<none>").to_owned()
}

fn config(base_url: &str) -> OpenAiCompatibleConfig {
    OpenAiCompatibleConfig {
        name: "test".to_owned(),
        base_url: base_url.to_owned(),
        model: "model".to_owned(),
        timeout_ns: 1_000_000_000,
        capabilities: ModelCapabilities::default(),
        stream: false,
        disable_thinking: false,
    }
}

fn request(temperature: Temperature) -> ModelRequest {
    ModelRequest {
        conversation: vec![ConversationItem::Message(Message::user("task"))],
        tools: Vec::new(),
        max_output_tokens: 128,
        temperature,
        phase: None,
        route: None,
    }
}

fn zero() -> Temperature {
    match json("0.0") {
        Json::Number(number) => Temperature::Value(number),
        other => unreachable!("number: {other:?}"),
    }
}

fn sse(value: &str) -> SseEvent {
    SseEvent {
        event: None,
        data: json(value).to_text(),
    }
}

#[test]
fn parses_text_tools_usage_and_extensions() {
    let value = json(
        r#"{
            "id": "response-1",
            "choices": [{
                "message": {
                    "content": "I will inspect it.",
                    "tool_calls": [{
                        "id": "call-1",
                        "type": "function",
                        "function": {"name": "read_file", "arguments": "{\"path\":\"src/lib.rs\"}"}
                    }]
                },
                "finish_reason": "tool_calls"
            }],
            "usage": {
                "prompt_tokens": 10,
                "completion_tokens": 4,
                "prompt_cache_hit_tokens": 6,
                "prompt_cache_miss_tokens": 4
            }
        }"#,
    );
    let response = parse_response(&value, Some("request-1".to_owned()))
        .unwrap_or_else(|error| unreachable!("valid response: {}", error.message()));
    assert_eq!(response.tool_calls[0].name, "read_file");
    assert_eq!(response.usage.total(), 14);
    assert_eq!(response.usage.cached_input_tokens, 6);
    assert_eq!(response.finish_reason, FinishReason::ToolCalls);
    assert_eq!(
        response.extensions.get("id").and_then(Json::as_str),
        Some("response-1")
    );
}

#[test]
fn standard_cached_token_detail_takes_precedence_over_provider_extension() {
    let usage = json(
        r#"{
            "prompt_tokens_details": { "cached_tokens": 7 },
            "prompt_cache_hit_tokens": 6
        }"#,
    );
    assert_eq!(cached_input_tokens(&usage), 7);
}

#[test]
fn coalesces_all_system_instructions_into_one_leading_message() {
    let conversation = vec![
        ConversationItem::Message(Message::system("base policy")),
        ConversationItem::Message(Message::system("repository context")),
        ConversationItem::Message(Message::user("perform the task")),
        ConversationItem::Message(Message::assistant("working")),
        ConversationItem::Message(Message::system("recovery instruction")),
    ];

    let messages = canonical_messages(&conversation)
        .unwrap_or_else(|error| unreachable!("valid conversation: {}", error.message()));

    assert_eq!(messages.len(), 3);
    assert_eq!(text_at(&messages[0], "role"), "system");
    assert_eq!(
        text_at(&messages[0], "content"),
        "base policy\n\nrepository context\n\nrecovery instruction"
    );
    assert_eq!(text_at(&messages[1], "role"), "user");
    assert_eq!(text_at(&messages[2], "role"), "assistant");
    assert_eq!(
        messages
            .iter()
            .filter(|message| text_at(message, "role") == "system")
            .count(),
        1
    );
}

#[test]
fn preserves_conversations_without_system_instructions() {
    let conversation = vec![
        ConversationItem::Message(Message::user("question")),
        ConversationItem::Message(Message::assistant("answer")),
    ];

    let messages = canonical_messages(&conversation)
        .unwrap_or_else(|error| unreachable!("valid conversation: {}", error.message()));

    assert_eq!(messages.len(), 2);
    assert_eq!(text_at(&messages[0], "role"), "user");
    assert_eq!(text_at(&messages[1], "role"), "assistant");
}

#[test]
fn non_thinking_extension_is_explicit_in_request_body() {
    let default_body = request_body(&config("https://api.example.com/v1"), &request(zero()))
        .unwrap_or_else(|error| unreachable!("valid request: {}", error.message()));
    assert!(default_body.get("thinking").is_none());

    let mut non_thinking = config("https://api.example.com/v1");
    non_thinking.disable_thinking = true;
    let body = request_body(&non_thinking, &request(zero()))
        .unwrap_or_else(|error| unreachable!("valid request: {}", error.message()));
    assert_eq!(text_at(&body, "thinking.type"), "disabled");
}

#[test]
fn streaming_request_explicitly_asks_for_usage() {
    let mut streaming = config("https://api.example.com/v1");
    streaming.stream = true;
    let body = request_body(&streaming, &request(Temperature::Unset))
        .unwrap_or_else(|error| unreachable!("valid request: {}", error.message()));
    assert_eq!(at(&body, "stream").as_bool(), Some(true));
    assert_eq!(at(&body, "stream_options.include_usage").as_bool(), Some(true));
}

#[test]
fn temperatures_out_of_range_are_refused() {
    assert!(matches!(
        request_body(&config("https://api.example.com/v1"), &request(Temperature::OutOfRange)),
        Err(ModelError::InvalidRequest(_))
    ));
}

#[test]
fn accumulates_parallel_text_tool_arguments_and_cumulative_usage() {
    let mut log = Vec::new();
    let mut accumulator = OpenAiStreamAccumulator::new();
    for event in [
        sse(
            r#"{
                "id": "response-1",
                "choices": [{"index": 0, "delta": {"content": "Inspecting "}}]
            }"#,
        ),
        sse(
            r#"{
                "id": "response-1",
                "choices": [{"index": 0, "delta": {"tool_calls": [{
                    "index": 0,
                    "id": "call-1",
                    "function": {"name": "read_file", "arguments": "{\"path\":"}
                }]}}]
            }"#,
        ),
        sse(
            r#"{
                "id": "response-1",
                "choices": [{"index": 0, "delta": {"tool_calls": [{
                    "index": 0,
                    "function": {"arguments": "\"src/lib.rs\"}"}
                }]}}]
            }"#,
        ),
        sse(
            r#"{
                "id": "response-1",
                "choices": [{"index": 0, "delta": {}, "finish_reason": "tool_calls"}]
            }"#,
        ),
        sse(
            r#"{
                "id": "response-1",
                "choices": [],
                "usage": {
                    "prompt_tokens": 20,
                    "completion_tokens": 8,
                    "prompt_tokens_details": {"cached_tokens": 5}
                }
            }"#,
        ),
        SseEvent {
            event: None,
            data: "[DONE]".to_owned(),
        },
    ] {
        accumulator
            .apply(&event, &mut log)
            .unwrap_or_else(|error| unreachable!("valid chunk: {}", error.message()));
    }
    let response = accumulator
        .finish(Some("request-1".to_owned()), 12)
        .unwrap_or_else(|error| unreachable!("complete stream: {}", error.message()));
    assert_eq!(response.text, "Inspecting ");
    assert_eq!(response.finish_reason, FinishReason::ToolCalls);
    assert_eq!(response.tool_calls.len(), 1);
    assert_eq!(response.tool_calls[0].name, "read_file");
    assert_eq!(text_at(&response.tool_calls[0].arguments, "path"), "src/lib.rs");
    assert_eq!(response.usage.total(), 28);
    assert_eq!(response.usage.cached_input_tokens, 5);
    assert_eq!(
        response.extensions.get("time_to_first_byte_ms").and_then(Json::as_u64),
        Some(12)
    );
    assert!(log.iter().any(|event| matches!(
        event,
        ModelStreamEvent::ToolCallStarted { name, .. } if name == "read_file"
    )));
    assert!(log.iter().any(|event| matches!(
        event,
        ModelStreamEvent::ToolArgumentsDelta { bytes, .. } if *bytes > 0
    )));
}

#[test]
fn stream_rejects_usage_regression_and_disconnect_without_done() {
    let mut log = Vec::new();
    let mut accumulator = OpenAiStreamAccumulator::new();
    accumulator
        .apply(
            &sse(
                r#"{
                    "choices": [],
                    "usage": {"prompt_tokens": 10, "completion_tokens": 4}
                }"#,
            ),
            &mut log,
        )
        .unwrap_or_else(|error| unreachable!("first usage: {}", error.message()));
    assert!(matches!(
        accumulator.apply(
            &sse(
                r#"{
                    "choices": [],
                    "usage": {"prompt_tokens": 9, "completion_tokens": 4}
                }"#
            ),
            &mut log
        ),
        Err(ModelError::MalformedResponse(message)) if message.contains("regressed")
    ));
    assert!(matches!(
        OpenAiStreamAccumulator::new().finish(None, 0),
        Err(ModelError::MalformedResponse(message)) if message.contains("disconnected")
    ));
}

#[test]
fn remote_plain_http_is_rejected() {
    assert!(matches!(
        OpenAiCompatibleDriver::new(config("http://example.com/v1")),
        Err(ModelError::InvalidRequest(_))
    ));
}

#[test]
fn localhost_prefix_confusion_is_rejected() {
    assert!(matches!(
        OpenAiCompatibleDriver::new(config("http://localhost.evil.example/v1")),
        Err(ModelError::InvalidRequest(_))
    ));
}

#[test]
fn ambiguous_endpoint_components_are_rejected() {
    for endpoint in [
        "https://api.example.com/v1?tenant=other",
        "https://api.example.com/v1#fragment",
    ] {
        assert!(matches!(
            OpenAiCompatibleDriver::new(config(endpoint)),
            Err(ModelError::InvalidRequest(_))
        ));
    }
}

#[test]
fn zero_timeout_is_rejected() {
    let mut config = config("https://api.example.com/v1");
    config.timeout_ns = 0;
    assert!(matches!(
        OpenAiCompatibleDriver::new(config),
        Err(ModelError::InvalidRequest(_))
    ));
}

#[test]
fn loopback_endpoints_may_be_plain() {
    for base in ["http://localhost:11434/v1", "http://127.0.0.1:8080/v1/"] {
        let driver = OpenAiCompatibleDriver::new(config(base))
            .unwrap_or_else(|error| unreachable!("{base}: {}", error.message()));
        assert!(driver.endpoint().ends_with("/v1/chat/completions"));
    }
    assert!(OpenAiCompatibleDriver::new(config("http://128.0.0.1:8080/v1")).is_err());
}

#[test]
fn retry_after_delta_is_honored_and_bounded() {
    assert_eq!(parse_retry_after(Some("7"), 0), Some(7 * SECOND));
    assert_eq!(retry_delay(429, 1, Some(600 * SECOND)), MAX_RETRY_DELAY);
}

#[test]
fn retry_after_dates_count_from_now() {
    let date = "Thu, 01 Jan 1970 00:00:09 GMT";
    assert_eq!(parse_retry_after(Some(date), 2 * SECOND), Some(7 * SECOND));
    assert_eq!(parse_retry_after(Some("soon"), 0), None);
    assert_eq!(parse_retry_after(None, 0), None);
}

#[test]
fn retry_fallback_distinguishes_rate_limits_from_server_errors() {
    assert_eq!(retry_delay(429, 2, None), 30 * SECOND);
    assert_eq!(retry_delay(503, 2, None), SECOND / 2);
}

#[test]
fn redirects_are_not_followed() {
    assert!(matches!(next_step(302, 0, None, false), ExchangeStep::Refuse));
    assert!(matches!(next_step(200, 0, None, false), ExchangeStep::Accept));
    assert!(matches!(
        next_step(429, 0, None, false),
        ExchangeStep::Retry { attempt: 1, .. }
    ));
    assert!(matches!(next_step(429, 3, None, false), ExchangeStep::Refuse));
}

#[test]
fn oversized_and_mistyped_replies_are_refused() {
    assert!(check_declared_length(Some(MAX_RESPONSE_BYTES as u64), MAX_RESPONSE_BYTES).is_ok());
    assert!(matches!(
        check_declared_length(Some(MAX_RESPONSE_BYTES as u64 + 1), MAX_RESPONSE_BYTES),
        Err(ModelError::ResponseTooLarge { .. })
    ));
    assert!(require_event_stream(Some("text/event-stream; charset=utf-8"), "no stream").is_ok());
    assert!(matches!(
        require_event_stream(Some("application/json"), "no stream"),
        Err(ModelError::MalformedResponse(_))
    ));
}

#[test]
fn streamed_http_response_is_normalized_without_buffered_fallback() {
    let body = [
        "data: {\"id\":\"response-1\",\"choices\":[{\"index\":0,\"delta\":{\"content\":\"hello\"}}]}\n\n",
        "data: {\"id\":\"response-1\",\"choices\":[{\"index\":0,\"delta\":{},\"finish_reason\":\"stop\"}]}\n\n",
        "data: {\"id\":\"response-1\",\"choices\":[],\"usage\":{\"prompt_tokens\":3,\"completion_tokens\":1}}\n\n",
        "data: [DONE]\n\n",
    ]
    .join("");
    let mut stream_config = config("http://127.0.0.1:9/v1");
    stream_config.stream = true;
    let sent = request_body(
        &stream_config,
        &ModelRequest {
            conversation: vec![ConversationItem::Message(Message::user("hello"))],
            tools: Vec::new(),
            max_output_tokens: 32,
            temperature: Temperature::Unset,
            phase: None,
            route: None,
        },
    )
    .unwrap_or_else(|error| unreachable!("request: {}", error.message()));
    assert!(sent.to_text().contains("\"stream\":true"));
    let mut log = Vec::new();
    let mut session = OpenAiStream::new(Some("request-1".to_owned()));
    for byte in body.as_bytes() {
        session
            .push(std::slice::from_ref(byte), 1, &mut log)
            .unwrap_or_else(|error| unreachable!("chunk: {}", error.message()));
    }
    let response = session
        .finish()
        .unwrap_or_else(|error| unreachable!("valid stream: {}", error.message()));
    assert_eq!(response.text, "hello");
    assert_eq!(response.usage.total(), 4);
    assert_eq!(response.provider_request_id.as_deref(), Some("request-1"));
}

#[test]
fn retry_delays_are_bounded() {
    assert_eq!(retry_delay(503, 1, Some(0)), SECOND / 4);
    assert_eq!(retry_delay(503, 1, None), SECOND / 4);
    assert_eq!(retry_delay(429, 40, None), MAX_RETRY_DELAY);
    assert_eq!(retry_delay(500, u32::MAX, None), MAX_RETRY_DELAY);
}

#[test]
fn unfinished_calls_make_no_response() {
    let finish = |arguments: &str| {
        let mut log = Vec::new();
        let mut accumulator = OpenAiStreamAccumulator::new();
        let call = Json::object3(
            "index",
            Json::number(0),
            "id",
            Json::text("call-1"),
            "function",
            Json::object2("name", Json::text("read_file"), "arguments", Json::text(arguments)),
        );
        let delta = Json::object1("tool_calls", Json::array(vec![call]));
        let choice = Json::object2("delta", delta, "finish_reason", Json::text("tool_calls"));
        let chunk = Json::object1("choices", Json::array(vec![choice]));
        for data in [chunk.to_text(), "[DONE]".to_owned()] {
            accumulator
                .apply(&SseEvent { event: None, data }, &mut log)
                .unwrap_or_else(|error| unreachable!("chunk: {}", error.message()));
        }
        accumulator.finish(None, 0)
    };
    assert!(finish(r#"{"path":"a"}"#).is_ok());
    assert!(matches!(finish(r#"{"path":"#), Err(ModelError::Json(_))));
    assert!(matches!(finish("[1]"), Err(ModelError::MalformedResponse(_))));
}

#[test]
fn local_endpoints_declare_conservative_capabilities() {
    let config = OpenAiCompatibleConfig::ollama("llama");
    assert_eq!(config.capabilities, ModelCapabilities::default());
    assert_eq!(config.model, "llama");
    assert!(config.stream);
}
