//! Capability probes and phase routing.

use pactrail::json::{Json, JsonMap};
use pactrail::models::probe::{probe_capabilities, probe_request, ProbeObserver};
use pactrail::models::router::{ModelIdentity, PhaseModelRouter};
use pactrail::models::types::{
    ConversationItem, FinishReason, Message, ModelCapabilities, ModelPhase, ModelRequest,
    ModelResponse, ModelRoute, Temperature, ToolCall, ToolResult, Usage,
};
use pactrail::models::router::portable_conversation;

const PROBE_TOOL_NAME: &str = "pactrail_capability_probe";

fn json(text: &str) -> Json {
    Json::parse(text).unwrap_or_else(|error| unreachable!("fixture JSON: {error}"))
}

fn call(id: &str, nonce: &str) -> ToolCall {
    ToolCall {
        id: id.to_owned(),
        name: PROBE_TOOL_NAME.to_owned(),
        arguments: Json::object1("nonce", Json::text(nonce)),
        extensions: JsonMap::new(),
    }
}

fn empty_response(text: &str) -> ModelResponse {
    ModelResponse {
        text: text.to_owned(),
        tool_calls: Vec::new(),
        finish_reason: FinishReason::Complete,
        usage: Usage::default(),
        provider_request_id: None,
        extensions: JsonMap::new(),
    }
}

#[test]
fn positive_observations_require_distinct_valid_calls() {
    let request = probe_request(256, Temperature::Unset);
    assert_eq!(request.tools.len(), 1);
    assert_eq!(request.tools[0].name, PROBE_TOOL_NAME);
    assert!(request.max_output_tokens <= 256);
    let mut extensions = JsonMap::new();
    extensions.insert("streaming", Json::boolean(false));
    let response = ModelResponse {
        tool_calls: vec![call("one", "alpha"), call("two", "beta")],
        finish_reason: FinishReason::ToolCalls,
        usage: Usage {
            input_tokens: 20,
            output_tokens: 8,
            cached_input_tokens: 5,
            cache_creation_input_tokens: 0,
        },
        extensions,
        ..empty_response("")
    };

    let report = probe_capabilities("fixture", "probe-model", &ProbeObserver::new(), &response)
        .unwrap_or_else(|error| unreachable!("probe: {}", error.message()));

    assert!(report.native_tools.is_observed());
    assert!(report.parallel_tools.is_observed());
    assert!(report.prompt_cache.is_observed());
    assert!(!report.streaming.is_observed());
    assert_eq!(report.valid_probe_calls, 2);
}

#[test]
fn missing_or_repeated_markers_never_enable_capabilities() {
    let response = ModelResponse {
        tool_calls: vec![call("one", "alpha"), call("two", "alpha")],
        ..empty_response("I cannot comply")
    };

    let report = probe_capabilities("fixture", "probe-model", &ProbeObserver::new(), &response)
        .unwrap_or_else(|error| unreachable!("probe: {}", error.message()));

    assert!(report.native_tools.is_observed());
    assert!(!report.parallel_tools.is_observed());
    assert_eq!(report.valid_probe_calls, 1);
}

fn router() -> PhaseModelRouter {
    PhaseModelRouter::new(
        ModelIdentity {
            name: "static".to_owned(),
            model: "strong".to_owned(),
            capabilities: ModelCapabilities::default(),
        },
        ModelIdentity {
            name: "static".to_owned(),
            model: "economical".to_owned(),
            capabilities: ModelCapabilities {
                native_tools: false,
                context_tokens: 8_192,
                max_output_tokens: 1_024,
                ..ModelCapabilities::default()
            },
        },
    )
}

fn invoke(router: &PhaseModelRouter, request: &ModelRequest) -> ModelResponse {
    let (model, route) = router.select(request.phase, request.route);
    router.annotate(empty_response(&model.model), route)
}

#[test]
fn routing_is_phase_explicit_and_advertises_safe_capability_intersection() {
    let router = router();
    assert!(!router.capabilities().native_tools);
    assert_eq!(router.capabilities().context_tokens, 8_192);
    assert!(!router.capabilities_for_phase(ModelPhase::Investigation).native_tools);
    assert!(router.capabilities_for_phase(ModelPhase::Implementation).native_tools);
    let mut request = ModelRequest {
        conversation: vec![ConversationItem::Message(Message::user("task"))],
        tools: Vec::new(),
        max_output_tokens: 128,
        temperature: Temperature::Unset,
        phase: Some(ModelPhase::Investigation),
        route: None,
    };
    let route_of = |response: &ModelResponse| {
        response.extensions.get("route").and_then(Json::as_str).map(str::to_owned)
    };
    let first = invoke(&router, &request);
    assert_eq!(first.text, "economical");
    assert_eq!(route_of(&first).as_deref(), Some("investigation"));
    request.phase = Some(ModelPhase::Implementation);
    let second = invoke(&router, &request);
    assert_eq!(second.text, "strong");
    assert_eq!(route_of(&second).as_deref(), Some("primary"));
    request.route = Some(ModelRoute::Investigation);
    assert!(
        !router
            .capabilities_for_route(ModelPhase::Implementation, request.route)
            .native_tools
    );
    let override_response = invoke(&router, &request);
    assert_eq!(override_response.text, "economical");
    assert_eq!(route_of(&override_response).as_deref(), Some("investigation"));
}

#[test]
fn cross_route_requests_render_portable_tool_transcript_without_opaque_state() {
    let mut extensions = JsonMap::new();
    extensions.insert("pactrail_route_origin", Json::text("investigation"));
    extensions.insert(
        "openai_responses_output_items",
        json(r#"[{"type": "reasoning", "encrypted_content": "sealed"}]"#),
    );
    extensions.insert("thought_signature", Json::text("sealed"));
    let call = ToolCall {
        id: "call-1".to_owned(),
        name: "read_file".to_owned(),
        arguments: json(r#"{"path": "src/lib.rs"}"#),
        extensions,
    };
    let conversation = vec![
        ConversationItem::AssistantToolCalls {
            text: String::new(),
            calls: vec![call],
        },
        ConversationItem::ToolResult(ToolResult {
            call_id: "call-1".to_owned(),
            name: "read_file".to_owned(),
            content: json(r#"{"text": "source"}"#),
            is_error: false,
        }),
    ];
    assert!(portable_conversation(&conversation, "investigation").is_none());
    let ConversationItem::AssistantToolCalls { calls: same, .. } = &conversation[0] else {
        unreachable!("assistant call")
    };
    assert!(same[0].extensions.contains_key("openai_responses_output_items"));
    let cross = portable_conversation(&conversation, "primary")
        .unwrap_or_else(|| unreachable!("rewritten conversation"));
    let ConversationItem::Message(call_message) = &cross[0] else {
        unreachable!("portable assistant message")
    };
    assert!(call_message.content.contains("call-1"));
    assert!(call_message.content.contains("src/lib.rs"));
    assert!(!call_message.content.contains("sealed"));
    let ConversationItem::Message(result_message) = &cross[1] else {
        unreachable!("portable tool result")
    };
    assert!(result_message.content.contains("source"));
}

#[test]
fn own_calls_return_unchanged_and_foreign_ones_do_not() {
    let router = router();
    let mut response = empty_response("");
    response.tool_calls = vec![call("call-1", "alpha")];
    let annotated = router.annotate(response, ModelRoute::Primary);
    assert_eq!(
        annotated.extensions.get("model").and_then(Json::as_str),
        Some("strong")
    );
    let conversation = vec![ConversationItem::AssistantToolCalls {
        text: annotated.text,
        calls: annotated.tool_calls,
    }];
    assert!(portable_conversation(&conversation, "primary").is_none());
    assert!(portable_conversation(&conversation, "investigation").is_some());
    assert_eq!(
        router.model(),
        "primary=static/strong;investigation=static/economical"
    );
}

#[test]
fn probes_offer_a_described_tool() {
    let request = probe_request(0, Temperature::Unset);
    assert_eq!(
        request.tools[0].description,
        "Side-effect-free Pactrail capability marker; it is never executed."
    );
    assert_eq!(request.max_output_tokens, 1);
}
