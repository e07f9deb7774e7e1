//! What every model driver reports, and why one fails.

use crate::json;
use crate::json::{Json, JsonView};
use crate::models::types::{
    ModelResponse, ModelStreamEvent, ResponseView, StreamEventView, ToolCallView,
};
use crate::outcome;
use crate::text;
use vstd::prelude::*;

verus! {

/// Receives transient progress while a driver assembles one complete response.
pub trait ModelStreamObserver {
    /// Observes one bounded provider-neutral stream event.
    fn on_event(&self, event: &ModelStreamEvent);
}

/// Provider invocation or protocol failure.
#[derive(Debug)]
#[allow(inconsistent_fields)]
pub enum ModelError {
    InvalidRequest(String),
    Transport(String),
    Provider { status: u16, message: String },
    ResponseTooLarge { limit: usize },
    MalformedResponse(String),
    Json(String),
}

/// What a [`ModelError`] says.
#[allow(inconsistent_fields)]
pub enum ModelFault {
    InvalidRequest(Seq<char>),
    Transport(Seq<char>),
    Provider { status: u16, message: Seq<char> },
    ResponseTooLarge { limit: usize },
    MalformedResponse(Seq<char>),
    Json(Seq<char>),
}

impl DeepView for ModelError {
    type V = ModelFault;

    open spec fn deep_view(&self) -> ModelFault {
        match self {
            ModelError::InvalidRequest(m) => ModelFault::InvalidRequest(m@),
            ModelError::Transport(m) => ModelFault::Transport(m@),
            ModelError::Provider { status, message } => ModelFault::Provider {
                status: *status,
                message: message@,
            },
            ModelError::ResponseTooLarge { limit } => ModelFault::ResponseTooLarge {
                limit: *limit,
            },
            ModelError::MalformedResponse(m) => ModelFault::MalformedResponse(m@),
            ModelError::Json(m) => ModelFault::Json(m@),
        }
    }
}

/// The fault in words.
pub open spec fn model_message(f: ModelFault) -> Seq<char> {
    match f {
        ModelFault::InvalidRequest(m) => "model request is invalid: "@ + m,
        ModelFault::Transport(m) => "model transport failed: "@ + m,
        ModelFault::Provider { status, message } =>
            "provider rejected the request with HTTP "@ + text::decimal(status as nat) + ": "@
            + message,
        ModelFault::ResponseTooLarge { limit } => "provider response exceeded the "@
            + text::decimal(limit as nat) + "-byte limit"@,
        ModelFault::MalformedResponse(m) => "provider response is malformed: "@ + m,
        ModelFault::Json(m) => "provider response JSON is invalid: "@ + m,
    }
}

impl ModelError {
    /// The error in words.
    pub fn message(&self) -> (r: String)
        ensures
            r@ == model_message(self.deep_view()),
    {
        match self {
            ModelError::InvalidRequest(m) => text::concat2(
                "model request is invalid: ",
                m.as_str(),
            ),
            ModelError::Transport(m) => text::concat2("model transport failed: ", m.as_str()),
            ModelError::Provider { status, message } => text::concat4(
                "provider rejected the request with HTTP ",
                text::decimal_text(*status as u64).as_str(),
                ": ",
                message.as_str(),
            ),
            ModelError::ResponseTooLarge { limit } => text::concat3(
                "provider response exceeded the ",
                text::decimal_of(*limit).as_str(),
                "-byte limit",
            ),
            ModelError::MalformedResponse(m) => text::concat2(
                "provider response is malformed: ",
                m.as_str(),
            ),
            ModelError::Json(m) => text::concat2(
                "provider response JSON is invalid: ",
                m.as_str(),
            ),
        }
    }

    /// A malformed response.
    pub(crate) fn malformed(message: &str) -> (r: ModelError)
        ensures
            r.deep_view() == ModelFault::MalformedResponse(message@),
    {
        ModelError::MalformedResponse(message.to_owned())
    }

    /// An invalid request.
    pub(crate) fn invalid(message: &str) -> (r: ModelError)
        ensures
            r.deep_view() == ModelFault::InvalidRequest(message@),
    {
        ModelError::InvalidRequest(message.to_owned())
    }
}

/// The events that announce the calls from call `i` on.
pub open spec fn announced(calls: Seq<ToolCallView>, i: int) -> Seq<StreamEventView>
    decreases calls.len() - i,
{
    if i < 0 || i >= calls.len() {
        Seq::empty()
    } else {
        seq![
            StreamEventView::ToolCallStarted {
                index: i as nat,
                id: calls[i].id,
                name: calls[i].name,
            },
        ] + announced(calls, i + 1)
    }
}

/// The events that stand for a response that came in one piece.
pub open spec fn complete_events(r: ResponseView) -> Seq<StreamEventView> {
    seq![
        StreamEventView::ResponseStarted {
            provider_request_id: r.provider_request_id,
            time_to_first_byte_ms: 0,
        },
    ] + (if r.text.len() > 0 {
        seq![StreamEventView::TextDelta { text: r.text }]
    } else {
        Seq::empty()
    }) + announced(r.tool_calls, 0) + seq![StreamEventView::UsageUpdate { usage: r.usage }]
}

/// The events that stand for a response that came in one piece.
pub fn emit_complete_response(response: &ModelResponse) -> (r: Vec<ModelStreamEvent>)
    ensures
        r.deep_view() == complete_events(response.deep_view()),
{
    let ghost v = response.deep_view();
    let mut out: Vec<ModelStreamEvent> = Vec::new();
    out.push(
        ModelStreamEvent::ResponseStarted {
            provider_request_id: response.provider_request_id.clone(),
            time_to_first_byte_ms: 0,
        },
    );
    if !response.text.as_str().is_empty() {
        out.push(ModelStreamEvent::TextDelta { text: response.text.clone() });
    }
    let ghost head = out.deep_view();
    assert(head =~= seq![
        StreamEventView::ResponseStarted {
            provider_request_id: v.provider_request_id,
            time_to_first_byte_ms: 0,
        },
    ] + (if v.text.len() > 0 {
        seq![StreamEventView::TextDelta { text: v.text }]
    } else {
        Seq::empty()
    }));
    let mut i: usize = 0;
    assert(v.tool_calls.len() == response.tool_calls@.len());
    while i < response.tool_calls.len()
        invariant
            i <= response.tool_calls@.len() == v.tool_calls.len(),
            v == response.deep_view(),
            out.deep_view() + announced(v.tool_calls, i as int) == head + announced(
                v.tool_calls,
                0,
            ),
        decreases response.tool_calls@.len() - i,
    {
        let call = &response.tool_calls[i];
        let ghost before = out.deep_view();
        assert(v.tool_calls[i as int] == call.deep_view());
        out.push(
            ModelStreamEvent::ToolCallStarted {
                index: i,
                id: call.id.clone(),
                name: call.name.clone(),
            },
        );
        proof {
            let one = StreamEventView::ToolCallStarted {
                index: i as nat,
                id: call.id@,
                name: call.name@,
            };
            assert(out.deep_view() =~= before.push(one));
            assert(before.push(one) + announced(v.tool_calls, i + 1) =~= before + (seq![one]
                + announced(v.tool_calls, i + 1)));
        }
        i += 1;
    }
    let ghost before = out.deep_view();
    assert(announced(v.tool_calls, i as int) =~= Seq::<StreamEventView>::empty());
    assert(before =~= head + announced(v.tool_calls, 0));
    out.push(ModelStreamEvent::UsageUpdate { usage: response.usage });
    assert(out.deep_view() =~= before.push(StreamEventView::UsageUpdate { usage: v.usage }));
    assert(out.deep_view() =~= complete_events(v));
    out
}

/// The message that an error reply carries in its `error.message`, or else the
/// start of the reply itself.
pub open spec fn error_message_spec(
    parsed: Option<JsonView>,
    raw: Seq<char>,
    limit: nat,
) -> Seq<char> {
    match parsed {
        Some(v) => match json::member2(v, "error"@, "message"@) {
            Some(JsonView::Text(m)) => m,
            _ => text::first_chars_spec(raw, limit),
        },
        None => text::first_chars_spec(raw, limit),
    }
}

/// The message of an error reply, whose JSON value is given if it is one.
pub fn error_message(parsed: Option<&Json>, raw: &str, limit: usize) -> (r: String)
    ensures
        r@ == error_message_spec(parsed.deep_view(), raw@, limit as nat),
{
    if let Some(v) = parsed {
        if let Some(m) = v.get2("error", "message") {
            if let Some(t) = m.as_str() {
                return t.to_owned();
            }
        }
    }
    text::first_chars(raw, limit)
}

/// The value of a parse that succeeded.
pub open spec fn parsed_value(r: Result<JsonView, Seq<char>>) -> Option<JsonView> {
    match r {
        Ok(v) => Some(v),
        Err(_) => None,
    }
}

/// The value of a reply's body, or that it is no JSON.
pub open spec fn json_reply_spec(parsed: Result<JsonView, Seq<char>>) -> Result<
    JsonView,
    ModelFault,
> {
    match parsed {
        Ok(v) => Ok(v),
        Err(m) => Err(ModelFault::Json(m)),
    }
}

/// The value of a reply's body.
pub fn json_reply(bytes: &[u8]) -> (r: Result<Json, ModelError>)
    ensures
        outcome::of(r) == json_reply_spec(json::json_parse_bytes(bytes@)),
{
    match Json::parse_bytes(bytes) {
        Ok(v) => Ok(v),
        Err(m) => Err(ModelError::Json(m)),
    }
}

/// The message of an error reply.
pub fn provider_message(bytes: &[u8]) -> (r: String)
    ensures
        r@ == error_message_spec(
            parsed_value(json::json_parse_bytes(bytes@)),
            text::lossy_view(bytes@),
            1000,
        ),
{
    let raw = text::lossy_text(bytes);
    match Json::parse_bytes(bytes) {
        Ok(v) => error_message(Some(&v), raw.as_str(), 1000),
        Err(_) => error_message(None, raw.as_str(), 1000),
    }
}

} // verus!
