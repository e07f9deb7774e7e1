//! The Chat Completions wire format.

use crate::json;
use crate::json::{Json, JsonMap, JsonView};
use crate::models::attachments;
use crate::models::attachments::ImageWire;
use crate::models::driver;
use crate::models::driver::{ModelError, ModelFault};
use crate::models::fields;
use crate::models::requests;
use crate::models::sse;
use crate::models::sse::{SseDecoder, SseEvent, SseEventView, SseState};
use crate::models::transport;
use crate::models::transport::{MeterView, StreamMeter};
use crate::models::types::{
    ConversationItem, FinishReason, ItemView, Message, MessageView, ModelCapabilities, ModelRequest,
    ModelResponse, ModelStreamEvent, ResponseView, Role, StreamEventView, Temperature, ToolCall,
    ToolCallView, ToolResult, Usage,
};
use crate::models::endpoint;
use crate::tools::descriptor::{DescriptorView, ToolDescriptor};
use crate::outcome;
use crate::slots::Slots;
use crate::text;
use vstd::prelude::*;
use vstd::utf8::*;

verus! {

/// Largest text of one response, in bytes.
pub const MAX_STREAM_TEXT_BYTES: usize = 8388608;

/// Largest arguments of one tool call, in bytes.
pub const MAX_TOOL_ARGUMENT_BYTES: usize = 1048576;

/// Largest number of tool calls in one response.
pub const MAX_TOOL_CALLS: usize = 128;

/// The finish reason that a name stands for.
pub open spec fn finish_reason_spec(reason: Option<Seq<char>>) -> FinishReason {
    match reason {
        Some(r) => if r == "stop"@ {
            FinishReason::Complete
        } else if r == "tool_calls"@ || r == "function_call"@ {
            FinishReason::ToolCalls
        } else if r == "length"@ {
            FinishReason::Length
        } else if r == "content_filter"@ {
            FinishReason::ContentFilter
        } else {
            FinishReason::Unknown
        },
        None => FinishReason::Unknown,
    }
}

/// The finish reason that a name stands for.
pub fn openai_finish_reason(reason: Option<&str>) -> (r: FinishReason)
    ensures
        r == finish_reason_spec(reason.deep_view()),
{
    match reason {
        Some(name) => if text::same(name, "stop") {
            FinishReason::Complete
        } else if text::same(name, "tool_calls") || text::same(name, "function_call") {
            FinishReason::ToolCalls
        } else if text::same(name, "length") {
            FinishReason::Length
        } else if text::same(name, "content_filter") {
            FinishReason::ContentFilter
        } else {
            FinishReason::Unknown
        },
        None => FinishReason::Unknown,
    }
}

/// The cached input tokens of a usage report: the standard detail, else the
/// extension that some providers send.
pub open spec fn cached_spec(usage: JsonView) -> u64 {
    match json::member2(usage, "prompt_tokens_details"@, "cached_tokens"@) {
        Some(v) => match json::u64_of(v) {
            Some(n) => n,
            None => fields::number_spec(usage, "prompt_cache_hit_tokens"@),
        },
        None => fields::number_spec(usage, "prompt_cache_hit_tokens"@),
    }
}

/// The cached input tokens of a usage report.
pub fn cached_input_tokens(usage: &Json) -> (r: u64)
    ensures
        r == cached_spec(usage.deep_view()),
{
    if let Some(v) = usage.get2("prompt_tokens_details", "cached_tokens") {
        if let Some(n) = v.as_u64() {
            return n;
        }
    }
    fields::number(usage, "prompt_cache_hit_tokens")
}

/// The counters of a usage report.
pub open spec fn usage_spec(usage: JsonView) -> Usage {
    Usage {
        input_tokens: fields::number_spec(usage, "prompt_tokens"@),
        output_tokens: fields::number_spec(usage, "completion_tokens"@),
        cached_input_tokens: cached_spec(usage),
        cache_creation_input_tokens: 0,
    }
}

/// The counters of a usage report.
pub fn openai_usage(usage: &Json) -> (r: Usage)
    ensures
        r == usage_spec(usage.deep_view()),
{
    Usage {
        input_tokens: fields::number(usage, "prompt_tokens"),
        output_tokens: fields::number(usage, "completion_tokens"),
        cached_input_tokens: cached_input_tokens(usage),
        cache_creation_input_tokens: 0,
    }
}

/// A tool call whose pieces are still arriving.
#[derive(Debug)]
pub struct PartialToolCall {
    pub id: Option<String>,
    pub name: Option<String>,
    pub arguments: String,
    pub announced: bool,
}

/// A [`PartialToolCall`] by its texts.
pub struct PartialView {
    pub id: Option<Seq<char>>,
    pub name: Option<Seq<char>>,
    pub arguments: Seq<char>,
    pub announced: bool,
}

impl DeepView for PartialToolCall {
    type V = PartialView;

    open spec fn deep_view(&self) -> PartialView {
        PartialView {
            id: self.id.deep_view(),
            name: self.name.deep_view(),
            arguments: self.arguments@,
            announced: self.announced,
        }
    }
}

impl PartialView {
    /// A call of which nothing has arrived.
    pub open spec fn fresh() -> PartialView {
        PartialView { id: None, name: None, arguments: Seq::empty(), announced: false }
    }
}

/// What a piece of a tool call does to the call.
pub struct PartialStep {
    pub call: PartialView,
    pub events: Seq<StreamEventView>,
    pub result: Result<(), ModelFault>,
}

/// The name of the function that a piece brings.
pub open spec fn partial_name_spec(call: PartialView, function: JsonView) -> PartialStep {
    match json::text_member(function, "name"@) {
        Some(name) => {
            let (merged, result) = fields::merge_spec(
                call.name,
                name,
                "streamed tool call name"@,
                " changed during the response"@,
            );
            PartialStep {
                call: PartialView { name: merged, ..call },
                events: Seq::empty(),
                result,
            }
        },
        None => PartialStep { call, events: Seq::empty(), result: Ok(()) },
    }
}

/// The arguments that a piece brings.
pub open spec fn partial_arguments_spec(
    call: PartialView,
    function: JsonView,
    index: nat,
) -> PartialStep {
    match json::text_member(function, "arguments"@) {
        Some(more) => if text::utf8_len(call.arguments) + text::utf8_len(more)
            > MAX_TOOL_ARGUMENT_BYTES {
            PartialStep {
                call,
                events: Seq::empty(),
                result: Err(ModelFault::ResponseTooLarge { limit: MAX_TOOL_ARGUMENT_BYTES }),
            }
        } else {
            let arguments = call.arguments + more;
            PartialStep {
                call: PartialView { arguments, ..call },
                events: seq![
                    StreamEventView::ToolArgumentsDelta { index, bytes: text::utf8_len(arguments) },
                ],
                result: Ok(()),
            }
        },
        None => PartialStep { call, events: Seq::empty(), result: Ok(()) },
    }
}

/// The function part of a piece.
pub open spec fn partial_function_spec(
    call: PartialView,
    value: JsonView,
    index: nat,
) -> PartialStep {
    match json::member(value, "function"@) {
        Some(function) => {
            let named = partial_name_spec(call, function);
            if named.result is Err {
                named
            } else {
                partial_arguments_spec(named.call, function, index)
            }
        },
        None => PartialStep { call, events: Seq::empty(), result: Ok(()) },
    }
}

/// The announcement of a call, once its id and its name are known.
pub open spec fn announce_spec(call: PartialView, index: nat) -> PartialStep {
    match (call.id, call.name) {
        (Some(id), Some(name)) => if call.announced {
            PartialStep { call, events: Seq::empty(), result: Ok(()) }
        } else {
            PartialStep {
                call: PartialView { announced: true, ..call },
                events: seq![StreamEventView::ToolCallStarted { index, id, name }],
                result: Ok(()),
            }
        },
        _ => PartialStep { call, events: Seq::empty(), result: Ok(()) },
    }
}

/// What a piece of a tool call does to the call.
pub open spec fn partial_spec(call: PartialView, value: JsonView, index: nat) -> PartialStep {
    let (id, identified) = match json::text_member(value, "id"@) {
        Some(id) => fields::merge_spec(
            call.id,
            id,
            "streamed tool call id"@,
            " changed during the response"@,
        ),
        None => (call.id, Ok(())),
    };
    let with_id = PartialView { id, ..call };
    match identified {
        Err(e) => PartialStep { call: with_id, events: Seq::empty(), result: Err(e) },
        Ok(_) => {
            let filled = partial_function_spec(with_id, value, index);
            if filled.result is Err {
                filled
            } else {
                let told = announce_spec(filled.call, index);
                PartialStep {
                    call: told.call,
                    events: filled.events + told.events,
                    result: Ok(()),
                }
            }
        },
    }
}

impl PartialToolCall {
    /// A call of which nothing has arrived.
    pub fn new() -> (r: PartialToolCall)
        ensures
            r.deep_view() == PartialView::fresh(),
    {
        PartialToolCall { id: None, name: None, arguments: String::new(), announced: false }
    }

    /// Takes the next piece of the call.
    pub fn take_piece(
        &mut self,
        value: &Json,
        index: usize,
        log: &mut Vec<ModelStreamEvent>,
    ) -> (r: Result<(), ModelError>)
        ensures
            ({
                let s = partial_spec(old(self).deep_view(), value.deep_view(), index as nat);
                &&& final(self).deep_view() == s.call
                &&& final(log).deep_view() == old(log).deep_view() + s.events
                &&& outcome::of(r) == s.result
            }),
    {
        let ghost start = self.deep_view();
        let ghost log0 = log.deep_view();
        assert(log0 + Seq::<StreamEventView>::empty() =~= log0);
        if let Some(id) = value.text_member("id") {
            fields::merge_identifier(
                &mut self.id,
                id,
                "streamed tool call id",
                " changed during the response",
            )?;
        }
        if let Some(function) = value.get("function") {
            if let Some(name) = function.text_member("name") {
                fields::merge_identifier(
                    &mut self.name,
                    name,
                    "streamed tool call name",
                    " changed during the response",
                )?;
            }
            if let Some(arguments) = function.text_member("arguments") {
                fields::append_text(&mut self.arguments, arguments, MAX_TOOL_ARGUMENT_BYTES)?;
                log.push(
                    ModelStreamEvent::ToolArgumentsDelta {
                        index,
                        bytes: text::byte_len(self.arguments.as_str()),
                    },
                );
                assert(log.deep_view() =~= log0 + partial_function_spec(
                    PartialView { id: self.id.deep_view(), ..start },
                    value.deep_view(),
                    index as nat,
                ).events);
            }
        }
        let ghost filled = partial_function_spec(
            PartialView { id: self.id.deep_view(), ..start },
            value.deep_view(),
            index as nat,
        );
        assert(self.deep_view() == filled.call);
        assert(log.deep_view() =~= log0 + filled.events);
        if !self.announced {
            if let (Some(id), Some(name)) = (&self.id, &self.name) {
                let event = ModelStreamEvent::ToolCallStarted {
                    index,
                    id: id.clone(),
                    name: name.clone(),
                };
                let ghost before = log.deep_view();
                log.push(event);
                assert(log.deep_view() =~= before.push(event.deep_view()));
                self.announced = true;
            }
        }
        assert(log.deep_view() =~= log0 + partial_spec(
            start,
            value.deep_view(),
            index as nat,
        ).events);
        Ok(())
    }
}


/// Collects a streamed response.
pub struct OpenAiStreamAccumulator {
    response_id: Option<String>,
    text: String,
    tool_calls: Slots<PartialToolCall>,
    finish_reason: Option<FinishReason>,
    usage: Usage,
    usage_seen: bool,
    done: bool,
}

/// What has been collected of a streamed response.
pub struct OpenAiState {
    pub response_id: Option<Seq<char>>,
    pub text: Seq<char>,
    pub tool_calls: Map<nat, PartialView>,
    pub finish_reason: Option<FinishReason>,
    pub usage: Usage,
    pub usage_seen: bool,
    pub done: bool,
}

impl DeepView for OpenAiStreamAccumulator {
    type V = OpenAiState;

    closed spec fn deep_view(&self) -> OpenAiState {
        OpenAiState {
            response_id: self.response_id.deep_view(),
            text: self.text@,
            tool_calls: self.tool_calls.deep_view(),
            finish_reason: self.finish_reason,
            usage: self.usage,
            usage_seen: self.usage_seen,
            done: self.done,
        }
    }
}

impl OpenAiState {
    /// Nothing has been collected.
    pub open spec fn fresh() -> OpenAiState {
        OpenAiState {
            response_id: None,
            text: Seq::empty(),
            tool_calls: Map::empty(),
            finish_reason: None,
            usage: Usage::zero(),
            usage_seen: false,
            done: false,
        }
    }

    /// Whether the numbers of the tool calls are within the limit.
    pub open spec fn valid(self) -> bool {
        forall|k: nat| #[trigger] self.tool_calls.contains_key(k) ==> k < MAX_TOOL_CALLS
    }
}

/// What a piece of a stream does.
pub struct OpenAiStep {
    pub state: OpenAiState,
    pub events: Seq<StreamEventView>,
    pub result: Result<(), ModelFault>,
}

/// A step that changes nothing and fails.
pub open spec fn fail(state: OpenAiState, m: Seq<char>) -> OpenAiStep {
    OpenAiStep { state, events: Seq::empty(), result: Err(ModelFault::MalformedResponse(m)) }
}

/// A step without events that succeeds.
pub open spec fn quiet(state: OpenAiState) -> OpenAiStep {
    OpenAiStep { state, events: Seq::empty(), result: Ok(()) }
}

/// `second` after `first`, whose events come before.
pub open spec fn after(first: OpenAiStep, second: OpenAiStep) -> OpenAiStep {
    if first.result is Err {
        first
    } else {
        OpenAiStep {
            state: second.state,
            events: first.events + second.events,
            result: second.result,
        }
    }
}

/// The response id that a chunk repeats.
pub open spec fn id_step(st: OpenAiState, value: JsonView) -> OpenAiStep {
    match json::text_member(value, "id"@) {
        Some(id) => {
            let (merged, result) = fields::merge_spec(
                st.response_id,
                id,
                "streamed response id"@,
                " changed during the response"@,
            );
            OpenAiStep {
                state: OpenAiState { response_id: merged, ..st },
                events: Seq::empty(),
                result,
            }
        },
        None => quiet(st),
    }
}

/// The usage report of a chunk; its counters never regress.
pub open spec fn usage_step(st: OpenAiState, value: JsonView) -> OpenAiStep {
    match json::member(value, "usage"@) {
        Some(usage) => if usage is Null {
            quiet(st)
        } else {
            let next = usage_spec(usage);
            if st.usage_seen && next.regressed_from(st.usage) {
                fail(st, "OpenAI stream usage counters regressed"@)
            } else {
                OpenAiStep {
                    state: OpenAiState { usage: next, usage_seen: true, ..st },
                    events: seq![StreamEventView::UsageUpdate { usage: next }],
                    result: Ok(()),
                }
            }
        },
        None => quiet(st),
    }
}

/// The finish reason of a choice, which comes once.
pub open spec fn reason_step(st: OpenAiState, choice: JsonView) -> OpenAiStep {
    match json::text_member(choice, "finish_reason"@) {
        Some(reason) => {
            let next = OpenAiState { finish_reason: Some(finish_reason_spec(Some(reason))), ..st };
            if st.finish_reason is Some {
                fail(next, "OpenAI stream emitted more than one finish reason"@)
            } else {
                quiet(next)
            }
        },
        None => quiet(st),
    }
}

/// The text of a delta.
pub open spec fn content_step(st: OpenAiState, delta: JsonView) -> OpenAiStep {
    match json::text_member(delta, "content"@) {
        Some(t) => if text::utf8_len(st.text) + text::utf8_len(t) > MAX_STREAM_TEXT_BYTES {
            OpenAiStep {
                state: st,
                events: Seq::empty(),
                result: Err(ModelFault::ResponseTooLarge { limit: MAX_STREAM_TEXT_BYTES }),
            }
        } else {
            OpenAiStep {
                state: OpenAiState { text: st.text + t, ..st },
                events: if t.len() > 0 {
                    seq![StreamEventView::TextDelta { text: t }]
                } else {
                    Seq::empty()
                },
                result: Ok(()),
            }
        },
        None => quiet(st),
    }
}

/// One piece of a tool call.
pub open spec fn tool_delta_step(st: OpenAiState, value: JsonView) -> OpenAiStep {
    match json::u64_member(value, "index"@) {
        None => fail(st, "streamed tool call is missing its index"@),
        Some(n) => if n > usize::MAX {
            fail(st, "streamed tool call index is too large"@)
        } else if n >= MAX_TOOL_CALLS {
            fail(
                st,
                "streamed tool call index exceeds the "@ + text::decimal(MAX_TOOL_CALLS as nat)
                    + "-call limit"@,
            )
        } else {
            let call = if st.tool_calls.contains_key(n as nat) {
                st.tool_calls[n as nat]
            } else {
                PartialView::fresh()
            };
            let s = partial_spec(call, value, n as nat);
            OpenAiStep {
                state: OpenAiState {
                    tool_calls: st.tool_calls.insert(n as nat, s.call),
                    ..st
                },
                events: s.events,
                result: s.result,
            }
        },
    }
}

/// The pieces of tool calls from piece `i` on.
pub open spec fn tool_deltas_step(st: OpenAiState, calls: Seq<JsonView>, i: int) -> OpenAiStep
    decreases calls.len() - i,
{
    if i < 0 || i >= calls.len() {
        quiet(st)
    } else {
        let first = tool_delta_step(st, calls[i]);
        after(first, tool_deltas_step(first.state, calls, i + 1))
    }
}

/// The delta of a choice.
pub open spec fn delta_step(st: OpenAiState, delta: JsonView) -> OpenAiStep {
    let first = content_step(st, delta);
    after(
        first,
        match json::array_member(delta, "tool_calls"@) {
            Some(calls) => tool_deltas_step(first.state, calls, 0),
            None => quiet(first.state),
        },
    )
}

/// The one choice of a chunk.
pub open spec fn choice_step(st: OpenAiState, choice: JsonView) -> OpenAiStep {
    if fields::number_spec(choice, "index"@) != 0 {
        fail(st, "OpenAI stream returned a non-zero choice index"@)
    } else {
        let first = reason_step(st, choice);
        after(
            first,
            match json::member(choice, "delta"@) {
                Some(delta) => delta_step(first.state, delta),
                None => quiet(first.state),
            },
        )
    }
}

/// The choices of a chunk: none or one.
pub open spec fn choices_step(st: OpenAiState, value: JsonView) -> OpenAiStep {
    match json::array_member(value, "choices"@) {
        None => fail(st, "OpenAI stream chunk is missing choices"@),
        Some(choices) => if choices.len() > 1 {
            fail(st, "OpenAI stream returned more than one choice"@)
        } else if choices.len() == 0 {
            quiet(st)
        } else {
            choice_step(st, choices[0])
        },
    }
}

/// What a chunk, which reports no error, does.
pub open spec fn chunk_step(st: OpenAiState, value: JsonView) -> OpenAiStep {
    let first = id_step(st, value);
    let second = usage_step(first.state, value);
    after(first, after(second, choices_step(second.state, value)))
}

/// The message of an error that a stream reports.
pub open spec fn stream_error(data: Seq<char>) -> ModelFault {
    ModelFault::Provider {
        status: 200,
        message: driver::error_message_spec(
            driver::parsed_value(json::json_parse_bytes(encode_utf8(data))),
            text::lossy_view(encode_utf8(data)),
            1000,
        ),
    }
}

/// What an event, whose data have been parsed, does. The fault is the one that its
/// data tell, if they tell one.
pub open spec fn event_step(
    st: OpenAiState,
    event: SseEventView,
    parsed: Result<JsonView, Seq<char>>,
    told: ModelFault,
) -> OpenAiStep {
    if st.done {
        fail(st, "OpenAI stream emitted data after [DONE]"@)
    } else if event.data == "[DONE]"@ {
        quiet(OpenAiState { done: true, ..st })
    } else if event.event == Some("error"@) {
        OpenAiStep { state: st, events: Seq::empty(), result: Err(told) }
    } else {
        match parsed {
            Err(m) => OpenAiStep {
                state: st,
                events: Seq::empty(),
                result: Err(ModelFault::Json(m)),
            },
            Ok(value) => if json::member(value, "error"@) is Some {
                OpenAiStep { state: st, events: Seq::empty(), result: Err(told) }
            } else {
                chunk_step(st, value)
            },
        }
    }
}

impl OpenAiStreamAccumulator {
    /// Whether the numbers of the tool calls are within the limit.
    pub open spec fn valid(self) -> bool {
        self.deep_view().valid()
    }

    /// An accumulator of which nothing has arrived.
    pub fn new() -> (r: OpenAiStreamAccumulator)
        ensures
            r.deep_view() == OpenAiState::fresh(),
            r.valid(),
    {
        let r = OpenAiStreamAccumulator {
            response_id: None,
            text: String::new(),
            tool_calls: Slots::new(),
            finish_reason: None,
            usage: Usage::default(),
            usage_seen: false,
            done: false,
        };
        assert(r.deep_view().tool_calls =~= Map::<nat, PartialView>::empty());
        r
    }

    /// Takes one event of the stream.
    pub fn apply(&mut self, event: &SseEvent, log: &mut Vec<ModelStreamEvent>) -> (r: Result<
        (),
        ModelError,
    >)
        requires
            old(self).valid(),
        ensures
            final(self).valid(),
            ({
                let s = event_step(
                    old(self).deep_view(),
                    event.deep_view(),
                    json::json_parse(event.data@),
                    stream_error(event.data@),
                );
                &&& final(self).deep_view() == s.state
                &&& final(log).deep_view() == old(log).deep_view() + s.events
                &&& outcome::of(r) == s.result
            }),
    {
        let ghost log0 = log.deep_view();
        assert(log0 + Seq::<StreamEventView>::empty() =~= log0);
        if self.done {
            return Err(ModelError::malformed("OpenAI stream emitted data after [DONE]"));
        }
        if text::same(event.data.as_str(), "[DONE]") {
            self.done = true;
            return Ok(());
        }
        if let Some(name) = &event.event {
            if text::same(name.as_str(), "error") {
                return Err(
                    ModelError::Provider {
                        status: 200,
                        message: driver::provider_message(event.data.as_str().as_bytes()),
                    },
                );
            }
        }
        let value = match Json::parse(event.data.as_str()) {
            Ok(value) => value,
            Err(m) => {
                return Err(ModelError::Json(m));
            },
        };
        if value.get("error").is_some() {
            return Err(
                ModelError::Provider {
                    status: 200,
                    message: driver::provider_message(event.data.as_str().as_bytes()),
                },
            );
        }
        self.apply_chunk(&value, log)
    }

    /// Takes the value of one chunk, which reports no error.
    pub fn apply_chunk(&mut self, value: &Json, log: &mut Vec<ModelStreamEvent>) -> (r: Result<
        (),
        ModelError,
    >)
        requires
            old(self).valid(),
        ensures
            final(self).valid(),
            ({
                let s = chunk_step(old(self).deep_view(), value.deep_view());
                &&& final(self).deep_view() == s.state
                &&& final(log).deep_view() == old(log).deep_view() + s.events
                &&& outcome::of(r) == s.result
            }),
    {
        let ghost log0 = log.deep_view();
        let ghost st0 = self.deep_view();
        let ghost v = value.deep_view();
        let ghost first = id_step(st0, v);
        let ghost second = usage_step(first.state, v);
        assert(log0 + Seq::<StreamEventView>::empty() =~= log0);
        if let Some(id) = value.text_member("id") {
            fields::merge_identifier(
                &mut self.response_id,
                id,
                "streamed response id",
                " changed during the response",
            )?;
        }
        assert(self.deep_view() == first.state);
        if let Some(usage) = value.get("usage") {
            if !usage.is_null() {
                let next = openai_usage(usage);
                if self.usage_seen && next.regressed(self.usage) {
                    return Err(ModelError::malformed("OpenAI stream usage counters regressed"));
                }
                self.usage = next;
                self.usage_seen = true;
                log.push(ModelStreamEvent::UsageUpdate { usage: next });
            }
        }
        assert(self.deep_view() == second.state);
        assert(log.deep_view() =~= log0 + second.events);
        let choices = match value.array_member("choices") {
            Some(choices) => choices,
            None => {
                assert(log.deep_view() =~= log0 + chunk_step(st0, v).events);
                return Err(ModelError::malformed("OpenAI stream chunk is missing choices"));
            },
        };
        assert(choices.deep_view().len() == choices@.len());
        if choices.len() > 1 {
            assert(log.deep_view() =~= log0 + chunk_step(st0, v).events);
            return Err(ModelError::malformed("OpenAI stream returned more than one choice"));
        }
        if choices.len() == 0 {
            assert(log.deep_view() =~= log0 + chunk_step(st0, v).events);
            return Ok(());
        }
        assert(choices.deep_view()[0] == choices@[0].deep_view());
        let r = self.apply_choice(&choices[0], log);
        assert(log.deep_view() =~= log0 + chunk_step(st0, v).events);
        r
    }

    /// Takes the one choice of a chunk.
    fn apply_choice(&mut self, choice: &Json, log: &mut Vec<ModelStreamEvent>) -> (r: Result<
        (),
        ModelError,
    >)
        requires
            old(self).valid(),
        ensures
            final(self).valid(),
            ({
                let s = choice_step(old(self).deep_view(), choice.deep_view());
                &&& final(self).deep_view() == s.state
                &&& final(log).deep_view() == old(log).deep_view() + s.events
                &&& outcome::of(r) == s.result
            }),
    {
        let ghost log0 = log.deep_view();
        let ghost st0 = self.deep_view();
        let ghost v = choice.deep_view();
        assert(log0 + Seq::<StreamEventView>::empty() =~= log0);
        if fields::number(choice, "index") != 0 {
            return Err(ModelError::malformed("OpenAI stream returned a non-zero choice index"));
        }
        if let Some(reason) = choice.text_member("finish_reason") {
            let known = self.finish_reason.is_some();
            self.finish_reason = Some(openai_finish_reason(Some(reason)));
            if known {
                return Err(
                    ModelError::malformed("OpenAI stream emitted more than one finish reason"),
                );
            }
        }
        let ghost first = reason_step(st0, v);
        assert(self.deep_view() == first.state);
        let delta = match choice.get("delta") {
            Some(delta) => delta,
            None => {
                assert(log.deep_view() =~= log0 + choice_step(st0, v).events);
                return Ok(());
            },
        };
        let ghost d = delta.deep_view();
        let ghost content = content_step(first.state, d);
        if let Some(fragment) = delta.text_member("content") {
            fields::append_text(&mut self.text, fragment, MAX_STREAM_TEXT_BYTES)?;
            if !fragment.is_empty() {
                log.push(ModelStreamEvent::TextDelta { text: fragment.to_owned() });
            }
        }
        assert(self.deep_view() == content.state);
        assert(log.deep_view() =~= log0 + content.events);
        let calls = match delta.array_member("tool_calls") {
            Some(calls) => calls,
            None => {
                assert(log.deep_view() =~= log0 + choice_step(st0, v).events);
                return Ok(());
            },
        };
        let ghost all = calls.deep_view();
        let ghost goal = tool_deltas_step(content.state, all, 0);
        let mut i: usize = 0;
        let ghost mut seen: Seq<StreamEventView> = Seq::empty();
        while i < calls.len()
            invariant
                i <= calls@.len(),
                all == calls.deep_view(),
                all.len() == calls@.len(),
                self.valid(),
                goal == tool_deltas_step(content.state, all, 0),
                ({
                    let rest = tool_deltas_step(self.deep_view(), all, i as int);
                    &&& goal.state == rest.state
                    &&& goal.result == rest.result
                    &&& goal.events == seen + rest.events
                }),
                log.deep_view() == log0 + content.events + seen,
                choice_step(st0, v) == after(first, after(content, goal)),
                first.result is Ok,
                first.events == Seq::<StreamEventView>::empty(),
                content.result is Ok,
                st0 == old(self).deep_view(),
                v == choice.deep_view(),
                log0 == old(log).deep_view(),
            decreases calls@.len() - i,
        {
            assert(all[i as int] == calls@[i as int].deep_view());
            let ghost before = self.deep_view();
            let ghost log_before = log.deep_view();
            let ghost step = tool_delta_step(before, all[i as int]);
            let r = self.apply_tool_delta(&calls[i], log);
            proof {
                let rest = tool_deltas_step(step.state, all, i + 1);
                assert(seen + (step.events + rest.events) =~= (seen + step.events) + rest.events);
                seen = seen + step.events;
                assert(log.deep_view() =~= log0 + content.events + seen);
            }
            if r.is_err() {
                proof {
                    assert(log.deep_view() =~= log0 + choice_step(st0, v).events);
                }
                return r;
            }
            i += 1;
        }
        proof {
            assert(goal.events =~= seen);
            assert(log.deep_view() =~= log0 + choice_step(st0, v).events);
        }
        Ok(())
    }

    /// Takes one piece of a tool call.
    pub fn apply_tool_delta(&mut self, value: &Json, log: &mut Vec<ModelStreamEvent>) -> (r:
        Result<(), ModelError>)
        requires
            old(self).valid(),
        ensures
            final(self).valid(),
            ({
                let s = tool_delta_step(old(self).deep_view(), value.deep_view());
                &&& final(self).deep_view() == s.state
                &&& final(log).deep_view() == old(log).deep_view() + s.events
                &&& outcome::of(r) == s.result
            }),
    {
        let ghost log0 = log.deep_view();
        let ghost st0 = self.deep_view();
        assert(log0 + Seq::<StreamEventView>::empty() =~= log0);
        let number: u64 = match value.u64_member("index") {
            Some(n) => n,
            None => {
                return Err(ModelError::malformed("streamed tool call is missing its index"));
            },
        };
        if number > usize::MAX as u64 {
            return Err(ModelError::malformed("streamed tool call index is too large"));
        }
        let index: usize = number as usize;
        if index >= MAX_TOOL_CALLS {
            return Err(
                ModelError::MalformedResponse(
                    text::concat3(
                        "streamed tool call index exceeds the ",
                        text::decimal_of(MAX_TOOL_CALLS).as_str(),
                        "-call limit",
                    ),
                ),
            );
        }
        let ghost calls0 = self.tool_calls@;
        let mut call = match self.tool_calls.take(index) {
            Some(call) => call,
            None => PartialToolCall::new(),
        };
        let r = call.take_piece(value, index, log);
        let ghost filled = call;
        self.tool_calls.put(index, call);
        proof {
            let s = tool_delta_step(st0, value.deep_view());
            assert(self.tool_calls@ =~= calls0.insert(index as nat, filled));
            assert(self.deep_view().tool_calls =~= s.state.tool_calls);
        }
        r
    }
}

impl Default for OpenAiStreamAccumulator {
    fn default() -> (r: Self)
        ensures
            r.deep_view() == OpenAiState::fresh(),
            r.valid(),
    {
        OpenAiStreamAccumulator::new()
    }
}


/// The complete call that a partial one, whose arguments have been parsed, makes.
pub open spec fn finish_call_spec(
    call: PartialView,
    parsed: Result<JsonView, Seq<char>>,
) -> Result<ToolCallView, ModelFault> {
    match call.id {
        None => Err(ModelFault::MalformedResponse("streamed tool call is missing its id"@)),
        Some(id) => match call.name {
            None => Err(ModelFault::MalformedResponse("streamed tool call is missing its name"@)),
            Some(name) => match parsed {
                Err(m) => Err(ModelFault::Json(m)),
                Ok(arguments) => if !(arguments is Object) {
                    Err(
                        ModelFault::MalformedResponse(
                            "streamed tool call arguments must be a JSON object"@,
                        ),
                    )
                } else {
                    Ok(ToolCallView { id, name, arguments, extensions: Map::empty() })
                },
            },
        },
    }
}

/// The complete call that a partial one, whose arguments have been parsed, makes.
pub fn finish_call(call: PartialToolCall, parsed: Result<Json, String>) -> (r: Result<
    ToolCall,
    ModelError,
>)
    ensures
        outcome::of(r) == finish_call_spec(call.deep_view(), outcome::of(parsed)),
{
    let id = match call.id {
        Some(id) => id,
        None => {
            return Err(ModelError::malformed("streamed tool call is missing its id"));
        },
    };
    let name = match call.name {
        Some(name) => name,
        None => {
            return Err(ModelError::malformed("streamed tool call is missing its name"));
        },
    };
    let arguments = match parsed {
        Ok(v) => v,
        Err(m) => {
            return Err(ModelError::Json(m));
        },
    };
    if !arguments.is_object() {
        return Err(ModelError::malformed("streamed tool call arguments must be a JSON object"));
    }
    Ok(ToolCall { id, name, arguments, extensions: JsonMap::new() })
}

/// The complete calls from number `k` on, behind the given ones. Their numbers must
/// follow one another.
pub open spec fn finish_calls_spec(
    calls: Map<nat, PartialView>,
    k: nat,
    done: Seq<ToolCallView>,
) -> Result<Seq<ToolCallView>, ModelFault>
    decreases MAX_TOOL_CALLS - k,
{
    if k >= MAX_TOOL_CALLS || !calls.contains_key(k) {
        if exists|j: nat| k <= j && calls.contains_key(j) {
            Err(
                ModelFault::MalformedResponse(
                    "OpenAI stream tool call indexes are not contiguous"@,
                ),
            )
        } else {
            Ok(done)
        }
    } else {
        match finish_call_spec(calls[k], json::json_parse(calls[k].arguments)) {
            Err(e) => Err(e),
            Ok(call) => finish_calls_spec(calls, k + 1, done.push(call)),
        }
    }
}

/// What a streamed response records beside its contents.
pub open spec fn stream_extensions(first_byte_ms: u64, id: Option<Seq<char>>) -> Map<
    Seq<char>,
    JsonView,
> {
    let m = Map::<Seq<char>, JsonView>::empty().insert("streaming"@, JsonView::Bool(true)).insert(
        "time_to_first_byte_ms"@,
        json::num(first_byte_ms as nat),
    );
    match id {
        Some(id) => m.insert("id"@, JsonView::Text(id)),
        None => m,
    }
}

/// The complete response that a stream makes, or why it makes none.
pub open spec fn finish_spec(
    st: OpenAiState,
    request_id: Option<Seq<char>>,
    first_byte_ms: u64,
) -> Result<ResponseView, ModelFault> {
    if !st.done {
        Err(ModelFault::MalformedResponse("OpenAI stream disconnected before [DONE]"@))
    } else {
        match st.finish_reason {
            None => Err(
                ModelFault::MalformedResponse("OpenAI stream is missing a finish reason"@),
            ),
            Some(finish_reason) => match finish_calls_spec(st.tool_calls, 0, Seq::empty()) {
                Err(e) => Err(e),
                Ok(tool_calls) => if finish_reason == FinishReason::ToolCalls && tool_calls.len()
                    == 0 {
                    Err(
                        ModelFault::MalformedResponse(
                            "OpenAI stream stopped for tool calls but returned none"@,
                        ),
                    )
                } else {
                    Ok(
                        ResponseView {
                            text: st.text,
                            tool_calls,
                            finish_reason,
                            usage: st.usage,
                            provider_request_id: request_id,
                            extensions: stream_extensions(first_byte_ms, st.response_id),
                        },
                    )
                },
            },
        }
    }
}

impl OpenAiStreamAccumulator {
    /// Ends the stream: the complete response, or why there is none.
    pub fn finish(self, request_id: Option<String>, first_byte_ms: u64) -> (r: Result<
        ModelResponse,
        ModelError,
    >)
        requires
            self.valid(),
        ensures
            outcome::of(r) == finish_spec(self.deep_view(), request_id.deep_view(), first_byte_ms),
    {
        let ghost st = self.deep_view();
        if !self.done {
            return Err(ModelError::malformed("OpenAI stream disconnected before [DONE]"));
        }
        let finish_reason = match self.finish_reason {
            Some(reason) => reason,
            None => {
                return Err(ModelError::malformed("OpenAI stream is missing a finish reason"));
            },
        };
        let mut calls = self.tool_calls;
        let ghost all = st.tool_calls;
        let mut tool_calls: Vec<ToolCall> = Vec::new();
        let mut k: usize = 0;
        assert(tool_calls.deep_view() =~= Seq::<ToolCallView>::empty());
        while k < MAX_TOOL_CALLS
            invariant_except_break
                k <= MAX_TOOL_CALLS,
            invariant
                self.valid(),
                st == self.deep_view(),
                all == st.tool_calls,
                st.done,
                st.finish_reason == Some(finish_reason),
                k <= MAX_TOOL_CALLS,
                forall|j: nat| k <= j ==> (calls@.contains_key(j) == all.contains_key(j)),
                forall|j: nat|
                    k <= j && all.contains_key(j) ==> calls@[j].deep_view() == #[trigger] all[j],
                finish_calls_spec(all, 0, Seq::empty()) == finish_calls_spec(
                    all,
                    k as nat,
                    tool_calls.deep_view(),
                ),
            ensures
                k >= MAX_TOOL_CALLS || !all.contains_key(k as nat),
            decreases MAX_TOOL_CALLS - k,
        {
            let call = match calls.take(k) {
                Some(call) => call,
                None => {
                    break ;
                },
            };
            assert(all.contains_key(k as nat));
            assert(call.deep_view() == all[k as nat]);
            let parsed = Json::parse(call.arguments.as_str());
            let ghost before = tool_calls.deep_view();
            let complete = finish_call(call, parsed)?;
            tool_calls.push(complete);
            assert(tool_calls.deep_view() =~= before.push(complete.deep_view()));
            k += 1;
        }
        assert(tool_calls.deep_view().len() == tool_calls@.len());
        if calls.any_from(k) {
            proof {
                let j = choose|j: nat| k <= j && calls@.contains_key(j);
                assert(all.contains_key(j));
            }
            return Err(
                ModelError::malformed("OpenAI stream tool call indexes are not contiguous"),
            );
        }
        assert(!exists|j: nat| k <= j && all.contains_key(j)) by {
            if exists|j: nat| k <= j && all.contains_key(j) {
                let j = choose|j: nat| k <= j && all.contains_key(j);
                assert(calls@.contains_key(j));
            }
        }
        if finish_reason == FinishReason::ToolCalls && tool_calls.len() == 0 {
            return Err(
                ModelError::malformed("OpenAI stream stopped for tool calls but returned none"),
            );
        }
        let mut extensions = JsonMap::new();
        extensions.insert("streaming", Json::boolean(true));
        extensions.insert("time_to_first_byte_ms", Json::number(first_byte_ms));
        if let Some(id) = self.response_id {
            extensions.insert("id", Json::string(id));
        }
        Ok(
            ModelResponse {
                text: self.text,
                tool_calls,
                finish_reason,
                usage: self.usage,
                provider_request_id: request_id,
                extensions,
            },
        )
    }
}

/// The call that a buffered response holds, whose arguments have been parsed.
pub open spec fn tool_call_spec(value: JsonView) -> Result<ToolCallView, ModelFault> {
    match json::text_member(value, "id"@) {
        None => Err(ModelFault::MalformedResponse("tool call is missing id"@)),
        Some(id) => match json::member(value, "function"@) {
            None => Err(ModelFault::MalformedResponse("tool call is missing function"@)),
            Some(function) => match json::text_member(function, "name"@) {
                None => Err(ModelFault::MalformedResponse("tool call is missing name"@)),
                Some(name) => match json::text_member(function, "arguments"@) {
                    None => Err(ModelFault::MalformedResponse("tool call is missing arguments"@)),
                    Some(arguments) => match json::json_parse(arguments) {
                        Err(m) => Err(ModelFault::Json(m)),
                        Ok(arguments) => Ok(
                            ToolCallView { id, name, arguments, extensions: Map::empty() },
                        ),
                    },
                },
            },
        },
    }
}

/// Reads the call that a buffered response holds.
pub fn parse_tool_call(value: &Json) -> (r: Result<ToolCall, ModelError>)
    ensures
        outcome::of(r) == tool_call_spec(value.deep_view()),
{
    let id = match value.text_member("id") {
        Some(id) => id,
        None => {
            return Err(ModelError::malformed("tool call is missing id"));
        },
    };
    let function = match value.get("function") {
        Some(function) => function,
        None => {
            return Err(ModelError::malformed("tool call is missing function"));
        },
    };
    let name = match function.text_member("name") {
        Some(name) => name,
        None => {
            return Err(ModelError::malformed("tool call is missing name"));
        },
    };
    let arguments = match function.text_member("arguments") {
        Some(arguments) => arguments,
        None => {
            return Err(ModelError::malformed("tool call is missing arguments"));
        },
    };
    match Json::parse(arguments) {
        Ok(arguments) => Ok(
            ToolCall {
                id: id.to_owned(),
                name: name.to_owned(),
                arguments,
                extensions: JsonMap::new(),
            },
        ),
        Err(m) => Err(ModelError::Json(m)),
    }
}

/// The calls that a buffered response holds; the first that is malformed counts.
pub open spec fn tool_calls_spec(values: Seq<JsonView>) -> Result<Seq<ToolCallView>, ModelFault>
    decreases values.len(),
{
    if values.len() == 0 {
        Ok(Seq::empty())
    } else {
        match tool_calls_spec(values.drop_last()) {
            Err(e) => Err(e),
            Ok(before) => match tool_call_spec(values.last()) {
                Err(e) => Err(e),
                Ok(call) => Ok(before.push(call)),
            },
        }
    }
}

proof fn lemma_tool_calls_err(values: Seq<JsonView>, i: int)
    requires
        0 <= i <= values.len(),
        tool_calls_spec(values.take(i)) is Err,
    ensures
        tool_calls_spec(values) == tool_calls_spec(values.take(i)),
    decreases values.len() - i,
{
    if i == values.len() {
        assert(values.take(i) =~= values);
    } else {
        assert(values.take(i + 1).drop_last() =~= values.take(i));
        lemma_tool_calls_err(values, i + 1);
    }
}

fn parse_tool_calls(values: &Vec<Json>) -> (r: Result<Vec<ToolCall>, ModelError>)
    ensures
        outcome::of(r) == tool_calls_spec(values.deep_view()),
{
    let ghost all = values.deep_view();
    let mut out: Vec<ToolCall> = Vec::new();
    let mut i: usize = 0;
    assert(all.take(0) =~= Seq::<JsonView>::empty());
    assert(out.deep_view() =~= Seq::<ToolCallView>::empty());
    while i < values.len()
        invariant
            i <= values@.len(),
            all == values.deep_view(),
            all.len() == values@.len(),
            tool_calls_spec(all.take(i as int)) == Ok::<Seq<ToolCallView>, ModelFault>(
                out.deep_view(),
            ),
        decreases values@.len() - i,
    {
        let ghost before = out.deep_view();
        assert(all[i as int] == values@[i as int].deep_view());
        assert(all.take(i as int + 1).drop_last() =~= all.take(i as int));
        assert(all.take(i as int + 1).last() == all[i as int]);
        match parse_tool_call(&values[i]) {
            Ok(call) => {
                out.push(call);
                assert(out.deep_view() =~= before.push(call.deep_view()));
            },
            Err(e) => {
                proof {
                    lemma_tool_calls_err(all, i as int + 1);
                }
                return Err(e);
            },
        }
        i += 1;
    }
    assert(all.take(all.len() as int) =~= all);
    Ok(out)
}

/// The members of `value` with the given names, as far as it has them.
pub open spec fn kept_members(value: JsonView, keys: Seq<Seq<char>>) -> Map<Seq<char>, JsonView>
    decreases keys.len(),
{
    if keys.len() == 0 {
        Map::empty()
    } else {
        let before = kept_members(value, keys.drop_last());
        match json::member(value, keys.last()) {
            Some(v) => before.insert(keys.last(), v),
            None => before,
        }
    }
}

/// Copies the member `key`, if there is one.
pub(crate) fn keep_member(target: &mut JsonMap, value: &Json, key: &str)
    ensures
        final(target).deep_view() == (match json::member(value.deep_view(), key@) {
            Some(v) => old(target).deep_view().insert(key@, v),
            None => old(target).deep_view(),
        }),
{
    if let Some(v) = value.get(key) {
        target.insert(key, v.clone());
    }
}

/// What a buffered response records beside its contents.
pub open spec fn response_extensions(value: JsonView) -> Map<Seq<char>, JsonView> {
    kept_members(value, seq!["id"@, "created"@, "system_fingerprint"@])
}

/// The response that a buffered reply stands for, or why it stands for none.
pub open spec fn response_spec(value: JsonView, request_id: Option<Seq<char>>) -> Result<
    ResponseView,
    ModelFault,
> {
    match json::array_member(value, "choices"@) {
        Some(choices) => if choices.len() == 0 {
            Err(ModelFault::MalformedResponse("missing choices[0]"@))
        } else {
            let choice = choices[0];
            match json::member(choice, "message"@) {
                None => Err(ModelFault::MalformedResponse("missing response message"@)),
                Some(message) => match (match json::array_member(message, "tool_calls"@) {
                    Some(calls) => tool_calls_spec(calls),
                    None => Ok(Seq::empty()),
                }) {
                    Err(e) => Err(e),
                    Ok(tool_calls) => Ok(
                        ResponseView {
                            text: match json::text_member(message, "content"@) {
                                Some(t) => t,
                                None => Seq::empty(),
                            },
                            tool_calls,
                            finish_reason: finish_reason_spec(
                                json::text_member(choice, "finish_reason"@),
                            ),
                            usage: match json::member(value, "usage"@) {
                                Some(u) => usage_spec(u),
                                None => Usage::zero(),
                            },
                            provider_request_id: request_id,
                            extensions: response_extensions(value),
                        },
                    ),
                },
            }
        },
        None => Err(ModelFault::MalformedResponse("missing choices[0]"@)),
    }
}

/// Reads a buffered reply.
pub fn parse_response(value: &Json, request_id: Option<String>) -> (r: Result<
    ModelResponse,
    ModelError,
>)
    ensures
        outcome::of(r) == response_spec(value.deep_view(), request_id.deep_view()),
{
    let choices = match value.array_member("choices") {
        Some(choices) => choices,
        None => {
            return Err(ModelError::malformed("missing choices[0]"));
        },
    };
    assert(choices.deep_view().len() == choices@.len());
    if choices.len() == 0 {
        return Err(ModelError::malformed("missing choices[0]"));
    }
    let choice = &choices[0];
    assert(choices.deep_view()[0] == choice.deep_view());
    let message = match choice.get("message") {
        Some(message) => message,
        None => {
            return Err(ModelError::malformed("missing response message"));
        },
    };
    let content = match message.text_member("content") {
        Some(t) => t.to_owned(),
        None => String::new(),
    };
    let tool_calls = match message.array_member("tool_calls") {
        Some(calls) => parse_tool_calls(calls)?,
        None => Vec::new(),
    };
    let finish_reason = openai_finish_reason(choice.text_member("finish_reason"));
    let usage = match value.get("usage") {
        Some(u) => openai_usage(u),
        None => Usage::default(),
    };
    let mut extensions = JsonMap::new();
    keep_member(&mut extensions, value, "id");
    keep_member(&mut extensions, value, "created");
    keep_member(&mut extensions, value, "system_fingerprint");
    proof {
        let v = value.deep_view();
        let keys = seq!["id"@, "created"@, "system_fingerprint"@];
        reveal_with_fuel(kept_members, 4);
        assert(keys.drop_last() =~= seq!["id"@, "created"@]);
        assert(keys.drop_last().drop_last() =~= seq!["id"@]);
        assert(keys.drop_last().drop_last().drop_last() =~= Seq::<Seq<char>>::empty());
        assert(extensions.deep_view() == response_extensions(v));
        if json::array_member(message.deep_view(), "tool_calls"@) is None {
            assert(tool_calls.deep_view() =~= Seq::<ToolCallView>::empty());
        }
    }
    Ok(
        ModelResponse {
            text: content,
            tool_calls,
            finish_reason,
            usage,
            provider_request_id: request_id,
            extensions,
        },
    )
}


/// Configuration for an `OpenAI` Chat Completions compatible endpoint. The
/// credential itself is not part of it.
#[derive(Debug)]
pub struct OpenAiCompatibleConfig {
    pub name: String,
    pub base_url: String,
    pub model: String,
    /// Longest time that a request may take, in nanoseconds.
    pub timeout_ns: u64,
    pub capabilities: ModelCapabilities,
    /// Use Chat Completions SSE instead of a buffered JSON response.
    pub stream: bool,
    /// Request the provider's non-thinking mode using the OpenAI-compatible
    /// `thinking.type=disabled` extension. This is opt-in because the field is
    /// not part of the core `OpenAI` Chat Completions schema.
    pub disable_thinking: bool,
}

/// An [`OpenAiCompatibleConfig`] by its texts.
pub struct ConfigView {
    pub name: Seq<char>,
    pub base_url: Seq<char>,
    pub model: Seq<char>,
    pub timeout_ns: u64,
    pub capabilities: ModelCapabilities,
    pub stream: bool,
    pub disable_thinking: bool,
}

impl DeepView for OpenAiCompatibleConfig {
    type V = ConfigView;

    open spec fn deep_view(&self) -> ConfigView {
        ConfigView {
            name: self.name@,
            base_url: self.base_url@,
            model: self.model@,
            timeout_ns: self.timeout_ns,
            capabilities: self.capabilities,
            stream: self.stream,
            disable_thinking: self.disable_thinking,
        }
    }
}

impl OpenAiCompatibleConfig {
    /// Creates a local Ollama configuration using its OpenAI-compatible endpoint.
    pub fn ollama(model: &str) -> (r: OpenAiCompatibleConfig)
        ensures
            r.deep_view().name == "ollama"@,
            r.deep_view().base_url == "http://127.0.0.1:11434/v1"@,
            r.deep_view().model == model@,
            r.timeout_ns == 300000000000,
            r.stream,
            !r.disable_thinking,
            r.capabilities == ModelCapabilities::usual(),
    {
        OpenAiCompatibleConfig {
            name: "ollama".to_owned(),
            base_url: "http://127.0.0.1:11434/v1".to_owned(),
            model: model.to_owned(),
            timeout_ns: 300000000000,
            capabilities: ModelCapabilities::default(),
            stream: true,
            disable_thinking: false,
        }
    }
}

/// Whether a configuration is refused, given the parts of its URL.
pub open spec fn config_spec(
    config: ConfigView,
    parsed: Result<endpoint::PartsView, Seq<char>>,
) -> Result<(), ModelFault> {
    match endpoint::endpoint_spec(
        parsed,
        "invalid provider endpoint: "@,
        "remote model endpoints must use HTTPS"@,
    ) {
        Err(e) => Err(e),
        Ok(_) => if !endpoint::is_named(config.name) || !endpoint::is_named(config.model) {
            Err(ModelFault::InvalidRequest("provider name and model cannot be empty"@))
        } else if config.timeout_ns == 0 {
            Err(ModelFault::InvalidRequest("provider timeout must be greater than zero"@))
        } else {
            Ok(())
        },
    }
}

/// Driver for Chat Completions compatible API and local endpoints.
#[derive(Debug)]
pub struct OpenAiCompatibleDriver {
    config: OpenAiCompatibleConfig,
}

impl DeepView for OpenAiCompatibleDriver {
    type V = ConfigView;

    closed spec fn deep_view(&self) -> ConfigView {
        self.config.deep_view()
    }
}

impl OpenAiCompatibleDriver {
    /// Builds a driver for a valid configuration.
    pub fn new(config: OpenAiCompatibleConfig) -> (r: Result<OpenAiCompatibleDriver, ModelError>)
        ensures
            match r {
                Ok(d) => config_spec(
                    config.deep_view(),
                    endpoint::url_parts(config.base_url@),
                ) is Ok && d.deep_view() == config.deep_view(),
                Err(e) => config_spec(config.deep_view(), endpoint::url_parts(config.base_url@))
                    == Err::<(), ModelFault>(e.deep_view()),
            },
    {
        let parsed = endpoint::parse_url(config.base_url.as_str());
        OpenAiCompatibleDriver::with_parts(config, &parsed)
    }

    /// Builds a driver for a valid configuration whose URL has been parsed.
    pub fn with_parts(
        config: OpenAiCompatibleConfig,
        parsed: &Result<endpoint::EndpointParts, String>,
    ) -> (r: Result<OpenAiCompatibleDriver, ModelError>)
        ensures
            match r {
                Ok(d) => config_spec(config.deep_view(), outcome::of(*parsed)) is Ok
                    && d.deep_view() == config.deep_view(),
                Err(e) => config_spec(config.deep_view(), outcome::of(*parsed)) == Err::<
                    (),
                    ModelFault,
                >(e.deep_view()),
            },
    {
        endpoint::check_endpoint(
            parsed,
            "invalid provider endpoint: ",
            "remote model endpoints must use HTTPS",
        )?;
        if !endpoint::has_name(config.name.as_str()) || !endpoint::has_name(config.model.as_str()) {
            return Err(ModelError::invalid("provider name and model cannot be empty"));
        }
        if config.timeout_ns == 0 {
            return Err(ModelError::invalid("provider timeout must be greater than zero"));
        }
        Ok(OpenAiCompatibleDriver { config })
    }

    /// The configuration.
    pub fn config(&self) -> (r: &OpenAiCompatibleConfig)
        ensures
            r.deep_view() == self.deep_view(),
    {
        &self.config
    }

    /// The URL that requests go to.
    pub fn endpoint(&self) -> (r: String)
        ensures
            r@ == endpoint::without_slashes(self.deep_view().base_url) + "/chat/completions"@,
    {
        text::concat2(
            endpoint::trim_slashes(self.config.base_url.as_str()).as_str(),
            "/chat/completions",
        )
    }
}

/// The name of a role.
pub open spec fn role_name(role: Role) -> Seq<char> {
    match role {
        Role::System => "system"@,
        Role::User => "user"@,
        Role::Assistant => "assistant"@,
    }
}

/// A message on the wire.
pub open spec fn message_json_spec(m: MessageView) -> JsonView {
    json::obj2(
        "role"@,
        JsonView::Text(role_name(m.role)),
        "content"@,
        JsonView::Text(m.content),
    )
}

/// A message on the wire.
pub fn message_json(message: &Message) -> (r: Json)
    ensures
        r.deep_view() == message_json_spec(message.deep_view()),
{
    let role = match message.role {
        Role::System => "system",
        Role::User => "user",
        Role::Assistant => "assistant",
    };
    Json::object2("role", Json::text(role), "content", Json::text(message.content.as_str()))
}

/// A tool call on the wire; its arguments are a text of JSON.
pub open spec fn call_json_spec(c: ToolCallView) -> JsonView {
    json::obj3(
        "id"@,
        JsonView::Text(c.id),
        "type"@,
        JsonView::Text("function"@),
        "function"@,
        json::obj2(
            "name"@,
            JsonView::Text(c.name),
            "arguments"@,
            JsonView::Text(json::json_text(c.arguments)),
        ),
    )
}

/// Tool calls on the wire.
pub open spec fn calls_json_spec(calls: Seq<ToolCallView>) -> Seq<JsonView> {
    Seq::new(calls.len(), |i: int| call_json_spec(calls[i]))
}

fn calls_json(calls: &Vec<ToolCall>) -> (r: Vec<Json>)
    ensures
        r.deep_view() == calls_json_spec(calls.deep_view()),
{
    let ghost all = calls.deep_view();
    let mut out: Vec<Json> = Vec::new();
    let mut i: usize = 0;
    while i < calls.len()
        invariant
            i <= calls@.len(),
            all == calls.deep_view(),
            all.len() == calls@.len(),
            out@.len() == i,
            forall|k: int|
                0 <= k < i ==> (#[trigger] out@[k]).deep_view() == call_json_spec(all[k]),
        decreases calls@.len() - i,
    {
        let call = &calls[i];
        assert(all[i as int] == call.deep_view());
        out.push(
            Json::object3(
                "id",
                Json::text(call.id.as_str()),
                "type",
                Json::text("function"),
                "function",
                Json::object2(
                    "name",
                    Json::text(call.name.as_str()),
                    "arguments",
                    Json::string(call.arguments.to_text()),
                ),
            ),
        );
        i += 1;
    }
    assert(out.deep_view() =~= calls_json_spec(all));
    out
}

/// A conversation item on the wire.
pub open spec fn item_json_spec(item: ItemView) -> Result<JsonView, ModelFault> {
    match item {
        ItemView::Message(m) => Ok(message_json_spec(m)),
        ItemView::UserContent(c) => Ok(
            json::obj2(
                "role"@,
                JsonView::Text("user"@),
                "content"@,
                JsonView::Array(attachments::content_parts(ImageWire::Chat, c)),
            ),
        ),
        ItemView::AssistantToolCalls { text, calls } => Ok(
            json::obj3(
                "role"@,
                JsonView::Text("assistant"@),
                "content"@,
                JsonView::Text(text),
                "tool_calls"@,
                JsonView::Array(calls_json_spec(calls)),
            ),
        ),
        ItemView::ToolResult(r) => Ok(
            json::obj4(
                "role"@,
                JsonView::Text("tool"@),
                "tool_call_id"@,
                JsonView::Text(r.call_id),
                "name"@,
                JsonView::Text(r.name),
                "content"@,
                JsonView::Text(json::json_text(r.content)),
            ),
        ),
    }
}

/// A conversation item on the wire.
pub fn conversation_json(item: &ConversationItem) -> (r: Result<Json, ModelError>)
    ensures
        outcome::of(r) == item_json_spec(item.deep_view()),
{
    match item {
        ConversationItem::Message(m) => Ok(message_json(m)),
        ConversationItem::UserContent(content) => Ok(
            Json::object2(
                "role",
                Json::text("user"),
                "content",
                Json::array(attachments::parts_json(ImageWire::Chat, content)),
            ),
        ),
        ConversationItem::AssistantToolCalls { text, calls } => Ok(
            Json::object3(
                "role",
                Json::text("assistant"),
                "content",
                Json::text(text.as_str()),
                "tool_calls",
                Json::array(calls_json(calls)),
            ),
        ),
        ConversationItem::ToolResult(result) => Ok(
            Json::object4(
                "role",
                Json::text("tool"),
                "tool_call_id",
                Json::text(result.call_id.as_str()),
                "name",
                Json::text(result.name.as_str()),
                "content",
                Json::string(result.content.to_text()),
            ),
        ),
    }
}

/// The items of a conversation on the wire, without the system messages.
pub open spec fn other_messages(conversation: Seq<ItemView>) -> Result<Seq<JsonView>, ModelFault>
    decreases conversation.len(),
{
    if conversation.len() == 0 {
        Ok(Seq::empty())
    } else {
        match other_messages(conversation.drop_last()) {
            Err(e) => Err(e),
            Ok(before) => if fields::is_system(conversation.last()) {
                Ok(before)
            } else {
                match item_json_spec(conversation.last()) {
                    Err(e) => Err(e),
                    Ok(v) => Ok(before.push(v)),
                }
            },
        }
    }
}

/// A conversation on the wire: all system instructions in one leading message, and
/// the other items in order.
pub open spec fn canonical_spec(conversation: Seq<ItemView>) -> Result<Seq<JsonView>, ModelFault> {
    match other_messages(conversation) {
        Err(e) => Err(e),
        Ok(messages) => {
            let systems = fields::system_texts(conversation);
            if systems.len() == 0 {
                Ok(messages)
            } else {
                Ok(
                    seq![
                        json::obj2(
                            "role"@,
                            JsonView::Text("system"@),
                            "content"@,
                            JsonView::Text(text::join_spec(systems, "\n\n"@)),
                        ),
                    ] + messages,
                )
            }
        },
    }
}

proof fn lemma_other_err(conversation: Seq<ItemView>, i: int)
    requires
        0 <= i <= conversation.len(),
        other_messages(conversation.take(i)) is Err,
    ensures
        other_messages(conversation) == other_messages(conversation.take(i)),
    decreases conversation.len() - i,
{
    if i == conversation.len() {
        assert(conversation.take(i) =~= conversation);
    } else {
        assert(conversation.take(i + 1).drop_last() =~= conversation.take(i));
        lemma_other_err(conversation, i + 1);
    }
}

/// A conversation on the wire.
pub fn canonical_messages(conversation: &Vec<ConversationItem>) -> (r: Result<
    Vec<Json>,
    ModelError,
>)
    ensures
        outcome::of(r) == canonical_spec(conversation.deep_view()),
{
    let ghost all = conversation.deep_view();
    let systems = fields::system_text(conversation);
    let mut messages: Vec<Json> = Vec::new();
    let mut i: usize = 0;
    assert(all.take(0) =~= Seq::<ItemView>::empty());
    assert(messages.deep_view() =~= Seq::<JsonView>::empty());
    while i < conversation.len()
        invariant
            i <= conversation@.len(),
            all == conversation.deep_view(),
            all.len() == conversation@.len(),
            other_messages(all.take(i as int)) == Ok::<Seq<JsonView>, ModelFault>(
                messages.deep_view(),
            ),
        decreases conversation@.len() - i,
    {
        let ghost before = messages.deep_view();
        let item = &conversation[i];
        assert(all[i as int] == item.deep_view());
        assert(all.take(i as int + 1).drop_last() =~= all.take(i as int));
        assert(all.take(i as int + 1).last() == all[i as int]);
        let system = match item {
            ConversationItem::Message(m) => m.role == Role::System,
            _ => false,
        };
        if !system {
            match conversation_json(item) {
                Ok(v) => {
                    messages.push(v);
                    assert(messages.deep_view() =~= before.push(v.deep_view()));
                },
                Err(e) => {
                    proof {
                        lemma_other_err(all, i as int + 1);
                    }
                    return Err(e);
                },
            }
        }
        i += 1;
    }
    assert(all.take(all.len() as int) =~= all);
    assert(systems.deep_view().len() == systems@.len());
    assert(text::views(systems@) =~= systems.deep_view());
    if systems.len() > 0 {
        let ghost before = messages.deep_view();
        let lead = Json::object2(
            "role",
            Json::text("system"),
            "content",
            Json::string(text::join(&systems, "\n\n")),
        );
        let ghost lead_view = lead.deep_view();
        messages.insert(0, lead);
        assert(messages.deep_view() =~= seq![lead_view] + before);
    }
    Ok(messages)
}

/// Whether an item of a wire conversation is a system message.
pub open spec fn is_system_message(v: JsonView) -> bool {
    json::text_member(v, "role"@) == Some("system"@)
}

/// A tool on the wire.
pub open spec fn tool_json_spec(t: DescriptorView) -> JsonView {
    json::obj2(
        "type"@,
        JsonView::Text("function"@),
        "function"@,
        json::obj3(
            "name"@,
            JsonView::Text(t.name),
            "description"@,
            JsonView::Text(t.description),
            "parameters"@,
            t.input_schema,
        ),
    )
}

/// The tools of a request on the wire.
pub open spec fn tools_json_spec(tools: Seq<DescriptorView>) -> Seq<JsonView> {
    Seq::new(tools.len(), |i: int| tool_json_spec(tools[i]))
}

fn tools_json(tools: &Vec<ToolDescriptor>) -> (r: Vec<Json>)
    ensures
        r.deep_view() == tools_json_spec(tools.deep_view()),
{
    let ghost all = tools.deep_view();
    let mut out: Vec<Json> = Vec::new();
    let mut i: usize = 0;
    while i < tools.len()
        invariant
            i <= tools@.len(),
            all == tools.deep_view(),
            all.len() == tools@.len(),
            out@.len() == i,
            forall|k: int|
                0 <= k < i ==> (#[trigger] out@[k]).deep_view() == tool_json_spec(all[k]),
        decreases tools@.len() - i,
    {
        let tool = &tools[i];
        assert(all[i as int] == tool.deep_view());
        out.push(
            Json::object2(
                "type",
                Json::text("function"),
                "function",
                Json::object3(
                    "name",
                    Json::text(tool.name.as_str()),
                    "description",
                    Json::text(tool.description.as_str()),
                    "parameters",
                    tool.input_schema.clone(),
                ),
            ),
        );
        i += 1;
    }
    assert(out.deep_view() =~= tools_json_spec(all));
    out
}

/// The fault of a request that asks for too many output tokens, or for none.
pub open spec fn output_limit_fault(limit: u64) -> ModelFault {
    ModelFault::InvalidRequest(
        "max_output_tokens must be between 1 and "@ + text::decimal(limit as nat),
    )
}

/// The body of a request before its temperature.
pub open spec fn plain_body(
    config: ConfigView,
    messages: Seq<JsonView>,
    tools: Seq<DescriptorView>,
    max_output_tokens: u64,
) -> JsonView {
    let base = json::obj4(
        "model"@,
        JsonView::Text(config.model),
        "messages"@,
        JsonView::Array(messages),
        "max_tokens"@,
        json::num(max_output_tokens as nat),
        "stream"@,
        JsonView::Bool(config.stream),
    );
    let streaming = if config.stream {
        json::with_member(
            base,
            "stream_options"@,
            json::obj1("include_usage"@, JsonView::Bool(true)),
        )
    } else {
        base
    };
    let thinking = if config.disable_thinking {
        json::with_member(
            streaming,
            "thinking"@,
            json::obj1("type"@, JsonView::Text("disabled"@)),
        )
    } else {
        streaming
    };
    if tools.len() > 0 {
        json::with_member(
            json::with_member(thinking, "tools"@, JsonView::Array(tools_json_spec(tools))),
            "tool_choice"@,
            JsonView::Text("auto"@),
        )
    } else {
        thinking
    }
}

/// The body of a request before its size is checked, or why it is refused.
pub open spec fn unmeasured_spec(
    config: ConfigView,
    conversation: Seq<ItemView>,
    tools: Seq<DescriptorView>,
    max_output_tokens: u64,
    temperature: Temperature,
) -> Result<JsonView, ModelFault> {
    if conversation.len() == 0 {
        Err(ModelFault::InvalidRequest("at least one message is required"@))
    } else if max_output_tokens == 0 || max_output_tokens > config.capabilities.max_output_tokens {
        Err(output_limit_fault(config.capabilities.max_output_tokens))
    } else {
        match requests::images_spec(conversation, config.capabilities.vision) {
            Err(m) => Err(ModelFault::InvalidRequest(m)),
            Ok(_) => {
                match canonical_spec(conversation) {
                    Err(e) => Err(e),
                    Ok(messages) => {
                        let body = plain_body(config, messages, tools, max_output_tokens);
                        match temperature {
                            Temperature::Unset => Ok(body),
                            Temperature::OutOfRange => Err(
                                ModelFault::InvalidRequest("temperature must be between 0 and 2"@),
                            ),
                            Temperature::Value(n) => Ok(
                                json::with_member(
                                    body,
                                    "temperature"@,
                                    JsonView::Number(json::number_view(n)),
                                ),
                            ),
                        }
                    },
                }
            },
        }
    }
}

/// The body of a request, or why it is refused.
pub open spec fn body_spec(
    config: ConfigView,
    conversation: Seq<ItemView>,
    tools: Seq<DescriptorView>,
    max_output_tokens: u64,
    temperature: Temperature,
) -> Result<JsonView, ModelFault> {
    requests::measured(unmeasured_spec(config, conversation, tools, max_output_tokens, temperature))
}

/// The body of a request before its size is checked.
pub fn unmeasured_body(config: &OpenAiCompatibleConfig, request: &ModelRequest) -> (r: Result<
    Json,
    ModelError,
>)
    ensures
        outcome::of(r) == unmeasured_spec(
            config.deep_view(),
            request.conversation.deep_view(),
            request.tools.deep_view(),
            request.max_output_tokens,
            request.temperature,
        ),
{
    assert(request.conversation.deep_view().len() == request.conversation@.len());
    assert(request.tools.deep_view().len() == request.tools@.len());
    if request.conversation.len() == 0 {
        return Err(ModelError::invalid("at least one message is required"));
    }
    if request.max_output_tokens == 0 || request.max_output_tokens
        > config.capabilities.max_output_tokens {
        return Err(
            ModelError::InvalidRequest(
                text::concat2(
                    "max_output_tokens must be between 1 and ",
                    text::decimal_text(config.capabilities.max_output_tokens).as_str(),
                ),
            ),
        );
    }
    match requests::validate_request_images(&request.conversation, config.capabilities.vision) {
        Ok(_) => {},
        Err(m) => {
            return Err(ModelError::InvalidRequest(m));
        },
    }
    let messages = canonical_messages(&request.conversation)?;
    let mut body = Json::object4(
        "model",
        Json::text(config.model.as_str()),
        "messages",
        Json::array(messages),
        "max_tokens",
        Json::number(request.max_output_tokens),
        "stream",
        Json::boolean(config.stream),
    );
    if config.stream {
        body.set_member("stream_options", Json::object1("include_usage", Json::boolean(true)));
    }
    if config.disable_thinking {
        body.set_member("thinking", Json::object1("type", Json::text("disabled")));
    }
    if request.tools.len() > 0 {
        body.set_member("tools", Json::array(tools_json(&request.tools)));
        body.set_member("tool_choice", Json::text("auto"));
    }
    match &request.temperature {
        Temperature::Unset => {},
        Temperature::OutOfRange => {
            return Err(ModelError::invalid("temperature must be between 0 and 2"));
        },
        Temperature::Value(n) => {
            body.set_member("temperature", Json::numeric(n.clone()));
        },
    }
    Ok(body)
}

/// The body of a request.
pub fn request_body(config: &OpenAiCompatibleConfig, request: &ModelRequest) -> (r: Result<
    Json,
    ModelError,
>)
    ensures
        outcome::of(r) == body_spec(
            config.deep_view(),
            request.conversation.deep_view(),
            request.tools.deep_view(),
            request.max_output_tokens,
            request.temperature,
        ),
{
    let body = unmeasured_body(config, request)?;
    requests::measure(body)
}


/// The events of a stream from event `i` on.
pub open spec fn events_step(st: OpenAiState, events: Seq<SseEventView>, i: int) -> OpenAiStep
    decreases events.len() - i,
{
    if i < 0 || i >= events.len() {
        quiet(st)
    } else {
        let first = event_step(
            st,
            events[i],
            json::json_parse(events[i].data),
            stream_error(events[i].data),
        );
        after(first, events_step(first.state, events, i + 1))
    }
}

/// A response stream from its first byte to its last.
pub struct OpenAiStream {
    meter: StreamMeter,
    decoder: SseDecoder,
    accumulator: OpenAiStreamAccumulator,
    request_id: Option<String>,
}

/// What a stream has brought so far.
pub struct OpenAiStreamView {
    pub meter: MeterView,
    pub decoder: SseState,
    pub accumulator: OpenAiState,
    pub request_id: Option<Seq<char>>,
}

impl DeepView for OpenAiStream {
    type V = OpenAiStreamView;

    closed spec fn deep_view(&self) -> OpenAiStreamView {
        OpenAiStreamView {
            meter: self.meter.deep_view(),
            decoder: self.decoder.deep_view(),
            accumulator: self.accumulator.deep_view(),
            request_id: self.request_id.deep_view(),
        }
    }
}

/// What a chunk that is within the size limit does to the decoder and the
/// accumulator.
pub open spec fn chunk_events_step(v: OpenAiStreamView, chunk: Seq<u8>) -> OpenAiStep {
    match sse::push_spec(v.decoder, chunk).1 {
        Err(e) => OpenAiStep {
            state: v.accumulator,
            events: Seq::empty(),
            result: Err(ModelFault::MalformedResponse(e.message_spec())),
        },
        Ok(events) => events_step(v.accumulator, events, 0),
    }
}

impl OpenAiStream {
    /// Whether the numbers of the tool calls are within the limit.
    pub open spec fn valid(self) -> bool {
        self.deep_view().accumulator.valid()
    }

    /// A stream that has not begun.
    pub fn new(request_id: Option<String>) -> (r: OpenAiStream)
        ensures
            r.valid(),
            r.deep_view() == (OpenAiStreamView {
                meter: MeterView::fresh(),
                decoder: SseState::fresh(),
                accumulator: OpenAiState::fresh(),
                request_id: request_id.deep_view(),
            }),
    {
        OpenAiStream {
            meter: StreamMeter::new(),
            decoder: SseDecoder::new(),
            accumulator: OpenAiStreamAccumulator::new(),
            request_id,
        }
    }

    /// Takes the next chunk, which arrived after the given time, and logs what it
    /// brings.
    pub fn push(&mut self, chunk: &[u8], elapsed_ms: u64, log: &mut Vec<ModelStreamEvent>) -> (r:
        Result<(), ModelError>)
        requires
            old(self).valid(),
        ensures
            final(self).valid(),
            final(self).deep_view().request_id == old(self).deep_view().request_id,
            ({
                let v = old(self).deep_view();
                if v.meter.wire_bytes + chunk@.len() > transport::MAX_RESPONSE_BYTES {
                    &&& outcome::of(r) == Err::<(), ModelFault>(
                        ModelFault::ResponseTooLarge { limit: transport::MAX_RESPONSE_BYTES },
                    )
                    &&& final(log).deep_view() == old(log).deep_view()
                    &&& final(self).deep_view().accumulator == v.accumulator
                    &&& final(self).deep_view().decoder == v.decoder
                } else {
                    let s = chunk_events_step(v, chunk@);
                    &&& final(self).deep_view().meter == transport::admitted(
                        v.meter,
                        chunk@.len(),
                        elapsed_ms,
                    )
                    &&& final(self).deep_view().decoder == sse::push_spec(v.decoder, chunk@).0
                    &&& final(self).deep_view().accumulator == s.state
                    &&& final(log).deep_view() == old(log).deep_view() + transport::start_events(
                        v.meter,
                        chunk@.len(),
                        elapsed_ms,
                        v.request_id,
                    ) + s.events
                    &&& outcome::of(r) == s.result
                }
            }),
    {
        let ghost v = self.deep_view();
        self.meter.count_chunk(chunk.len(), elapsed_ms, &self.request_id, log)?;
        let ghost log0 = log.deep_view();
        assert(log0 + Seq::<StreamEventView>::empty() =~= log0);
        let events = match self.decoder.push(chunk) {
            Ok(events) => events,
            Err(e) => {
                return Err(ModelError::malformed(e.message()));
            },
        };
        let ghost all = events.deep_view();
        let ghost goal = events_step(v.accumulator, all, 0);
        let ghost mut seen: Seq<StreamEventView> = Seq::empty();
        let ghost meter = self.meter.deep_view();
        let ghost decoder = self.decoder.deep_view();
        let mut i: usize = 0;
        while i < events.len()
            invariant
                i <= events@.len(),
                all == events.deep_view(),
                all.len() == events@.len(),
                self.valid(),
                self.meter.deep_view() == meter,
                self.decoder.deep_view() == decoder,
                self.request_id.deep_view() == v.request_id,
                ({
                    let rest = events_step(self.accumulator.deep_view(), all, i as int);
                    &&& goal.state == rest.state
                    &&& goal.result == rest.result
                    &&& goal.events == seen + rest.events
                }),
                log.deep_view() == log0 + seen,
                v == old(self).deep_view(),
                v.meter.wire_bytes + chunk@.len() <= transport::MAX_RESPONSE_BYTES,
                meter == transport::admitted(v.meter, chunk@.len(), elapsed_ms),
                decoder == sse::push_spec(v.decoder, chunk@).0,
                sse::push_spec(v.decoder, chunk@).1 == Ok::<Seq<SseEventView>, sse::SseError>(all),
                goal == events_step(v.accumulator, all, 0),
                log0 == old(log).deep_view() + transport::start_events(
                    v.meter,
                    chunk@.len(),
                    elapsed_ms,
                    v.request_id,
                ),
            decreases events@.len() - i,
        {
            assert(all[i as int] == events@[i as int].deep_view());
            let ghost step = event_step(
                self.accumulator.deep_view(),
                all[i as int],
                json::json_parse(all[i as int].data),
                stream_error(all[i as int].data),
            );
            let r = self.accumulator.apply(&events[i], log);
            proof {
                let rest = events_step(step.state, all, i + 1);
                assert(seen + (step.events + rest.events) =~= (seen + step.events) + rest.events);
                seen = seen + step.events;
                assert(log.deep_view() =~= log0 + seen);
            }
            if r.is_err() {
                return r;
            }
            i += 1;
        }
        assert(goal.events =~= seen);
        Ok(())
    }

    /// Ends the stream: the complete response, or why there is none.
    pub fn finish(self) -> (r: Result<ModelResponse, ModelError>)
        requires
            self.valid(),
        ensures
            outcome::of(r) == (if sse::complete(self.deep_view().decoder) {
                finish_spec(
                    self.deep_view().accumulator,
                    self.deep_view().request_id,
                    self.deep_view().meter.latency(),
                )
            } else {
                Err(
                    ModelFault::MalformedResponse(sse::SseError::IncompleteEvent.message_spec()),
                )
            }),
    {
        let latency: u64 = self.meter.latency();
        match self.decoder.finish() {
            Ok(_) => {},
            Err(e) => {
                return Err(ModelError::malformed(e.message()));
            },
        }
        self.accumulator.finish(self.request_id, latency)
    }
}

} // verus!
