//! The `GenerateContent` wire format.

use crate::digest;
use crate::json;
use crate::json::{Json, JsonMap, JsonView};
use crate::models::attachments;
use crate::models::attachments::ImageWire;
use crate::models::driver;
use crate::models::driver::{ModelError, ModelFault};
use crate::models::endpoint;
use crate::models::fields;
use crate::models::openai_compatible;
use crate::models::requests;
use crate::models::sse;
use crate::models::sse::{SseDecoder, SseEvent, SseEventView, SseState};
use crate::models::transport;
use crate::models::transport::{MeterView, StreamMeter};
use crate::models::turns;
use crate::models::turns::{Turn, TurnView};
use crate::models::types::{
    ConversationItem, FinishReason, ItemView, ModelCapabilities, ModelRequest, ModelResponse,
    ModelStreamEvent, ResponseView, Role, StreamEventView, Temperature, ToolCall, ToolCallView,
    Usage,
};
use crate::outcome;
use crate::slots;
use crate::slots::TextMap;
use crate::text;
use crate::tools::descriptor::{DescriptorView, ToolDescriptor};
use vstd::prelude::*;
use vstd::utf8::*;

verus! {

/// Largest text of one response, in bytes.
pub const MAX_TEXT_BYTES: usize = 8388608;

/// Largest arguments of one function call, in bytes.
pub const MAX_TOOL_ARGUMENT_BYTES: usize = 1048576;

/// Largest number of function calls in one response.
pub const MAX_TOOL_CALLS: usize = 128;

/// Longest thought signature, in bytes.
pub const MAX_THOUGHT_SIGNATURE_BYTES: usize = 65536;

/// A malformed response, in words.
pub open spec fn malformed<T>(m: Seq<char>) -> Result<T, ModelFault> {
    Err(ModelFault::MalformedResponse(m))
}

/// The finish reason that a name stands for.
pub open spec fn finish_reason_spec(reason: Option<Seq<char>>) -> FinishReason {
    match reason {
        Some(r) => if r == "STOP"@ {
            FinishReason::Complete
        } else if r == "MAX_TOKENS"@ {
            FinishReason::Length
        } else if r == "SAFETY"@ || r == "RECITATION"@ || r == "BLOCKLIST"@ || r
            == "PROHIBITED_CONTENT"@ || r == "IMAGE_SAFETY"@ {
            FinishReason::ContentFilter
        } else if r == "MALFORMED_FUNCTION_CALL"@ || r == "UNEXPECTED_TOOL_CALL"@ {
            FinishReason::ToolCalls
        } else {
            FinishReason::Unknown
        },
        None => FinishReason::Unknown,
    }
}

/// The finish reason that a name stands for.
pub fn gemini_finish_reason(reason: Option<&str>) -> (r: FinishReason)
    ensures
        r == finish_reason_spec(reason.deep_view()),
{
    match reason {
        Some(name) => if text::same(name, "STOP") {
            FinishReason::Complete
        } else if text::same(name, "MAX_TOKENS") {
            FinishReason::Length
        } else if text::same(name, "SAFETY") || text::same(name, "RECITATION") || text::same(
            name,
            "BLOCKLIST",
        ) || text::same(name, "PROHIBITED_CONTENT") || text::same(name, "IMAGE_SAFETY") {
            FinishReason::ContentFilter
        } else if text::same(name, "MALFORMED_FUNCTION_CALL") || text::same(
            name,
            "UNEXPECTED_TOOL_CALL",
        ) {
            FinishReason::ToolCalls
        } else {
            FinishReason::Unknown
        },
        None => FinishReason::Unknown,
    }
}

/// The counters of a usage report.
pub open spec fn usage_spec(usage: JsonView) -> Usage {
    Usage {
        input_tokens: fields::number_spec(usage, "promptTokenCount"@),
        output_tokens: fields::number_spec(usage, "candidatesTokenCount"@),
        cached_input_tokens: fields::number_spec(usage, "cachedContentTokenCount"@),
        cache_creation_input_tokens: 0,
    }
}

/// The counters of a usage report.
pub fn gemini_usage(usage: &Json) -> (r: Usage)
    ensures
        r == usage_spec(usage.deep_view()),
{
    Usage {
        input_tokens: fields::number(usage, "promptTokenCount"),
        output_tokens: fields::number(usage, "candidatesTokenCount"),
        cached_input_tokens: fields::number(usage, "cachedContentTokenCount"),
        cache_creation_input_tokens: 0,
    }
}

/// The counters that a reply reports, or none.
pub open spec fn reported_usage(value: JsonView) -> Usage {
    match json::member(value, "usageMetadata"@) {
        Some(u) => usage_spec(u),
        None => Usage::zero(),
    }
}

/// The candidates of a reply.
pub open spec fn candidates(value: JsonView) -> Seq<JsonView> {
    match json::array_member(value, "candidates"@) {
        Some(c) => c,
        None => Seq::empty(),
    }
}

/// The one candidate of a reply, if it has one; two are too many.
pub open spec fn candidate_spec(value: JsonView) -> Result<Option<JsonView>, ModelFault> {
    let all = candidates(value);
    if all.len() > 1 {
        malformed("Gemini returned more than one candidate"@)
    } else if all.len() == 1 {
        Ok(Some(all[0]))
    } else {
        Ok(None)
    }
}

/// The one candidate of a reply, if it has one.
pub fn one_candidate(value: &Json) -> (r: Result<Option<&Json>, ModelError>)
    ensures
        match r {
            Ok(c) => candidate_spec(value.deep_view()) == Ok::<Option<JsonView>, ModelFault>(
                c.deep_view(),
            ),
            Err(e) => candidate_spec(value.deep_view()) == Err::<Option<JsonView>, ModelFault>(
                e.deep_view(),
            ),
        },
{
    match value.array_member("candidates") {
        None => Ok(None),
        Some(all) => {
            assert(all.deep_view().len() == all@.len());
            if all.len() > 1 {
                Err(ModelError::malformed("Gemini returned more than one candidate"))
            } else if all.len() == 1 {
                assert(all.deep_view()[0] == all@[0].deep_view());
                Ok(Some(&all[0]))
            } else {
                Ok(None)
            }
        },
    }
}

/// An object without members.
pub open spec fn empty_object() -> JsonView {
    JsonView::Object(Map::empty())
}

/// The arguments of a function call.
pub open spec fn call_arguments(value: JsonView) -> JsonView {
    match json::member(value, "args"@) {
        Some(a) => a,
        None => empty_object(),
    }
}

/// What a synthetic id is the digest of.
pub open spec fn synthetic_source(name: Seq<char>, arguments: JsonView, ordinal: nat) -> JsonView {
    JsonView::Array(seq![JsonView::Text(name), arguments, json::num(ordinal)])
}

/// The id of a function call that came without one: it goes by the call and its
/// position alone.
pub open spec fn synthetic_id_spec(name: Seq<char>, arguments: JsonView, ordinal: nat) -> Seq<
    char,
> {
    "gemini-"@ + digest::blake3_hex(
        encode_utf8(json::json_text(synthetic_source(name, arguments, ordinal))),
    ).take(24)
}

/// The id of a function call that came without one.
pub fn synthetic_call_id(name: &str, arguments: &Json, ordinal: usize) -> (r: String)
    ensures
        r@ == synthetic_id_spec(name@, arguments.deep_view(), ordinal as nat),
{
    let mut source: Vec<Json> = Vec::new();
    source.push(Json::text(name));
    source.push(arguments.clone());
    source.push(Json::count(ordinal));
    assert(source.deep_view() =~= seq![
        JsonView::Text(name@),
        arguments.deep_view(),
        json::num(ordinal as nat),
    ]);
    let hex = digest::text_digest(Json::array(source).to_text().as_str());
    let chars = text::chars_of(hex.as_str());
    let head = text::text_of(&chars, 0, 24);
    assert(head@ =~= hex@.take(24));
    text::concat2("gemini-", head.as_str())
}

/// What a function call carries beside its name and its arguments.
pub open spec fn signature_spec(part: JsonView) -> Result<Map<Seq<char>, JsonView>, ModelFault> {
    match json::text_member(part, "thoughtSignature"@) {
        Some(s) => if s.len() == 0 || text::utf8_len(s) > MAX_THOUGHT_SIGNATURE_BYTES {
            malformed("Gemini thought signature is empty or oversized"@)
        } else {
            Ok(
                Map::<Seq<char>, JsonView>::empty().insert(
                    "thought_signature"@,
                    JsonView::Text(s),
                ),
            )
        },
        None => Ok(Map::empty()),
    }
}

/// The function call of a part. Given are the bytes that its arguments take as a
/// text of JSON, and the id that it gets if it brings none.
pub open spec fn function_call_spec(
    value: JsonView,
    part: JsonView,
    argument_bytes: nat,
    synthetic: Seq<char>,
) -> Result<ToolCallView, ModelFault> {
    match fields::identifier_spec(json::member(value, "name"@), "Gemini function name"@) {
        Err(e) => Err(e),
        Ok(name) => {
            let arguments = call_arguments(value);
            if !(arguments is Object) {
                malformed("Gemini function arguments must be a JSON object"@)
            } else if argument_bytes > MAX_TOOL_ARGUMENT_BYTES {
                Err(ModelFault::ResponseTooLarge { limit: MAX_TOOL_ARGUMENT_BYTES })
            } else {
                match (match json::member(value, "id"@) {
                    Some(id) => fields::identifier_spec(Some(id), "Gemini function-call id"@),
                    None => Ok(synthetic),
                }) {
                    Err(e) => Err(e),
                    Ok(id) => match signature_spec(part) {
                        Err(e) => Err(e),
                        Ok(extensions) => Ok(ToolCallView { id, name, arguments, extensions }),
                    },
                }
            }
        },
    }
}

/// The name that a function call states, or nothing.
pub open spec fn stated_name(value: JsonView) -> Seq<char> {
    match json::text_member(value, "name"@) {
        Some(n) => n,
        None => Seq::empty(),
    }
}

/// The function call of a part, at the given position among the calls.
pub open spec fn part_call_spec(value: JsonView, part: JsonView, ordinal: nat) -> Result<
    ToolCallView,
    ModelFault,
> {
    function_call_spec(
        value,
        part,
        text::utf8_len(json::json_text(call_arguments(value))),
        synthetic_id_spec(stated_name(value), call_arguments(value), ordinal),
    )
}

/// Builds the function call of a part.
pub fn build_function_call(
    value: &Json,
    part: &Json,
    argument_bytes: usize,
    synthetic: &str,
) -> (r: Result<ToolCall, ModelError>)
    ensures
        outcome::of(r) == function_call_spec(
            value.deep_view(),
            part.deep_view(),
            argument_bytes as nat,
            synthetic@,
        ),
{
    let name = fields::bounded_identifier(value.get("name"), "Gemini function name")?;
    let arguments = arguments_of(value);
    if !arguments.is_object() {
        return Err(ModelError::malformed("Gemini function arguments must be a JSON object"));
    }
    if argument_bytes > MAX_TOOL_ARGUMENT_BYTES {
        return Err(ModelError::ResponseTooLarge { limit: MAX_TOOL_ARGUMENT_BYTES });
    }
    let id = match value.get("id") {
        Some(id) => fields::bounded_identifier(Some(id), "Gemini function-call id")?,
        None => synthetic.to_owned(),
    };
    let mut extensions = JsonMap::new();
    if let Some(signature) = part.text_member("thoughtSignature") {
        if signature.is_empty() || text::byte_len(signature) > MAX_THOUGHT_SIGNATURE_BYTES {
            return Err(ModelError::malformed("Gemini thought signature is empty or oversized"));
        }
        extensions.insert("thought_signature", Json::text(signature));
    }
    Ok(ToolCall { id, name, arguments, extensions })
}

fn arguments_of(value: &Json) -> (r: Json)
    ensures
        r.deep_view() == call_arguments(value.deep_view()),
{
    match value.get("args") {
        Some(a) => a.clone(),
        None => Json::object(JsonMap::new()),
    }
}

/// Reads the function call of a part, at the given position among the calls.
pub fn parse_function_call(value: &Json, part: &Json, ordinal: usize) -> (r: Result<
    ToolCall,
    ModelError,
>)
    ensures
        outcome::of(r) == part_call_spec(value.deep_view(), part.deep_view(), ordinal as nat),
{
    let arguments = arguments_of(value);
    let argument_bytes: usize = text::byte_len(arguments.to_text().as_str());
    let name = match value.text_member("name") {
        Some(n) => n.to_owned(),
        None => String::new(),
    };
    let synthetic = synthetic_call_id(name.as_str(), &arguments, ordinal);
    build_function_call(value, part, argument_bytes, synthetic.as_str())
}

/// The text and the calls that parts bring.
pub struct PartsView {
    pub text: Seq<char>,
    pub calls: Seq<ToolCallView>,
}

/// What one part adds.
pub open spec fn part_spec(so_far: PartsView, part: JsonView) -> Result<PartsView, ModelFault> {
    if json::member(part, "thought"@) == Some(JsonView::Bool(true)) {
        Ok(so_far)
    } else {
        match json::text_member(part, "text"@) {
            Some(t) => if text::utf8_len(so_far.text) + text::utf8_len(t) > MAX_TEXT_BYTES {
                Err(ModelFault::ResponseTooLarge { limit: MAX_TEXT_BYTES })
            } else {
                Ok(PartsView { text: so_far.text + t, ..so_far })
            },
            None => match json::member(part, "functionCall"@) {
                Some(call) => if so_far.calls.len() >= MAX_TOOL_CALLS {
                    malformed("Gemini exceeded the function-call limit"@)
                } else {
                    match part_call_spec(call, part, so_far.calls.len()) {
                        Err(e) => Err(e),
                        Ok(c) => Ok(PartsView { calls: so_far.calls.push(c), ..so_far }),
                    }
                },
                None => if json::member(part, "thoughtSignature"@) is Some {
                    Ok(so_far)
                } else {
                    malformed("Gemini returned an unsupported content part"@)
                },
            },
        }
    }
}

/// What the parts from part `i` on add.
pub open spec fn parts_spec(so_far: PartsView, parts: Seq<JsonView>, i: int) -> Result<
    PartsView,
    ModelFault,
>
    decreases parts.len() - i,
{
    if i < 0 || i >= parts.len() {
        Ok(so_far)
    } else {
        match part_spec(so_far, parts[i]) {
            Err(e) => Err(e),
            Ok(next) => parts_spec(next, parts, i + 1),
        }
    }
}

/// The parts of a candidate.
pub open spec fn parts_of(candidate: JsonView) -> Seq<JsonView> {
    match json::member2(candidate, "content"@, "parts"@) {
        Some(JsonView::Array(p)) => p,
        _ => Seq::empty(),
    }
}

/// The text and the calls of a candidate.
pub open spec fn candidate_parts_spec(candidate: JsonView) -> Result<PartsView, ModelFault> {
    parts_spec(PartsView { text: Seq::empty(), calls: Seq::empty() }, parts_of(candidate), 0)
}

/// Reads the text and the calls of a candidate.
pub fn parse_parts(candidate: &Json) -> (r: Result<(String, Vec<ToolCall>), ModelError>)
    ensures
        match r {
            Ok(p) => candidate_parts_spec(candidate.deep_view()) == Ok::<PartsView, ModelFault>(
                PartsView { text: p.0@, calls: p.1.deep_view() },
            ),
            Err(e) => candidate_parts_spec(candidate.deep_view()) == Err::<PartsView, ModelFault>(
                e.deep_view(),
            ),
        },
{
    let mut content = String::new();
    let mut calls: Vec<ToolCall> = Vec::new();
    assert(calls.deep_view() =~= Seq::<ToolCallView>::empty());
    let found = match candidate.get2("content", "parts") {
        Some(v) => v.as_array(),
        None => None,
    };
    let parts = match found {
        Some(parts) => parts,
        None => {
            return Ok((content, calls));
        },
    };
    let ghost all = parts.deep_view();
    let ghost none = PartsView { text: Seq::empty(), calls: Seq::empty() };
    let mut i: usize = 0;
    while i < parts.len()
        invariant
            i <= parts@.len(),
            all == parts.deep_view(),
            all.len() == parts@.len(),
            parts_of(candidate.deep_view()) == all,
            none == (PartsView { text: Seq::empty(), calls: Seq::empty() }),
            parts_spec(none, all, 0) == parts_spec(
                PartsView { text: content@, calls: calls.deep_view() },
                all,
                i as int,
            ),
        decreases parts@.len() - i,
    {
        let part = &parts[i];
        let ghost before = calls.deep_view();
        assert(all[i as int] == part.deep_view());
        assert(before.len() == calls@.len());
        let thought = match part.get("thought") {
            Some(v) => match v.as_bool() {
                Some(b) => b,
                None => false,
            },
            None => false,
        };
        if thought {
        } else if let Some(delta) = part.text_member("text") {
            fields::append_text(&mut content, delta, MAX_TEXT_BYTES)?;
        } else if let Some(call) = part.get("functionCall") {
            if calls.len() >= MAX_TOOL_CALLS {
                return Err(ModelError::malformed("Gemini exceeded the function-call limit"));
            }
            let parsed = parse_function_call(call, part, calls.len())?;
            calls.push(parsed);
            assert(calls.deep_view() =~= before.push(parsed.deep_view()));
        } else if part.get("thoughtSignature").is_some() {
        } else {
            return Err(ModelError::malformed("Gemini returned an unsupported content part"));
        }
        i += 1;
    }
    Ok((content, calls))
}

/// What a buffered response records beside its contents.
pub open spec fn buffered_extensions(value: JsonView) -> Map<Seq<char>, JsonView> {
    openai_compatible::kept_members(value, seq!["modelVersion"@, "responseId"@]).insert(
        "streaming"@,
        JsonView::Bool(false),
    )
}

/// What a buffered response records beside its contents.
fn response_extensions(value: &Json) -> (r: JsonMap)
    ensures
        r.deep_view() == buffered_extensions(value.deep_view()),
{
    let mut extensions = JsonMap::new();
    openai_compatible::keep_member(&mut extensions, value, "modelVersion");
    openai_compatible::keep_member(&mut extensions, value, "responseId");
    proof {
        let keys = seq!["modelVersion"@, "responseId"@];
        reveal_with_fuel(openai_compatible::kept_members, 3);
        assert(keys.drop_last() =~= seq!["modelVersion"@]);
        assert(keys.drop_last().drop_last() =~= Seq::<Seq<char>>::empty());
    }
    extensions.insert("streaming", Json::boolean(false));
    extensions
}

/// Why a prompt was blocked.
pub open spec fn block_reason(value: JsonView) -> Option<Seq<char>> {
    match json::member2(value, "promptFeedback"@, "blockReason"@) {
        Some(v) => json::text_of(v),
        None => None,
    }
}

/// The response to a prompt that was blocked.
pub open spec fn blocked_spec(
    value: JsonView,
    request_id: Option<Seq<char>>,
    reason: Seq<char>,
) -> ResponseView {
    ResponseView {
        text: Seq::empty(),
        tool_calls: Seq::empty(),
        finish_reason: FinishReason::ContentFilter,
        usage: reported_usage(value),
        provider_request_id: request_id,
        extensions: buffered_extensions(value).insert("block_reason"@, JsonView::Text(reason)),
    }
}

/// The response that a buffered reply stands for, or why it stands for none.
pub open spec fn response_spec(value: JsonView, request_id: Option<Seq<char>>) -> Result<
    ResponseView,
    ModelFault,
> {
    match block_reason(value) {
        Some(reason) => Ok(blocked_spec(value, request_id, reason)),
        None => match candidate_spec(value) {
            Err(e) => Err(e),
            Ok(None) => malformed("Gemini response contains no candidate"@),
            Ok(Some(candidate)) => match candidate_parts_spec(candidate) {
                Err(e) => Err(e),
                Ok(parts) => {
                    let finish_reason = finish_reason_spec(
                        json::text_member(candidate, "finishReason"@),
                    );
                    if finish_reason == FinishReason::ToolCalls && parts.calls.len() == 0 {
                        malformed("Gemini reported a function-call stop without a function call"@)
                    } else {
                        Ok(
                            ResponseView {
                                text: parts.text,
                                tool_calls: parts.calls,
                                finish_reason,
                                usage: reported_usage(value),
                                provider_request_id: request_id,
                                extensions: buffered_extensions(value),
                            },
                        )
                    }
                },
            },
        },
    }
}

fn usage_of(value: &Json) -> (r: Usage)
    ensures
        r == reported_usage(value.deep_view()),
{
    match value.get("usageMetadata") {
        Some(u) => gemini_usage(u),
        None => Usage::default(),
    }
}

/// Why a prompt was blocked.
fn blocked_for(value: &Json) -> (r: Option<&str>)
    ensures
        match r {
            Some(t) => block_reason(value.deep_view()) == Some(t@),
            None => block_reason(value.deep_view()) is None,
        },
{
    match value.get2("promptFeedback", "blockReason") {
        Some(v) => v.as_str(),
        None => None,
    }
}

/// The response to a prompt that was blocked.
pub fn blocked_response(value: &Json, request_id: Option<String>, reason: &str) -> (r:
    ModelResponse)
    ensures
        r.deep_view() == blocked_spec(value.deep_view(), request_id.deep_view(), reason@),
{
    let mut extensions = response_extensions(value);
    extensions.insert("block_reason", Json::text(reason));
    let tool_calls: Vec<ToolCall> = Vec::new();
    assert(tool_calls.deep_view() =~= Seq::<ToolCallView>::empty());
    ModelResponse {
        text: String::new(),
        tool_calls,
        finish_reason: FinishReason::ContentFilter,
        usage: usage_of(value),
        provider_request_id: request_id,
        extensions,
    }
}

/// Reads a buffered reply.
pub fn parse_response(value: &Json, request_id: Option<String>) -> (r: Result<
    ModelResponse,
    ModelError,
>)
    ensures
        outcome::of(r) == response_spec(value.deep_view(), request_id.deep_view()),
{
    if let Some(reason) = blocked_for(value) {
        return Ok(blocked_response(value, request_id, reason));
    }
    let candidate = match one_candidate(value)? {
        Some(c) => c,
        None => {
            return Err(ModelError::malformed("Gemini response contains no candidate"));
        },
    };
    let (content, tool_calls) = parse_parts(candidate)?;
    let finish_reason = gemini_finish_reason(candidate.text_member("finishReason"));
    assert(tool_calls.deep_view().len() == tool_calls@.len());
    if finish_reason == FinishReason::ToolCalls && tool_calls.len() == 0 {
        return Err(
            ModelError::malformed("Gemini reported a function-call stop without a function call"),
        );
    }
    Ok(
        ModelResponse {
            text: content,
            tool_calls,
            finish_reason,
            usage: usage_of(value),
            provider_request_id: request_id,
            extensions: response_extensions(value),
        },
    )
}


/// Collects a streamed response.
pub struct GeminiStreamAccumulator {
    text: String,
    calls: Vec<ToolCall>,
    call_fingerprints: Vec<String>,
    call_ids: TextMap,
    finish_reason: Option<FinishReason>,
    usage: Usage,
    usage_seen: bool,
    response_id: Option<String>,
    model_version: Option<String>,
}

/// What has been collected of a streamed response.
pub struct GeminiState {
    pub text: Seq<char>,
    pub calls: Seq<ToolCallView>,
    pub call_fingerprints: Seq<Seq<char>>,
    pub call_ids: Map<Seq<char>, Seq<char>>,
    pub finish_reason: Option<FinishReason>,
    pub usage: Usage,
    pub usage_seen: bool,
    pub response_id: Option<Seq<char>>,
    pub model_version: Option<Seq<char>>,
}

impl DeepView for GeminiStreamAccumulator {
    type V = GeminiState;

    closed spec fn deep_view(&self) -> GeminiState {
        GeminiState {
            text: self.text@,
            calls: self.calls.deep_view(),
            call_fingerprints: self.call_fingerprints.deep_view(),
            call_ids: self.call_ids.deep_view(),
            finish_reason: self.finish_reason,
            usage: self.usage,
            usage_seen: self.usage_seen,
            response_id: self.response_id.deep_view(),
            model_version: self.model_version.deep_view(),
        }
    }
}

impl GeminiState {
    /// Nothing has been collected.
    pub open spec fn fresh() -> GeminiState {
        GeminiState {
            text: Seq::empty(),
            calls: Seq::empty(),
            call_fingerprints: Seq::empty(),
            call_ids: Map::empty(),
            finish_reason: None,
            usage: Usage::zero(),
            usage_seen: false,
            response_id: None,
            model_version: None,
        }
    }
}

/// What a piece of a stream does.
pub struct GeminiStep {
    pub state: GeminiState,
    pub events: Seq<StreamEventView>,
    pub result: Result<(), ModelFault>,
}

/// A step that changes nothing and fails.
pub open spec fn fail(state: GeminiState, m: Seq<char>) -> GeminiStep {
    GeminiStep { state, events: Seq::empty(), result: malformed(m) }
}

/// A step without events that succeeds.
pub open spec fn quiet(state: GeminiState) -> GeminiStep {
    GeminiStep { state, events: Seq::empty(), result: Ok(()) }
}

/// `second` after `first`, whose events come before.
pub open spec fn after(first: GeminiStep, second: GeminiStep) -> GeminiStep {
    if first.result is Err {
        first
    } else {
        GeminiStep {
            state: second.state,
            events: first.events + second.events,
            result: second.result,
        }
    }
}

/// The response id that a chunk repeats.
pub open spec fn id_step(st: GeminiState, value: JsonView) -> GeminiStep {
    match json::text_member(value, "responseId"@) {
        Some(id) => {
            let (merged, result) = fields::merge_spec(
                st.response_id,
                id,
                "Gemini response id"@,
                " changed during the stream"@,
            );
            GeminiStep {
                state: GeminiState { response_id: merged, ..st },
                events: Seq::empty(),
                result,
            }
        },
        None => quiet(st),
    }
}

/// The model version that a chunk repeats.
pub open spec fn version_step(st: GeminiState, value: JsonView) -> GeminiStep {
    match json::text_member(value, "modelVersion"@) {
        Some(version) => {
            let (merged, result) = fields::merge_spec(
                st.model_version,
                version,
                "Gemini model version"@,
                " changed during the stream"@,
            );
            GeminiStep {
                state: GeminiState { model_version: merged, ..st },
                events: Seq::empty(),
                result,
            }
        },
        None => quiet(st),
    }
}

/// The usage report of a chunk; its counters never regress.
pub open spec fn usage_step(st: GeminiState, value: JsonView) -> GeminiStep {
    match json::member(value, "usageMetadata"@) {
        Some(usage) => {
            let next = usage_spec(usage);
            if st.usage_seen && next.regressed_from(st.usage) {
                fail(st, "Gemini stream usage counters regressed"@)
            } else {
                GeminiStep {
                    state: GeminiState { usage: next, usage_seen: true, ..st },
                    events: seq![StreamEventView::UsageUpdate { usage: next }],
                    result: Ok(()),
                }
            }
        },
        None => quiet(st),
    }
}

/// The text that the parts of a chunk bring.
pub open spec fn text_step(st: GeminiState, t: Seq<char>) -> GeminiStep {
    if text::utf8_len(st.text) + text::utf8_len(t) > MAX_TEXT_BYTES {
        GeminiStep {
            state: st,
            events: Seq::empty(),
            result: Err(ModelFault::ResponseTooLarge { limit: MAX_TEXT_BYTES }),
        }
    } else {
        GeminiStep {
            state: GeminiState { text: st.text + t, ..st },
            events: if t.len() > 0 {
                seq![StreamEventView::TextDelta { text: t }]
            } else {
                Seq::empty()
            },
            result: Ok(()),
        }
    }
}

/// What the fingerprint of a call is the digest of.
pub open spec fn fingerprint_source(call: ToolCallView) -> JsonView {
    JsonView::Array(
        seq![
            JsonView::Text(call.id),
            JsonView::Text(call.name),
            call.arguments,
            JsonView::Object(call.extensions),
        ],
    )
}

/// The fingerprint by which a repeated call is recognized.
pub open spec fn fingerprint_spec(call: ToolCallView) -> Seq<char> {
    digest::blake3_hex(encode_utf8(json::json_text(fingerprint_source(call))))
}

/// One call of a chunk: a repetition is dropped, and an id keeps its name. Given are
/// the call's fingerprint and the bytes that its arguments take as a text of JSON.
pub open spec fn call_step(
    st: GeminiState,
    call: ToolCallView,
    fingerprint: Seq<char>,
    argument_bytes: nat,
) -> GeminiStep {
    if st.call_fingerprints.contains(fingerprint) {
        quiet(st)
    } else {
        let known = GeminiState {
            call_fingerprints: st.call_fingerprints.push(fingerprint),
            call_ids: st.call_ids.insert(call.id, call.name),
            ..st
        };
        if st.call_ids.contains_key(call.id) && st.call_ids[call.id] != call.name {
            fail(known, "Gemini reused a function-call id with a different name"@)
        } else if st.calls.len() >= MAX_TOOL_CALLS {
            fail(known, "Gemini exceeded the function-call limit"@)
        } else {
            GeminiStep {
                state: GeminiState { calls: st.calls.push(call), ..known },
                events: seq![
                    StreamEventView::ToolCallStarted {
                        index: st.calls.len(),
                        id: call.id,
                        name: call.name,
                    },
                    StreamEventView::ToolArgumentsDelta {
                        index: st.calls.len(),
                        bytes: argument_bytes,
                    },
                ],
                result: Ok(()),
            }
        }
    }
}

/// The calls of a chunk from call `i` on.
pub open spec fn calls_step(st: GeminiState, calls: Seq<ToolCallView>, i: int) -> GeminiStep
    decreases calls.len() - i,
{
    if i < 0 || i >= calls.len() {
        quiet(st)
    } else {
        let first = call_step(
            st,
            calls[i],
            fingerprint_spec(calls[i]),
            text::utf8_len(json::json_text(calls[i].arguments)),
        );
        after(first, calls_step(first.state, calls, i + 1))
    }
}

/// The finish reason of a candidate, which comes once.
pub open spec fn reason_step(st: GeminiState, candidate: JsonView) -> GeminiStep {
    match json::text_member(candidate, "finishReason"@) {
        Some(reason) => {
            let next = GeminiState { finish_reason: Some(finish_reason_spec(Some(reason))), ..st };
            if st.finish_reason is Some {
                fail(next, "Gemini stream emitted more than one finish reason"@)
            } else {
                quiet(next)
            }
        },
        None => quiet(st),
    }
}

/// The candidate of a chunk.
pub open spec fn candidate_step(st: GeminiState, candidate: JsonView) -> GeminiStep {
    match candidate_parts_spec(candidate) {
        Err(e) => GeminiStep { state: st, events: Seq::empty(), result: Err(e) },
        Ok(parts) => {
            let first = text_step(st, parts.text);
            let second = calls_step(first.state, parts.calls, 0);
            after(first, after(second, reason_step(second.state, candidate)))
        },
    }
}

/// What a chunk does to a stream whose prompt was not blocked.
pub open spec fn open_step(st: GeminiState, value: JsonView) -> GeminiStep {
    let first = id_step(st, value);
    let second = version_step(first.state, value);
    let third = usage_step(second.state, value);
    after(
        first,
        after(
            second,
            after(
                third,
                match candidate_spec(value) {
                    Err(e) => GeminiStep {
                        state: third.state,
                        events: Seq::empty(),
                        result: Err(e),
                    },
                    Ok(None) => quiet(third.state),
                    Ok(Some(candidate)) => candidate_step(third.state, candidate),
                },
            ),
        ),
    )
}

/// What a chunk does.
pub open spec fn chunk_step(st: GeminiState, value: JsonView) -> GeminiStep {
    match block_reason(value) {
        Some(reason) => {
            let blocked = GeminiState { finish_reason: Some(FinishReason::ContentFilter), ..st };
            if st.text.len() == 0 {
                quiet(blocked)
            } else {
                fail(blocked, "Gemini blocked a stream after emitting text: "@ + reason)
            }
        },
        None => open_step(st, value),
    }
}

/// The fingerprint by which a repeated call is recognized.
pub fn tool_call_fingerprint(call: &ToolCall) -> (r: String)
    ensures
        r@ == fingerprint_spec(call.deep_view()),
{
    let mut source: Vec<Json> = Vec::new();
    source.push(Json::text(call.id.as_str()));
    source.push(Json::text(call.name.as_str()));
    source.push(call.arguments.clone());
    source.push(Json::object(call.extensions.clone()));
    assert(source.deep_view() =~= seq![
        JsonView::Text(call.id@),
        JsonView::Text(call.name@),
        call.arguments.deep_view(),
        JsonView::Object(call.extensions.deep_view()),
    ]);
    digest::text_digest(Json::array(source).to_text().as_str())
}

/// Takes an identifier that a stream repeats, if a chunk brings it.
pub fn merge_optional_string(
    target: &mut Option<String>,
    value: Option<&str>,
    field: &str,
) -> (r: Result<(), ModelError>)
    ensures
        match value {
            Some(v) => (final(target).deep_view(), outcome::of(r)) == fields::merge_spec(
                old(target).deep_view(),
                v@,
                field@,
                " changed during the stream"@,
            ),
            None => final(target).deep_view() == old(target).deep_view() && r is Ok,
        },
{
    match value {
        Some(v) => fields::merge_identifier(target, v, field, " changed during the stream"),
        None => Ok(()),
    }
}

impl GeminiStreamAccumulator {
    /// An accumulator of which nothing has arrived.
    pub fn new() -> (r: GeminiStreamAccumulator)
        ensures
            r.deep_view() == GeminiState::fresh(),
    {
        let r = GeminiStreamAccumulator {
            text: String::new(),
            calls: Vec::new(),
            call_fingerprints: Vec::new(),
            call_ids: TextMap::new(),
            finish_reason: None,
            usage: Usage::default(),
            usage_seen: false,
            response_id: None,
            model_version: None,
        };
        assert(r.deep_view().calls =~= Seq::<ToolCallView>::empty());
        assert(r.deep_view().call_fingerprints =~= Seq::<Seq<char>>::empty());
        r
    }

    /// The calls collected so far.
    pub fn calls(&self) -> (r: &Vec<ToolCall>)
        ensures
            r.deep_view() == self.deep_view().calls,
    {
        &self.calls
    }

    /// Takes the value of one chunk.
    pub fn apply(&mut self, value: &Json, log: &mut Vec<ModelStreamEvent>) -> (r: Result<
        (),
        ModelError,
    >)
        ensures
            ({
                let s = chunk_step(old(self).deep_view(), value.deep_view());
                &&& final(self).deep_view() == s.state
                &&& final(log).deep_view() == old(log).deep_view() + s.events
                &&& outcome::of(r) == s.result
            }),
    {
        let ghost log0 = log.deep_view();
        let ghost st0 = self.deep_view();
        let ghost v = value.deep_view();
        assert(log0 + Seq::<StreamEventView>::empty() =~= log0);
        if let Some(reason) = blocked_for(value) {
            self.finish_reason = Some(FinishReason::ContentFilter);
            if self.text.as_str().is_empty() {
                return Ok(());
            }
            return Err(
                ModelError::MalformedResponse(
                    text::concat2("Gemini blocked a stream after emitting text: ", reason),
                ),
            );
        }
        let ghost first = id_step(st0, v);
        let ghost second = version_step(first.state, v);
        let ghost third = usage_step(second.state, v);
        merge_optional_string(
            &mut self.response_id,
            value.text_member("responseId"),
            "Gemini response id",
        )?;
        assert(self.deep_view() == first.state);
        merge_optional_string(
            &mut self.model_version,
            value.text_member("modelVersion"),
            "Gemini model version",
        )?;
        assert(self.deep_view() == second.state);
        if let Some(usage) = value.get("usageMetadata") {
            let next = gemini_usage(usage);
            if self.usage_seen && next.regressed(self.usage) {
                return Err(ModelError::malformed("Gemini stream usage counters regressed"));
            }
            self.usage = next;
            self.usage_seen = true;
            log.push(ModelStreamEvent::UsageUpdate { usage: next });
        }
        assert(self.deep_view() == third.state);
        assert(log.deep_view() =~= log0 + third.events);
        let candidate = match one_candidate(value) {
            Ok(Some(c)) => c,
            Ok(None) => {
                assert(log.deep_view() =~= log0 + chunk_step(st0, v).events);
                return Ok(());
            },
            Err(e) => {
                assert(log.deep_view() =~= log0 + chunk_step(st0, v).events);
                return Err(e);
            },
        };
        let r = self.apply_candidate(candidate, log);
        assert(log.deep_view() =~= log0 + chunk_step(st0, v).events);
        r
    }

    /// Takes the candidate of a chunk.
    fn apply_candidate(&mut self, candidate: &Json, log: &mut Vec<ModelStreamEvent>) -> (r: Result<
        (),
        ModelError,
    >)
        ensures
            ({
                let s = candidate_step(old(self).deep_view(), candidate.deep_view());
                &&& final(self).deep_view() == s.state
                &&& final(log).deep_view() == old(log).deep_view() + s.events
                &&& outcome::of(r) == s.result
            }),
    {
        let ghost log0 = log.deep_view();
        let ghost st0 = self.deep_view();
        let ghost v = candidate.deep_view();
        assert(log0 + Seq::<StreamEventView>::empty() =~= log0);
        let (chunk_text, calls) = parse_parts(candidate)?;
        let ghost parts = PartsView { text: chunk_text@, calls: calls.deep_view() };
        let ghost first = text_step(st0, parts.text);
        fields::append_text(&mut self.text, chunk_text.as_str(), MAX_TEXT_BYTES)?;
        if !chunk_text.as_str().is_empty() {
            log.push(ModelStreamEvent::TextDelta { text: chunk_text });
        }
        assert(self.deep_view() == first.state);
        assert(log.deep_view() =~= log0 + first.events);
        let ghost all = parts.calls;
        let ghost goal = calls_step(first.state, all, 0);
        let ghost mut seen: Seq<StreamEventView> = Seq::empty();
        let mut i: usize = 0;
        while i < calls.len()
            invariant
                i <= calls@.len(),
                all == calls.deep_view(),
                all.len() == calls@.len(),
                ({
                    let rest = calls_step(self.deep_view(), all, i as int);
                    &&& goal.state == rest.state
                    &&& goal.result == rest.result
                    &&& goal.events == seen + rest.events
                }),
                log.deep_view() == log0 + first.events + seen,
                log0 == old(log).deep_view(),
                st0 == old(self).deep_view(),
                v == candidate.deep_view(),
                goal == calls_step(first.state, all, 0),
                first == text_step(st0, parts.text),
                first.result is Ok,
                parts.calls == all,
                candidate_parts_spec(v) == Ok::<PartsView, ModelFault>(parts),
            decreases calls@.len() - i,
        {
            let call = calls[i].clone();
            assert(all[i as int] == call.deep_view());
            let ghost step = call_step(
                self.deep_view(),
                all[i as int],
                fingerprint_spec(all[i as int]),
                text::utf8_len(json::json_text(all[i as int].arguments)),
            );
            let fingerprint = tool_call_fingerprint(&call);
            let argument_bytes: usize = text::byte_len(call.arguments.to_text().as_str());
            let r = self.accept_call(call, fingerprint, argument_bytes, log);
            proof {
                let rest = calls_step(step.state, all, i + 1);
                assert(seen + (step.events + rest.events) =~= (seen + step.events) + rest.events);
                seen = seen + step.events;
                assert(log.deep_view() =~= log0 + first.events + seen);
            }
            if r.is_err() {
                proof {
                    assert(log.deep_view() =~= log0 + candidate_step(st0, v).events);
                }
                return r;
            }
            i += 1;
        }
        proof {
            assert(goal.events =~= seen);
            assert(log.deep_view() =~= log0 + candidate_step(st0, v).events);
        }
        if let Some(reason) = candidate.text_member("finishReason") {
            let known = self.finish_reason.is_some();
            self.finish_reason = Some(gemini_finish_reason(Some(reason)));
            if known {
                return Err(
                    ModelError::malformed("Gemini stream emitted more than one finish reason"),
                );
            }
        }
        Ok(())
    }

    /// Takes one call, with its fingerprint and the size of its arguments.
    pub fn accept_call(
        &mut self,
        call: ToolCall,
        fingerprint: String,
        argument_bytes: usize,
        log: &mut Vec<ModelStreamEvent>,
    ) -> (r: Result<(), ModelError>)
        ensures
            ({
                let s = call_step(
                    old(self).deep_view(),
                    call.deep_view(),
                    fingerprint@,
                    argument_bytes as nat,
                );
                &&& final(self).deep_view() == s.state
                &&& final(log).deep_view() == old(log).deep_view() + s.events
                &&& outcome::of(r) == s.result
            }),
    {
        let ghost log0 = log.deep_view();
        let ghost st0 = self.deep_view();
        let ghost c = call.deep_view();
        assert(log0 + Seq::<StreamEventView>::empty() =~= log0);
        if slots::holds_text(&self.call_fingerprints, fingerprint.as_str()) {
            return Ok(());
        }
        let ghost mark = fingerprint@;
        self.call_fingerprints.push(fingerprint);
        assert(self.call_fingerprints.deep_view() =~= st0.call_fingerprints.push(mark));
        let renamed = match self.call_ids.get(call.id.as_str()) {
            Some(name) => !text::same(name, call.name.as_str()),
            None => false,
        };
        self.call_ids.insert(call.id.as_str(), call.name.as_str());
        if renamed {
            return Err(
                ModelError::malformed("Gemini reused a function-call id with a different name"),
            );
        }
        assert(st0.calls.len() == self.calls@.len());
        let index: usize = self.calls.len();
        if index >= MAX_TOOL_CALLS {
            return Err(ModelError::malformed("Gemini exceeded the function-call limit"));
        }
        log.push(
            ModelStreamEvent::ToolCallStarted {
                index,
                id: call.id.clone(),
                name: call.name.clone(),
            },
        );
        log.push(ModelStreamEvent::ToolArgumentsDelta { index, bytes: argument_bytes });
        assert(log.deep_view() =~= log0 + seq![
            StreamEventView::ToolCallStarted { index: index as nat, id: c.id, name: c.name },
            StreamEventView::ToolArgumentsDelta {
                index: index as nat,
                bytes: argument_bytes as nat,
            },
        ]);
        self.calls.push(call);
        assert(self.calls.deep_view() =~= st0.calls.push(c));
        Ok(())
    }

    /// Ends the stream: the complete response, or why there is none.
    pub fn finish(self, request_id: Option<String>, first_byte_ms: u64) -> (r: Result<
        ModelResponse,
        ModelError,
    >)
        ensures
            outcome::of(r) == finish_spec(self.deep_view(), request_id.deep_view(), first_byte_ms),
    {
        let finish_reason = match self.finish_reason {
            Some(reason) => reason,
            None => {
                return Err(
                    ModelError::malformed("Gemini stream disconnected before a finish reason"),
                );
            },
        };
        assert(self.calls.deep_view().len() == self.calls@.len());
        if finish_reason == FinishReason::ToolCalls && self.calls.len() == 0 {
            return Err(
                ModelError::malformed(
                    "Gemini stream reported a function-call failure without a call",
                ),
            );
        }
        let mut extensions = JsonMap::new();
        extensions.insert("streaming", Json::boolean(true));
        extensions.insert("time_to_first_byte_ms", Json::number(first_byte_ms));
        if let Some(id) = self.response_id {
            extensions.insert("responseId", Json::string(id));
        }
        if let Some(version) = self.model_version {
            extensions.insert("modelVersion", Json::string(version));
        }
        Ok(
            ModelResponse {
                text: self.text,
                tool_calls: self.calls,
                finish_reason,
                usage: self.usage,
                provider_request_id: request_id,
                extensions,
            },
        )
    }
}

impl Default for GeminiStreamAccumulator {
    fn default() -> (r: Self)
        ensures
            r.deep_view() == GeminiState::fresh(),
    {
        GeminiStreamAccumulator::new()
    }
}

/// What a streamed response records beside its contents.
pub open spec fn stream_extensions(
    first_byte_ms: u64,
    response_id: Option<Seq<char>>,
    model_version: Option<Seq<char>>,
) -> Map<Seq<char>, JsonView> {
    let base = Map::<Seq<char>, JsonView>::empty().insert(
        "streaming"@,
        JsonView::Bool(true),
    ).insert("time_to_first_byte_ms"@, json::num(first_byte_ms as nat));
    let identified = match response_id {
        Some(id) => base.insert("responseId"@, JsonView::Text(id)),
        None => base,
    };
    match model_version {
        Some(v) => identified.insert("modelVersion"@, JsonView::Text(v)),
        None => identified,
    }
}

/// The complete response that a stream makes, or why it makes none.
pub open spec fn finish_spec(
    st: GeminiState,
    request_id: Option<Seq<char>>,
    first_byte_ms: u64,
) -> Result<ResponseView, ModelFault> {
    match st.finish_reason {
        None => malformed("Gemini stream disconnected before a finish reason"@),
        Some(finish_reason) => if finish_reason == FinishReason::ToolCalls && st.calls.len() == 0 {
            malformed("Gemini stream reported a function-call failure without a call"@)
        } else {
            Ok(
                ResponseView {
                    text: st.text,
                    tool_calls: st.calls,
                    finish_reason,
                    usage: st.usage,
                    provider_request_id: request_id,
                    extensions: stream_extensions(
                        first_byte_ms,
                        st.response_id,
                        st.model_version,
                    ),
                },
            )
        },
    }
}


/// A text part.
pub open spec fn text_part(t: Seq<char>) -> JsonView {
    json::obj1("text"@, JsonView::Text(t))
}

/// A function call as a part; its thought signature goes back with it.
pub open spec fn call_part(c: ToolCallView) -> JsonView {
    let part = json::obj1(
        "functionCall"@,
        json::obj3(
            "id"@,
            JsonView::Text(c.id),
            "name"@,
            JsonView::Text(c.name),
            "args"@,
            c.arguments,
        ),
    );
    if c.extensions.contains_key("thought_signature"@) {
        json::with_member(part, "thoughtSignature"@, c.extensions["thought_signature"@])
    } else {
        part
    }
}

/// The parts of an assistant turn.
pub open spec fn turn_parts(t: Seq<char>, calls: Seq<ToolCallView>) -> Seq<JsonView> {
    let parts = Seq::new(calls.len(), |i: int| call_part(calls[i]));
    if t.len() > 0 {
        seq![text_part(t)] + parts
    } else {
        parts
    }
}

/// The value of a tool result; what is no object is wrapped in one.
pub open spec fn result_value(content: JsonView) -> JsonView {
    if content is Object {
        content
    } else {
        json::obj1("result"@, content)
    }
}

/// The role and the parts that a conversation item brings. System messages bring
/// none.
pub open spec fn item_parts(item: ItemView) -> Result<Option<(Seq<char>, Seq<JsonView>)>, ModelFault> {
    match item {
        ItemView::Message(m) => match m.role {
            Role::System => Ok(None),
            Role::User => Ok(Some(("user"@, seq![text_part(m.content)]))),
            Role::Assistant => Ok(Some(("model"@, seq![text_part(m.content)]))),
        },
        ItemView::UserContent(c) => Ok(
            Some(("user"@, attachments::content_parts(ImageWire::Contents, c))),
        ),
        ItemView::AssistantToolCalls { text, calls } => if turn_parts(text, calls).len() == 0 {
            Err(ModelFault::InvalidRequest("Gemini content parts cannot be empty"@))
        } else {
            Ok(Some(("model"@, turn_parts(text, calls))))
        },
        ItemView::ToolResult(r) => Ok(
            Some(
                (
                    "user"@,
                    seq![
                        json::obj1(
                            "functionResponse"@,
                            json::obj3(
                                "id"@,
                                JsonView::Text(r.call_id),
                                "name"@,
                                JsonView::Text(r.name),
                                "response"@,
                                result_value(r.content),
                            ),
                        ),
                    ],
                ),
            ),
        ),
    }
}

/// The turns of a conversation.
pub open spec fn turns_spec(conversation: Seq<ItemView>) -> Result<Seq<TurnView>, ModelFault>
    decreases conversation.len(),
{
    if conversation.len() == 0 {
        Ok(Seq::empty())
    } else {
        match turns_spec(conversation.drop_last()) {
            Err(e) => Err(e),
            Ok(before) => match item_parts(conversation.last()) {
                Err(e) => Err(e),
                Ok(None) => Ok(before),
                Ok(Some((role, parts))) => Ok(turns::push_spec(before, role, parts)),
            },
        }
    }
}

/// The system instruction and the contents of a conversation.
pub open spec fn contents_spec(conversation: Seq<ItemView>) -> Result<
    (Seq<char>, Seq<JsonView>),
    ModelFault,
> {
    match turns_spec(conversation) {
        Err(e) => Err(e),
        Ok(all) => if all.len() == 0 {
            Err(
                ModelFault::InvalidRequest(
                    "Gemini requires at least one non-system content item"@,
                ),
            )
        } else {
            Ok(
                (
                    text::join_spec(fields::system_texts(conversation), "\n\n"@),
                    turns::render_spec(all, "parts"@),
                ),
            )
        },
    }
}

proof fn lemma_turns_err(conversation: Seq<ItemView>, i: int)
    requires
        0 <= i <= conversation.len(),
        turns_spec(conversation.take(i)) is Err,
    ensures
        turns_spec(conversation) == turns_spec(conversation.take(i)),
    decreases conversation.len() - i,
{
    if i == conversation.len() {
        assert(conversation.take(i) =~= conversation);
    } else {
        assert(conversation.take(i + 1).drop_last() =~= conversation.take(i));
        lemma_turns_err(conversation, i + 1);
    }
}

fn one(part: Json) -> (r: Vec<Json>)
    ensures
        r.deep_view() == seq![part.deep_view()],
        r@.len() == 1,
{
    let mut out: Vec<Json> = Vec::new();
    let ghost v = part.deep_view();
    out.push(part);
    assert(out.deep_view() =~= seq![v]);
    out
}

fn turn_json(content: &str, calls: &Vec<ToolCall>) -> (r: Vec<Json>)
    ensures
        r.deep_view() == turn_parts(content@, calls.deep_view()),
{
    let ghost all = calls.deep_view();
    let ghost parts = Seq::new(all.len(), |i: int| call_part(all[i]));
    let mut out: Vec<Json> = Vec::new();
    assert(out.deep_view() =~= Seq::<JsonView>::empty());
    if !content.is_empty() {
        out.push(Json::object1("text", Json::text(content)));
        assert(out.deep_view() =~= seq![text_part(content@)]);
    }
    let ghost head = out.deep_view();
    let mut i: usize = 0;
    assert(out.deep_view() =~= head + parts.take(0));
    while i < calls.len()
        invariant
            i <= calls@.len(),
            all == calls.deep_view(),
            all.len() == calls@.len(),
            parts == Seq::new(all.len(), |i: int| call_part(all[i])),
            out.deep_view() == head + parts.take(i as int),
        decreases calls@.len() - i,
    {
        let call = &calls[i];
        let ghost before = out.deep_view();
        assert(all[i as int] == call.deep_view());
        let mut part = Json::object1(
            "functionCall",
            Json::object3(
                "id",
                Json::text(call.id.as_str()),
                "name",
                Json::text(call.name.as_str()),
                "args",
                call.arguments.clone(),
            ),
        );
        if let Some(signature) = call.extensions.get("thought_signature") {
            part.set_member("thoughtSignature", signature.clone());
        }
        assert(part.deep_view() == parts[i as int]);
        out.push(part);
        i += 1;
        assert(out.deep_view() =~= before.push(parts[i as int - 1]));
        assert(out.deep_view() =~= head + parts.take(i as int));
    }
    assert(parts.take(parts.len() as int) =~= parts);
    assert(out.deep_view() =~= turn_parts(content@, all));
    out
}

/// The system instruction and the contents of a conversation.
pub fn gemini_contents(conversation: &Vec<ConversationItem>) -> (r: Result<
    (String, Vec<Json>),
    ModelError,
>)
    ensures
        outcome::of(r) == contents_spec(conversation.deep_view()),
{
    let ghost all = conversation.deep_view();
    let systems = fields::system_text(conversation);
    let mut contents: Vec<Turn> = Vec::new();
    let mut i: usize = 0;
    assert(all.take(0) =~= Seq::<ItemView>::empty());
    assert(contents.deep_view() =~= Seq::<TurnView>::empty());
    while i < conversation.len()
        invariant
            i <= conversation@.len(),
            all == conversation.deep_view(),
            all.len() == conversation@.len(),
            turns_spec(all.take(i as int)) == Ok::<Seq<TurnView>, ModelFault>(
                contents.deep_view(),
            ),
        decreases conversation@.len() - i,
    {
        assert(all[i as int] == conversation@[i as int].deep_view());
        assert(all.take(i as int + 1).drop_last() =~= all.take(i as int));
        assert(all.take(i as int + 1).last() == all[i as int]);
        let r: Result<(), ModelError> = match &conversation[i] {
            ConversationItem::Message(m) => match m.role {
                Role::System => Ok(()),
                Role::User => turns::push_blocks(
                    &mut contents,
                    "user",
                    one(Json::object1("text", Json::text(m.content.as_str()))),
                    "Gemini content parts cannot be empty",
                ),
                Role::Assistant => turns::push_blocks(
                    &mut contents,
                    "model",
                    one(Json::object1("text", Json::text(m.content.as_str()))),
                    "Gemini content parts cannot be empty",
                ),
            },
            ConversationItem::UserContent(content) => turns::push_blocks(
                &mut contents,
                "user",
                attachments::parts_json(ImageWire::Contents, content),
                "Gemini content parts cannot be empty",
            ),
            ConversationItem::AssistantToolCalls { text, calls } => {
                let parts = turn_json(text.as_str(), calls);
                assert(parts.deep_view().len() == parts@.len());
                turns::push_blocks(
                    &mut contents,
                    "model",
                    parts,
                    "Gemini content parts cannot be empty",
                )
            },
            ConversationItem::ToolResult(result) => {
                let response = if result.content.is_object() {
                    result.content.clone()
                } else {
                    Json::object1("result", result.content.clone())
                };
                turns::push_blocks(
                    &mut contents,
                    "user",
                    one(
                        Json::object1(
                            "functionResponse",
                            Json::object3(
                                "id",
                                Json::text(result.call_id.as_str()),
                                "name",
                                Json::text(result.name.as_str()),
                                "response",
                                response,
                            ),
                        ),
                    ),
                    "Gemini content parts cannot be empty",
                )
            },
        };
        match r {
            Ok(_) => {},
            Err(e) => {
                proof {
                    lemma_turns_err(all, i as int + 1);
                }
                return Err(e);
            },
        }
        i += 1;
    }
    assert(all.take(all.len() as int) =~= all);
    assert(contents.deep_view().len() == contents@.len());
    if contents.len() == 0 {
        return Err(ModelError::invalid("Gemini requires at least one non-system content item"));
    }
    assert(text::views(systems@) =~= systems.deep_view());
    Ok((text::join(&systems, "\n\n"), turns::render(contents, "parts")))
}

/// Configuration for Google's native Gemini `GenerateContent` API. Of the credential
/// only its presence is part of it.
#[derive(Debug)]
pub struct GeminiConfig {
    pub name: String,
    pub base_url: String,
    pub model: String,
    pub has_api_key: bool,
    /// Longest time that a request may take, in nanoseconds.
    pub timeout_ns: u64,
    pub capabilities: ModelCapabilities,
    pub stream: bool,
}

/// A [`GeminiConfig`] by its texts.
pub struct ConfigView {
    pub name: Seq<char>,
    pub base_url: Seq<char>,
    pub model: Seq<char>,
    pub has_api_key: bool,
    pub timeout_ns: u64,
    pub capabilities: ModelCapabilities,
    pub stream: bool,
}

impl DeepView for GeminiConfig {
    type V = ConfigView;

    open spec fn deep_view(&self) -> ConfigView {
        ConfigView {
            name: self.name@,
            base_url: self.base_url@,
            model: self.model@,
            has_api_key: self.has_api_key,
            timeout_ns: self.timeout_ns,
            capabilities: self.capabilities,
            stream: self.stream,
        }
    }
}

impl GeminiConfig {
    /// Creates the default hosted Gemini configuration.
    pub fn hosted(model: &str, has_api_key: bool) -> (r: GeminiConfig)
        ensures
            r.deep_view() == (ConfigView {
                name: "gemini"@,
                base_url: "https://generativelanguage.googleapis.com"@,
                model: model@,
                has_api_key,
                timeout_ns: 300000000000,
                capabilities: ModelCapabilities::usual(),
                stream: true,
            }),
    {
        GeminiConfig {
            name: "gemini".to_owned(),
            base_url: "https://generativelanguage.googleapis.com".to_owned(),
            model: model.to_owned(),
            has_api_key,
            timeout_ns: 300000000000,
            capabilities: ModelCapabilities::default(),
            stream: true,
        }
    }
}

/// A character that may stand in a model's identifier.
pub open spec fn is_model_char(c: char) -> bool {
    'a' <= c <= 'z' || 'A' <= c <= 'Z' || '0' <= c <= '9' || c == '-' || c == '_' || c == '.'
}

/// Whether a text may be a model's identifier: it cannot leave its place in a URL's
/// path.
pub open spec fn is_model_id(model: Seq<char>) -> bool {
    1 <= model.len() <= 512 && forall|i: int|
        0 <= i < model.len() ==> is_model_char(#[trigger] model[i])
}

/// Checks a model's identifier.
pub fn validate_model_id(model: &str) -> (r: Result<(), ModelError>)
    ensures
        outcome::of(r) == (if is_model_id(model@) {
            Ok::<(), ModelFault>(())
        } else {
            Err(
                ModelFault::InvalidRequest(
                    "Gemini model id must use only ASCII letters, numbers, '-', '_', or '.'"@,
                ),
            )
        }),
{
    let chars = text::chars_of(model);
    let mut fits = chars.len() > 0 && chars.len() <= 512;
    let mut i: usize = 0;
    while i < chars.len()
        invariant
            chars@ == model@,
            i <= chars@.len(),
            fits == (1 <= model@.len() <= 512 && forall|k: int|
                0 <= k < i ==> is_model_char(#[trigger] model@[k])),
        decreases chars@.len() - i,
    {
        let c = chars[i];
        if !(('a' <= c && c <= 'z') || ('A' <= c && c <= 'Z') || ('0' <= c && c <= '9') || c == '-'
            || c == '_' || c == '.') {
            assert(!is_model_char(model@[i as int]));
            fits = false;
        }
        i += 1;
    }
    if fits {
        Ok(())
    } else {
        Err(
            ModelError::invalid(
                "Gemini model id must use only ASCII letters, numbers, '-', '_', or '.'",
            ),
        )
    }
}

/// Whether a configuration is refused, given the parts of its URL.
pub open spec fn config_spec(
    config: ConfigView,
    parsed: Result<endpoint::PartsView, Seq<char>>,
) -> Result<(), ModelFault> {
    match endpoint::endpoint_spec(
        parsed,
        "invalid Gemini endpoint: "@,
        "remote Gemini endpoints must use HTTPS"@,
    ) {
        Err(e) => Err(e),
        Ok(_) => if !is_model_id(config.model) {
            Err(
                ModelFault::InvalidRequest(
                    "Gemini model id must use only ASCII letters, numbers, '-', '_', or '.'"@,
                ),
            )
        } else if !endpoint::is_named(config.name) {
            Err(ModelFault::InvalidRequest("provider name cannot be empty"@))
        } else if !config.has_api_key {
            Err(ModelFault::InvalidRequest("Gemini API key cannot be empty"@))
        } else if config.timeout_ns == 0 {
            Err(ModelFault::InvalidRequest("provider timeout must be greater than zero"@))
        } else {
            Ok(())
        },
    }
}

/// Native Gemini driver preserving function-call IDs and thought signatures.
#[derive(Debug)]
pub struct GeminiDriver {
    config: GeminiConfig,
}

impl DeepView for GeminiDriver {
    type V = ConfigView;

    closed spec fn deep_view(&self) -> ConfigView {
        self.config.deep_view()
    }
}

/// The path of the URL that requests go to.
pub open spec fn request_path(base_path: Seq<char>, model: Seq<char>, stream: bool) -> Seq<char> {
    endpoint::without_slashes(base_path) + "/v1beta/models/"@ + model + ":"@ + (if stream {
        "streamGenerateContent"@
    } else {
        "generateContent"@
    })
}

/// The fault of an endpoint that is no URL.
pub open spec fn endpoint_fault(message: Seq<char>) -> ModelFault {
    ModelFault::InvalidRequest("invalid Gemini endpoint: "@ + message)
}

/// The fault of an endpoint that has no room for a request's path and query.
pub open spec fn length_fault() -> ModelFault {
    ModelFault::InvalidRequest("Gemini endpoint is too long"@)
}

/// The URL with the path that requests go to.
pub open spec fn url_at_path(base: Seq<char>, path: Seq<char>) -> Result<Seq<char>, ModelFault> {
    match endpoint::url_parts(base) {
        Err(m) => Err(endpoint_fault(m)),
        Ok(p) => if !endpoint::has_room(p.bytes, text::utf8_len(path)) {
            Err(length_fault())
        } else {
            match endpoint::url_after_path(base, path) {
                Err(m) => Err(endpoint_fault(m)),
                Ok(u) => Ok(u),
            }
        },
    }
}

/// The URL with the query that streams are asked for with.
pub open spec fn url_at_query(base: Seq<char>, query: Seq<char>) -> Result<Seq<char>, ModelFault> {
    match endpoint::url_parts(base) {
        Err(m) => Err(endpoint_fault(m)),
        Ok(p) => if !endpoint::has_room(p.bytes, text::utf8_len(query)) {
            Err(length_fault())
        } else {
            match endpoint::url_after_query(base, query) {
                Err(m) => Err(endpoint_fault(m)),
                Ok(u) => Ok(u),
            }
        },
    }
}

/// The URL that requests go to.
pub open spec fn request_url(config: ConfigView, stream: bool) -> Result<Seq<char>, ModelFault> {
    match endpoint::url_parts(config.base_url) {
        Err(m) => Err(endpoint_fault(m)),
        Ok(p) => match url_at_path(
            config.base_url,
            request_path(p.path, config.model, stream),
        ) {
            Err(e) => Err(e),
            Ok(u) => if stream {
                url_at_query(u, "alt=sse"@)
            } else {
                Ok(u)
            },
        },
    }
}

fn no_endpoint(message: &str) -> (r: ModelError)
    ensures
        r.deep_view() == endpoint_fault(message@),
{
    ModelError::InvalidRequest(text::concat2("invalid Gemini endpoint: ", message))
}

/// Gives a URL, whose parts are given, the path that requests go to.
fn at_path(base: &str, parts: &endpoint::EndpointParts, path: &str) -> (r: Result<
    String,
    ModelError,
>)
    requires
        endpoint::url_parts(base@) == Ok::<endpoint::PartsView, Seq<char>>(parts.deep_view()),
    ensures
        outcome::of(r) == url_at_path(base@, path@),
{
    if !endpoint::leaves_room(parts.bytes, text::byte_len(path)) {
        return Err(ModelError::invalid("Gemini endpoint is too long"));
    }
    match endpoint::with_path(base, path) {
        Ok(url) => Ok(url),
        Err(m) => Err(no_endpoint(m.as_str())),
    }
}

/// Gives a URL the query that streams are asked for with.
fn at_query(base: &str, query: &str) -> (r: Result<String, ModelError>)
    ensures
        outcome::of(r) == url_at_query(base@, query@),
{
    let parts = match endpoint::parse_url(base) {
        Ok(parts) => parts,
        Err(m) => {
            return Err(no_endpoint(m.as_str()));
        },
    };
    if !endpoint::leaves_room(parts.bytes, text::byte_len(query)) {
        return Err(ModelError::invalid("Gemini endpoint is too long"));
    }
    match endpoint::with_query(base, query) {
        Ok(url) => Ok(url),
        Err(m) => Err(no_endpoint(m.as_str())),
    }
}

impl GeminiDriver {
    /// Builds a driver for a valid configuration.
    pub fn new(config: GeminiConfig) -> (r: Result<GeminiDriver, ModelError>)
        ensures
            match r {
                Ok(d) => config_spec(
                    config.deep_view(),
                    endpoint::url_parts(config.base_url@),
                ) is Ok && d.deep_view() == config.deep_view(),
                Err(e) => config_spec(config.deep_view(), endpoint::url_parts(config.base_url@))
                    == Err::<(), ModelFault>(e.deep_view()),
            },
    {
        let parsed = endpoint::parse_url(config.base_url.as_str());
        GeminiDriver::with_parts(config, &parsed)
    }

    /// Builds a driver for a valid configuration whose URL has been parsed.
    pub fn with_parts(
        config: GeminiConfig,
        parsed: &Result<endpoint::EndpointParts, String>,
    ) -> (r: Result<GeminiDriver, ModelError>)
        ensures
            match r {
                Ok(d) => config_spec(config.deep_view(), outcome::of(*parsed)) is Ok
                    && d.deep_view() == config.deep_view(),
                Err(e) => config_spec(config.deep_view(), outcome::of(*parsed)) == Err::<
                    (),
                    ModelFault,
                >(e.deep_view()),
            },
    {
        endpoint::check_endpoint(
            parsed,
            "invalid Gemini endpoint: ",
            "remote Gemini endpoints must use HTTPS",
        )?;
        validate_model_id(config.model.as_str())?;
        if !endpoint::has_name(config.name.as_str()) {
            return Err(ModelError::invalid("provider name cannot be empty"));
        }
        if !config.has_api_key {
            return Err(ModelError::invalid("Gemini API key cannot be empty"));
        }
        if config.timeout_ns == 0 {
            return Err(ModelError::invalid("provider timeout must be greater than zero"));
        }
        Ok(GeminiDriver { config })
    }

    /// The configuration.
    pub fn config(&self) -> (r: &GeminiConfig)
        ensures
            r.deep_view() == self.deep_view(),
    {
        &self.config
    }

    /// The URL that requests go to. An endpoint that has no room for their path and query
    /// is refused.
    pub fn endpoint(&self, stream: bool) -> (r: Result<String, ModelError>)
        ensures
            outcome::of(r) == request_url(self.deep_view(), stream),
    {
        let base = self.config.base_url.as_str();
        let parts = match endpoint::parse_url(base) {
            Ok(parts) => parts,
            Err(m) => {
                return Err(no_endpoint(m.as_str()));
            },
        };
        let operation = if stream {
            "streamGenerateContent"
        } else {
            "generateContent"
        };
        let path = text::concat5(
            endpoint::trim_slashes(parts.path.as_str()).as_str(),
            "/v1beta/models/",
            self.config.model.as_str(),
            ":",
            operation,
        );
        let url = at_path(base, &parts, path.as_str())?;
        if stream {
            at_query(url.as_str(), "alt=sse")
        } else {
            Ok(url)
        }
    }
}

/// A function declaration on the wire.
pub open spec fn declaration_spec(t: DescriptorView) -> JsonView {
    json::obj3(
        "name"@,
        JsonView::Text(t.name),
        "description"@,
        JsonView::Text(t.description),
        "parameters"@,
        t.input_schema,
    )
}

/// The function declarations of a request.
pub open spec fn declarations_spec(tools: Seq<DescriptorView>) -> Seq<JsonView> {
    Seq::new(tools.len(), |i: int| declaration_spec(tools[i]))
}

fn declarations(tools: &Vec<ToolDescriptor>) -> (r: Vec<Json>)
    ensures
        r.deep_view() == declarations_spec(tools.deep_view()),
{
    let ghost all = tools.deep_view();
    let mut out: Vec<Json> = Vec::new();
    let mut i: usize = 0;
    while i < tools.len()
        invariant
            i <= tools@.len(),
            all == tools.deep_view(),
            all.len() == tools@.len(),
            out@.len() == i,
            forall|k: int|
                0 <= k < i ==> (#[trigger] out@[k]).deep_view() == declaration_spec(all[k]),
        decreases tools@.len() - i,
    {
        let tool = &tools[i];
        assert(all[i as int] == tool.deep_view());
        out.push(
            Json::object3(
                "name",
                Json::text(tool.name.as_str()),
                "description",
                Json::text(tool.description.as_str()),
                "parameters",
                tool.input_schema.clone(),
            ),
        );
        i += 1;
    }
    assert(out.deep_view() =~= declarations_spec(all));
    out
}

/// How the provider is to generate, or that it cannot.
pub open spec fn generation_spec(max_output_tokens: u64, temperature: Temperature) -> Result<
    JsonView,
    ModelFault,
> {
    let base = json::obj1("maxOutputTokens"@, json::num(max_output_tokens as nat));
    match temperature {
        Temperature::Unset => Ok(base),
        Temperature::OutOfRange => Err(
            ModelFault::InvalidRequest("Gemini temperature must be between 0 and 2"@),
        ),
        Temperature::Value(n) => Ok(
            json::with_member(base, "temperature"@, JsonView::Number(json::number_view(n))),
        ),
    }
}

/// The body of a request whose parts are given.
pub open spec fn plain_body(
    system: Seq<char>,
    contents: Seq<JsonView>,
    generation: JsonView,
    tools: Seq<DescriptorView>,
) -> JsonView {
    let base = json::obj2(
        "contents"@,
        JsonView::Array(contents),
        "generationConfig"@,
        generation,
    );
    let instructed = if system.len() > 0 {
        json::with_member(
            base,
            "systemInstruction"@,
            json::obj1("parts"@, JsonView::Array(seq![text_part(system)])),
        )
    } else {
        base
    };
    if tools.len() > 0 {
        json::with_member(
            json::with_member(
                instructed,
                "tools"@,
                JsonView::Array(
                    seq![
                        json::obj1(
                            "functionDeclarations"@,
                            JsonView::Array(declarations_spec(tools)),
                        ),
                    ],
                ),
            ),
            "toolConfig"@,
            json::obj1("functionCallingConfig"@, json::obj1("mode"@, JsonView::Text("AUTO"@))),
        )
    } else {
        instructed
    }
}

/// The body of a request before its size is checked, or why it is refused.
pub open spec fn unmeasured_spec(
    config: ConfigView,
    conversation: Seq<ItemView>,
    tools: Seq<DescriptorView>,
    max_output_tokens: u64,
    temperature: Temperature,
) -> Result<JsonView, ModelFault> {
    if conversation.len() == 0 {
        Err(ModelFault::InvalidRequest("at least one message is required"@))
    } else if max_output_tokens == 0 || max_output_tokens > config.capabilities.max_output_tokens {
        Err(openai_compatible::output_limit_fault(config.capabilities.max_output_tokens))
    } else {
        match requests::images_spec(conversation, config.capabilities.vision) {
            Err(m) => Err(ModelFault::InvalidRequest(m)),
            Ok(_) => {
                match contents_spec(conversation) {
                    Err(e) => Err(e),
                    Ok((system, contents)) => match generation_spec(max_output_tokens, temperature) {
                        Err(e) => Err(e),
                        Ok(generation) => Ok(plain_body(system, contents, generation, tools)),
                    },
                }
            },
        }
    }
}

/// The body of a request, or why it is refused.
pub open spec fn body_spec(
    config: ConfigView,
    conversation: Seq<ItemView>,
    tools: Seq<DescriptorView>,
    max_output_tokens: u64,
    temperature: Temperature,
) -> Result<JsonView, ModelFault> {
    requests::measured(unmeasured_spec(config, conversation, tools, max_output_tokens, temperature))
}

/// The body of a request before its size is checked.
pub fn unmeasured_body(config: &GeminiConfig, request: &ModelRequest) -> (r: Result<Json, ModelError>)
    ensures
        outcome::of(r) == unmeasured_spec(
            config.deep_view(),
            request.conversation.deep_view(),
            request.tools.deep_view(),
            request.max_output_tokens,
            request.temperature,
        ),
{
    assert(request.conversation.deep_view().len() == request.conversation@.len());
    assert(request.tools.deep_view().len() == request.tools@.len());
    if request.conversation.len() == 0 {
        return Err(ModelError::invalid("at least one message is required"));
    }
    if request.max_output_tokens == 0 || request.max_output_tokens
        > config.capabilities.max_output_tokens {
        return Err(
            ModelError::InvalidRequest(
                text::concat2(
                    "max_output_tokens must be between 1 and ",
                    text::decimal_text(config.capabilities.max_output_tokens).as_str(),
                ),
            ),
        );
    }
    match requests::validate_request_images(&request.conversation, config.capabilities.vision) {
        Ok(_) => {},
        Err(m) => {
            return Err(ModelError::InvalidRequest(m));
        },
    }
    let (system, contents) = gemini_contents(&request.conversation)?;
    let mut generation = Json::object1(
        "maxOutputTokens",
        Json::number(request.max_output_tokens),
    );
    match &request.temperature {
        Temperature::Unset => {},
        Temperature::OutOfRange => {
            return Err(ModelError::invalid("Gemini temperature must be between 0 and 2"));
        },
        Temperature::Value(n) => {
            generation.set_member("temperature", Json::numeric(n.clone()));
        },
    }
    let mut body = Json::object2(
        "contents",
        Json::array(contents),
        "generationConfig",
        generation,
    );
    if !system.as_str().is_empty() {
        body.set_member(
            "systemInstruction",
            Json::object1(
                "parts",
                Json::array(one(Json::object1("text", Json::text(system.as_str())))),
            ),
        );
    }
    if request.tools.len() > 0 {
        body.set_member(
            "tools",
            Json::array(
                one(
                    Json::object1(
                        "functionDeclarations",
                        Json::array(declarations(&request.tools)),
                    ),
                ),
            ),
        );
        body.set_member(
            "toolConfig",
            Json::object1("functionCallingConfig", Json::object1("mode", Json::text("AUTO"))),
        );
    }
    Ok(body)
}

/// The body of a request.
pub fn request_body(config: &GeminiConfig, request: &ModelRequest) -> (r: Result<Json, ModelError>)
    ensures
        outcome::of(r) == body_spec(
            config.deep_view(),
            request.conversation.deep_view(),
            request.tools.deep_view(),
            request.max_output_tokens,
            request.temperature,
        ),
{
    let body = unmeasured_body(config, request)?;
    requests::measure(body)
}

/// What an event of a stream does.
pub open spec fn event_step(
    st: GeminiState,
    event: SseEventView,
    parsed: Result<JsonView, Seq<char>>,
    told: ModelFault,
) -> GeminiStep {
    if event.event == Some("error"@) {
        GeminiStep { state: st, events: Seq::empty(), result: Err(told) }
    } else {
        match parsed {
            Err(m) => GeminiStep {
                state: st,
                events: Seq::empty(),
                result: Err(ModelFault::Json(m)),
            },
            Ok(value) => chunk_step(st, value),
        }
    }
}

/// The events of a stream from event `i` on.
pub open spec fn events_step(st: GeminiState, events: Seq<SseEventView>, i: int) -> GeminiStep
    decreases events.len() - i,
{
    if i < 0 || i >= events.len() {
        quiet(st)
    } else {
        let first = event_step(
            st,
            events[i],
            json::json_parse(events[i].data),
            openai_compatible::stream_error(events[i].data),
        );
        after(first, events_step(first.state, events, i + 1))
    }
}

/// A response stream from its first byte to its last.
pub struct GeminiStream {
    meter: StreamMeter,
    decoder: SseDecoder,
    accumulator: GeminiStreamAccumulator,
    request_id: Option<String>,
}

/// What a stream has brought so far.
pub struct GeminiStreamView {
    pub meter: MeterView,
    pub decoder: SseState,
    pub accumulator: GeminiState,
    pub request_id: Option<Seq<char>>,
}

impl DeepView for GeminiStream {
    type V = GeminiStreamView;

    closed spec fn deep_view(&self) -> GeminiStreamView {
        GeminiStreamView {
            meter: self.meter.deep_view(),
            decoder: self.decoder.deep_view(),
            accumulator: self.accumulator.deep_view(),
            request_id: self.request_id.deep_view(),
        }
    }
}

/// What a chunk that is within the size limit does to the decoder and the
/// accumulator.
pub open spec fn chunk_events_step(v: GeminiStreamView, chunk: Seq<u8>) -> GeminiStep {
    match sse::push_spec(v.decoder, chunk).1 {
        Err(e) => fail(v.accumulator, e.message_spec()),
        Ok(events) => events_step(v.accumulator, events, 0),
    }
}

impl GeminiStreamAccumulator {
    /// Takes one event of the stream.
    pub fn apply_event(&mut self, event: &SseEvent, log: &mut Vec<ModelStreamEvent>) -> (r: Result<
        (),
        ModelError,
    >)
        ensures
            ({
                let s = event_step(
                    old(self).deep_view(),
                    event.deep_view(),
                    json::json_parse(event.data@),
                    openai_compatible::stream_error(event.data@),
                );
                &&& final(self).deep_view() == s.state
                &&& final(log).deep_view() == old(log).deep_view() + s.events
                &&& outcome::of(r) == s.result
            }),
    {
        let ghost log0 = log.deep_view();
        assert(log0 + Seq::<StreamEventView>::empty() =~= log0);
        if let Some(name) = &event.event {
            if text::same(name.as_str(), "error") {
                return Err(
                    ModelError::Provider {
                        status: 200,
                        message: driver::provider_message(event.data.as_str().as_bytes()),
                    },
                );
            }
        }
        match Json::parse(event.data.as_str()) {
            Ok(value) => self.apply(&value, log),
            Err(m) => Err(ModelError::Json(m)),
        }
    }
}

impl GeminiStream {
    /// A stream that has not begun.
    pub fn new(request_id: Option<String>) -> (r: GeminiStream)
        ensures
            r.deep_view() == (GeminiStreamView {
                meter: MeterView::fresh(),
                decoder: SseState::fresh(),
                accumulator: GeminiState::fresh(),
                request_id: request_id.deep_view(),
            }),
    {
        GeminiStream {
            meter: StreamMeter::new(),
            decoder: SseDecoder::new(),
            accumulator: GeminiStreamAccumulator::new(),
            request_id,
        }
    }

    /// Takes the next chunk, which arrived after the given time, and logs what it
    /// brings.
    pub fn push(&mut self, chunk: &[u8], elapsed_ms: u64, log: &mut Vec<ModelStreamEvent>) -> (r:
        Result<(), ModelError>)
        ensures
            final(self).deep_view().request_id == old(self).deep_view().request_id,
            ({
                let v = old(self).deep_view();
                if v.meter.wire_bytes + chunk@.len() > transport::MAX_RESPONSE_BYTES {
                    &&& outcome::of(r) == Err::<(), ModelFault>(
                        ModelFault::ResponseTooLarge { limit: transport::MAX_RESPONSE_BYTES },
                    )
                    &&& final(log).deep_view() == old(log).deep_view()
                    &&& final(self).deep_view().accumulator == v.accumulator
                    &&& final(self).deep_view().decoder == v.decoder
                } else {
                    let s = chunk_events_step(v, chunk@);
                    &&& final(self).deep_view().meter == transport::admitted(
                        v.meter,
                        chunk@.len(),
                        elapsed_ms,
                    )
                    &&& final(self).deep_view().decoder == sse::push_spec(v.decoder, chunk@).0
                    &&& final(self).deep_view().accumulator == s.state
                    &&& final(log).deep_view() == old(log).deep_view() + transport::start_events(
                        v.meter,
                        chunk@.len(),
                        elapsed_ms,
                        v.request_id,
                    ) + s.events
                    &&& outcome::of(r) == s.result
                }
            }),
    {
        let ghost v = self.deep_view();
        self.meter.count_chunk(chunk.len(), elapsed_ms, &self.request_id, log)?;
        let ghost log0 = log.deep_view();
        assert(log0 + Seq::<StreamEventView>::empty() =~= log0);
        let events = match self.decoder.push(chunk) {
            Ok(events) => events,
            Err(e) => {
                return Err(ModelError::malformed(e.message()));
            },
        };
        let ghost all = events.deep_view();
        let ghost goal = events_step(v.accumulator, all, 0);
        let ghost mut seen: Seq<StreamEventView> = Seq::empty();
        let ghost meter = self.meter.deep_view();
        let ghost decoder = self.decoder.deep_view();
        let mut i: usize = 0;
        while i < events.len()
            invariant
                i <= events@.len(),
                all == events.deep_view(),
                all.len() == events@.len(),
                self.meter.deep_view() == meter,
                self.decoder.deep_view() == decoder,
                self.request_id.deep_view() == v.request_id,
                ({
                    let rest = events_step(self.accumulator.deep_view(), all, i as int);
                    &&& goal.state == rest.state
                    &&& goal.result == rest.result
                    &&& goal.events == seen + rest.events
                }),
                log.deep_view() == log0 + seen,
                v == old(self).deep_view(),
                v.meter.wire_bytes + chunk@.len() <= transport::MAX_RESPONSE_BYTES,
                meter == transport::admitted(v.meter, chunk@.len(), elapsed_ms),
                decoder == sse::push_spec(v.decoder, chunk@).0,
                sse::push_spec(v.decoder, chunk@).1 == Ok::<Seq<SseEventView>, sse::SseError>(all),
                goal == events_step(v.accumulator, all, 0),
                log0 == old(log).deep_view() + transport::start_events(
                    v.meter,
                    chunk@.len(),
                    elapsed_ms,
                    v.request_id,
                ),
            decreases events@.len() - i,
        {
            assert(all[i as int] == events@[i as int].deep_view());
            let ghost step = event_step(
                self.accumulator.deep_view(),
                all[i as int],
                json::json_parse(all[i as int].data),
                openai_compatible::stream_error(all[i as int].data),
            );
            let r = self.accumulator.apply_event(&events[i], log);
            proof {
                let rest = events_step(step.state, all, i + 1);
                assert(seen + (step.events + rest.events) =~= (seen + step.events) + rest.events);
                seen = seen + step.events;
                assert(log.deep_view() =~= log0 + seen);
            }
            if r.is_err() {
                return r;
            }
            i += 1;
        }
        assert(goal.events =~= seen);
        Ok(())
    }

    /// Ends the stream: the complete response, or why there is none.
    pub fn finish(self) -> (r: Result<ModelResponse, ModelError>)
        ensures
            outcome::of(r) == (if sse::complete(self.deep_view().decoder) {
                finish_spec(
                    self.deep_view().accumulator,
                    self.deep_view().request_id,
                    self.deep_view().meter.latency(),
                )
            } else {
                Err(
                    ModelFault::MalformedResponse(sse::SseError::IncompleteEvent.message_spec()),
                )
            }),
    {
        let latency: u64 = self.meter.latency();
        match self.decoder.finish() {
            Ok(_) => {},
            Err(e) => {
                return Err(ModelError::malformed(e.message()));
            },
        }
        self.accumulator.finish(self.request_id, latency)
    }
}

} // verus!
