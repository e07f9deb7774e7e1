//! The Responses wire format, with exact replay of the provider's output items.

use crate::json;
use crate::json::{Json, JsonMap, JsonView};
use crate::models::attachments;
use crate::models::attachments::ImageWire;
use crate::models::driver;
use crate::models::driver::{ModelError, ModelFault};
use crate::models::endpoint;
use crate::models::fields;
use crate::models::image::{UserContent, UserContentView};
use crate::models::requests;
use crate::models::types::{
    ConversationItem, FinishReason, ItemView, ModelCapabilities, ModelRequest, ModelResponse,
    ResponseView, Role, ToolCall, ToolCallView, Usage,
};
use crate::outcome;
use crate::text;
use crate::tools::descriptor::{DescriptorView, ToolDescriptor};
use vstd::prelude::*;

verus! {

/// Largest text of one response, in bytes.
pub const MAX_TEXT_BYTES: usize = 8388608;

/// Largest arguments of one tool call, in bytes.
pub const MAX_ARGUMENT_BYTES: usize = 1048576;

/// Largest number of tool calls in one response.
pub const MAX_TOOL_CALLS: usize = 128;

/// Longest part of a reply that is no JSON shown in an error, in characters.
pub const MAX_ERROR_CHARS: usize = 512;

/// The extension of a response's first tool call that holds all output items of
/// the response, to be sent back as they came.
pub open spec fn replay_key() -> Seq<char> {
    "openai_responses_output_items"@
}

/// What has been read of a response's output.
pub struct OutputView {
    pub text: Seq<char>,
    pub calls: Seq<ToolCallView>,
    pub refused: bool,
}

/// A malformed response, in words.
pub open spec fn malformed<T>(m: Seq<char>) -> Result<T, ModelFault> {
    Err(ModelFault::MalformedResponse(m))
}

/// A text member that is not empty.
pub open spec fn required_spec(value: JsonView, key: Seq<char>) -> Result<Seq<char>, ModelFault> {
    match json::text_member(value, key) {
        Some(t) => if t.len() > 0 {
            Ok(t)
        } else {
            malformed("Responses "@ + key + " is missing"@)
        },
        None => malformed("Responses "@ + key + " is missing"@),
    }
}

/// Reads a text member that is not empty.
pub fn required_string<'a>(value: &'a Json, key: &str) -> (r: Result<&'a str, ModelError>)
    ensures
        match r {
            Ok(t) => required_spec(value.deep_view(), key@) == Ok::<Seq<char>, ModelFault>(t@),
            Err(e) => required_spec(value.deep_view(), key@) == Err::<Seq<char>, ModelFault>(
                e.deep_view(),
            ),
        },
{
    if let Some(t) = value.text_member(key) {
        if !t.is_empty() {
            return Ok(t);
        }
    }
    Err(ModelError::MalformedResponse(text::concat3("Responses ", key, " is missing")))
}

/// What one part of a message adds.
pub open spec fn part_spec(out: OutputView, part: JsonView) -> Result<OutputView, ModelFault> {
    let kind = json::text_member(part, "type"@);
    if kind == Some("output_text"@) {
        match json::text_member(part, "text"@) {
            None => malformed("Responses text is missing"@),
            Some(t) => if text::utf8_len(out.text) + text::utf8_len(t) > MAX_TEXT_BYTES {
                Err(ModelFault::ResponseTooLarge { limit: MAX_TEXT_BYTES })
            } else {
                Ok(OutputView { text: out.text + t, ..out })
            },
        }
    } else if kind == Some("refusal"@) {
        Ok(OutputView { refused: true, ..out })
    } else {
        malformed("unsupported Responses content part"@)
    }
}

/// What the parts of a message from part `i` on add.
pub open spec fn parts_spec(out: OutputView, parts: Seq<JsonView>, i: int) -> Result<
    OutputView,
    ModelFault,
>
    decreases parts.len() - i,
{
    if i < 0 || i >= parts.len() {
        Ok(out)
    } else {
        match part_spec(out, parts[i]) {
            Err(e) => Err(e),
            Ok(next) => parts_spec(next, parts, i + 1),
        }
    }
}

/// The complete call that an output item stands for.
pub open spec fn call_spec(item: JsonView) -> Result<ToolCallView, ModelFault> {
    match required_spec(item, "call_id"@) {
        Err(e) => Err(e),
        Ok(id) => match required_spec(item, "name"@) {
            Err(e) => Err(e),
            Ok(name) => match required_spec(item, "arguments"@) {
                Err(e) => Err(e),
                Ok(arguments) => if text::utf8_len(arguments) > MAX_ARGUMENT_BYTES {
                    Err(ModelFault::ResponseTooLarge { limit: MAX_ARGUMENT_BYTES })
                } else {
                    call_with_spec(id, name, json::json_parse(arguments))
                },
            },
        },
    }
}

/// The complete call of a name and parsed arguments.
pub open spec fn call_with_spec(
    id: Seq<char>,
    name: Seq<char>,
    parsed: Result<JsonView, Seq<char>>,
) -> Result<ToolCallView, ModelFault> {
    match parsed {
        Err(m) => Err(ModelFault::Json(m)),
        Ok(arguments) => if !(arguments is Object) {
            malformed("Responses tool arguments must be an object"@)
        } else {
            Ok(ToolCallView { id, name, arguments, extensions: Map::empty() })
        },
    }
}

/// What one output item adds.
pub open spec fn item_spec(out: OutputView, item: JsonView) -> Result<OutputView, ModelFault> {
    let kind = json::text_member(item, "type"@);
    if kind == Some("reasoning"@) {
        Ok(out)
    } else if kind == Some("message"@) {
        match json::array_member(item, "content"@) {
            None => malformed("Responses message content is missing"@),
            Some(parts) => parts_spec(out, parts, 0),
        }
    } else if kind == Some("function_call"@) {
        if out.calls.len() >= MAX_TOOL_CALLS {
            malformed("too many Responses tool calls"@)
        } else {
            match call_spec(item) {
                Err(e) => Err(e),
                Ok(call) => Ok(OutputView { calls: out.calls.push(call), ..out }),
            }
        }
    } else {
        malformed("unsupported Responses output item"@)
    }
}

/// What the output items from item `i` on add.
pub open spec fn items_spec(out: OutputView, items: Seq<JsonView>, i: int) -> Result<
    OutputView,
    ModelFault,
>
    decreases items.len() - i,
{
    if i < 0 || i >= items.len() {
        Ok(out)
    } else {
        match item_spec(out, items[i]) {
            Err(e) => Err(e),
            Ok(next) => items_spec(next, items, i + 1),
        }
    }
}

/// The output of a response before its first item.
pub open spec fn no_output() -> OutputView {
    OutputView { text: Seq::empty(), calls: Seq::empty(), refused: false }
}

/// The complete call of a name and parsed arguments.
pub fn call_with(id: &str, name: &str, parsed: Result<Json, String>) -> (r: Result<
    ToolCall,
    ModelError,
>)
    ensures
        outcome::of(r) == call_with_spec(id@, name@, outcome::of(parsed)),
{
    let arguments = match parsed {
        Ok(v) => v,
        Err(m) => {
            return Err(ModelError::Json(m));
        },
    };
    if !arguments.is_object() {
        return Err(ModelError::malformed("Responses tool arguments must be an object"));
    }
    Ok(
        ToolCall {
            id: id.to_owned(),
            name: name.to_owned(),
            arguments,
            extensions: JsonMap::new(),
        },
    )
}

fn parse_call(item: &Json) -> (r: Result<ToolCall, ModelError>)
    ensures
        outcome::of(r) == call_spec(item.deep_view()),
{
    let id = required_string(item, "call_id")?;
    let name = required_string(item, "name")?;
    let arguments = required_string(item, "arguments")?;
    if text::byte_len(arguments) > MAX_ARGUMENT_BYTES {
        return Err(ModelError::ResponseTooLarge { limit: MAX_ARGUMENT_BYTES });
    }
    call_with(id, name, Json::parse(arguments))
}

/// Whether a text member has the given text.
fn is_kind(value: &Json, key: &str, name: &str) -> (r: bool)
    ensures
        r == (json::text_member(value.deep_view(), key@) == Some(name@)),
{
    match value.text_member(key) {
        Some(t) => text::same(t, name),
        None => false,
    }
}

/// Reads the output items of a response: its text, its tool calls, and whether it
/// is a refusal.
pub fn parse_output_items(output: &Vec<Json>) -> (r: Result<
    (String, Vec<ToolCall>, bool),
    ModelError,
>)
    ensures
        match r {
            Ok(t) => items_spec(no_output(), output.deep_view(), 0) == Ok::<
                OutputView,
                ModelFault,
            >(OutputView { text: t.0@, calls: t.1.deep_view(), refused: t.2 }),
            Err(e) => items_spec(no_output(), output.deep_view(), 0) == Err::<
                OutputView,
                ModelFault,
            >(e.deep_view()),
        },
{
    let ghost all = output.deep_view();
    let mut content = String::new();
    let mut calls: Vec<ToolCall> = Vec::new();
    let mut refused = false;
    let mut i: usize = 0;
    assert(calls.deep_view() =~= Seq::<ToolCallView>::empty());
    while i < output.len()
        invariant
            i <= output@.len(),
            all == output.deep_view(),
            all.len() == output@.len(),
            items_spec(no_output(), all, 0) == items_spec(
                OutputView { text: content@, calls: calls.deep_view(), refused },
                all,
                i as int,
            ),
        decreases output@.len() - i,
    {
        let item = &output[i];
        let ghost out = OutputView { text: content@, calls: calls.deep_view(), refused };
        assert(all[i as int] == item.deep_view());
        assert(calls.deep_view().len() == calls@.len());
        if is_kind(item, "type", "reasoning") {
        } else if is_kind(item, "type", "message") {
            let parts = match item.array_member("content") {
                Some(parts) => parts,
                None => {
                    return Err(ModelError::malformed("Responses message content is missing"));
                },
            };
            let ghost pieces = parts.deep_view();
            let mut k: usize = 0;
            while k < parts.len()
                invariant
                    i < output@.len(),
                    all == output.deep_view(),
                    all.len() == output@.len(),
                    all[i as int] == item.deep_view(),
                    k <= parts@.len(),
                    pieces == parts.deep_view(),
                    pieces.len() == parts@.len(),
                    parts_spec(out, pieces, 0) == parts_spec(
                        OutputView { text: content@, calls: calls.deep_view(), refused },
                        pieces,
                        k as int,
                    ),
                    item_spec(out, item.deep_view()) == parts_spec(out, pieces, 0),
                    items_spec(no_output(), all, 0) == items_spec(out, all, i as int),
                decreases parts@.len() - k,
            {
                let part = &parts[k];
                assert(pieces[k as int] == part.deep_view());
                if is_kind(part, "type", "output_text") {
                    let fragment = match part.text_member("text") {
                        Some(t) => t,
                        None => {
                            return Err(ModelError::malformed("Responses text is missing"));
                        },
                    };
                    fields::append_text(&mut content, fragment, MAX_TEXT_BYTES)?;
                } else if is_kind(part, "type", "refusal") {
                    refused = true;
                } else {
                    return Err(ModelError::malformed("unsupported Responses content part"));
                }
                k += 1;
            }
        } else if is_kind(item, "type", "function_call") {
            if calls.len() >= MAX_TOOL_CALLS {
                return Err(ModelError::malformed("too many Responses tool calls"));
            }
            let call = parse_call(item)?;
            calls.push(call);
            assert(calls.deep_view() =~= out.calls.push(call.deep_view()));
        } else {
            return Err(ModelError::malformed("unsupported Responses output item"));
        }
        i += 1;
    }
    Ok((content, calls, refused))
}

/// How a response that is not refused and calls no tool ended.
pub open spec fn status_spec(value: JsonView) -> Result<FinishReason, ModelFault> {
    let status = json::text_member(value, "status"@);
    if status == Some("completed"@) {
        Ok(FinishReason::Complete)
    } else if status == Some("incomplete"@) {
        let reason = match json::member2(value, "incomplete_details"@, "reason"@) {
            Some(v) => json::text_of(v),
            None => None,
        };
        if reason == Some("max_output_tokens"@) {
            Ok(FinishReason::Length)
        } else if reason == Some("content_filter"@) {
            Ok(FinishReason::ContentFilter)
        } else {
            Ok(FinishReason::Unknown)
        }
    } else {
        malformed(
            "Responses status "@ + (match status {
                Some(s) => "Some("@ + text::debug_view(s) + ")"@,
                None => "None"@,
            }) + " is not terminal"@,
        )
    }
}

/// Reads how a response ended.
fn parse_status(value: &Json) -> (r: Result<FinishReason, ModelError>)
    ensures
        match r {
            Ok(f) => status_spec(value.deep_view()) == Ok::<FinishReason, ModelFault>(f),
            Err(e) => status_spec(value.deep_view()) == Err::<FinishReason, ModelFault>(
                e.deep_view(),
            ),
        },
{
    if is_kind(value, "status", "completed") {
        return Ok(FinishReason::Complete);
    }
    if is_kind(value, "status", "incomplete") {
        let reason = match value.get2("incomplete_details", "reason") {
            Some(v) => v.as_str(),
            None => None,
        };
        return match reason {
            Some(name) => if text::same(name, "max_output_tokens") {
                Ok(FinishReason::Length)
            } else if text::same(name, "content_filter") {
                Ok(FinishReason::ContentFilter)
            } else {
                Ok(FinishReason::Unknown)
            },
            None => Ok(FinishReason::Unknown),
        };
    }
    let shown = match value.text_member("status") {
        Some(s) => text::concat3("Some(", text::debug_text(s).as_str(), ")"),
        None => "None".to_owned(),
    };
    Err(
        ModelError::MalformedResponse(
            text::concat3("Responses status ", shown.as_str(), " is not terminal"),
        ),
    )
}

/// The counters of a usage report.
pub open spec fn usage_spec(usage: JsonView) -> Usage {
    Usage {
        input_tokens: fields::number_spec(usage, "input_tokens"@),
        output_tokens: fields::number_spec(usage, "output_tokens"@),
        cached_input_tokens: detail_spec(usage, "cached_tokens"@),
        cache_creation_input_tokens: detail_spec(usage, "cache_write_tokens"@),
    }
}

/// A counter of the input token details, or zero.
pub open spec fn detail_spec(usage: JsonView, key: Seq<char>) -> u64 {
    match json::member2(usage, "input_tokens_details"@, key) {
        Some(v) => match json::u64_of(v) {
            Some(n) => n,
            None => 0,
        },
        None => 0,
    }
}

fn detail(usage: &Json, key: &str) -> (r: u64)
    ensures
        r == detail_spec(usage.deep_view(), key@),
{
    match usage.get2("input_tokens_details", key) {
        Some(v) => match v.as_u64() {
            Some(n) => n,
            None => 0,
        },
        None => 0,
    }
}

/// The first call with the output items of its response attached.
pub open spec fn with_replay(calls: Seq<ToolCallView>, output: Seq<JsonView>) -> Seq<
    ToolCallView,
> {
    if calls.len() == 0 {
        calls
    } else {
        calls.update(
            0,
            ToolCallView {
                extensions: calls[0].extensions.insert(replay_key(), JsonView::Array(output)),
                ..calls[0]
            },
        )
    }
}

/// The response that a reply stands for, or why it stands for none.
pub open spec fn response_spec(value: JsonView, request_id: Option<Seq<char>>) -> Result<
    ResponseView,
    ModelFault,
> {
    if json::text_member(value, "object"@) != Some("response"@) {
        malformed("Responses object type is missing"@)
    } else {
        match json::array_member(value, "output"@) {
            None => malformed("Responses output is missing"@),
            Some(output) => match status_spec(value) {
                Err(e) => Err(e),
                Ok(ended) => match items_spec(no_output(), output, 0) {
                    Err(e) => Err(e),
                    Ok(out) => if out.calls.len() > 0 && out.refused {
                        malformed("refused Responses output also contained tool calls"@)
                    } else if out.calls.len() > 0 && json::text_member(value, "status"@) != Some(
                        "completed"@,
                    ) {
                        malformed("incomplete Responses tool calls cannot be executed"@)
                    } else {
                        Ok(
                            ResponseView {
                                text: out.text,
                                tool_calls: with_replay(out.calls, output),
                                finish_reason: if out.calls.len() > 0 {
                                    FinishReason::ToolCalls
                                } else if out.refused {
                                    FinishReason::ContentFilter
                                } else {
                                    ended
                                },
                                usage: match json::member(value, "usage"@) {
                                    Some(u) => usage_spec(u),
                                    None => Usage::zero(),
                                },
                                provider_request_id: request_id,
                                extensions: match json::member(value, "id"@) {
                                    Some(id) => Map::<Seq<char>, JsonView>::empty().insert(
                                        "response_id"@,
                                        id,
                                    ),
                                    None => Map::empty(),
                                },
                            },
                        )
                    },
                },
            },
        }
    }
}

/// Reads a reply.
pub fn parse_response(value: &Json, request_id: Option<String>) -> (r: Result<
    ModelResponse,
    ModelError,
>)
    ensures
        outcome::of(r) == response_spec(value.deep_view(), request_id.deep_view()),
{
    if !is_kind(value, "object", "response") {
        return Err(ModelError::malformed("Responses object type is missing"));
    }
    let output = match value.array_member("output") {
        Some(output) => output,
        None => {
            return Err(ModelError::malformed("Responses output is missing"));
        },
    };
    let ended = parse_status(value)?;
    let (content, parsed_calls, refused) = parse_output_items(output)?;
    let mut calls = parsed_calls;
    let ghost found = calls.deep_view();
    assert(found.len() == calls@.len());
    let mut finish_reason = ended;
    if refused {
        finish_reason = FinishReason::ContentFilter;
    }
    if calls.len() > 0 {
        if refused {
            return Err(
                ModelError::malformed("refused Responses output also contained tool calls"),
            );
        }
        if !is_kind(value, "status", "completed") {
            return Err(
                ModelError::malformed("incomplete Responses tool calls cannot be executed"),
            );
        }
        let mut first = calls.remove(0);
        first.extensions.insert("openai_responses_output_items", copy_items(output));
        calls.insert(0, first);
        assert(calls.deep_view() =~= with_replay(found, output.deep_view()));
        finish_reason = FinishReason::ToolCalls;
    }
    let usage = match value.get("usage") {
        Some(u) => Usage {
            input_tokens: fields::number(u, "input_tokens"),
            output_tokens: fields::number(u, "output_tokens"),
            cached_input_tokens: detail(u, "cached_tokens"),
            cache_creation_input_tokens: detail(u, "cache_write_tokens"),
        },
        None => Usage::default(),
    };
    let mut extensions = JsonMap::new();
    if let Some(id) = value.get("id") {
        extensions.insert("response_id", id.clone());
    }
    Ok(
        ModelResponse {
            text: content,
            tool_calls: calls,
            finish_reason,
            usage,
            provider_request_id: request_id,
            extensions,
        },
    )
}

/// The items of an array once more, as one value.
fn copy_items(items: &Vec<Json>) -> (r: Json)
    ensures
        r.deep_view() == JsonView::Array(items.deep_view()),
{
    let mut out: Vec<Json> = Vec::new();
    push_copies(&mut out, items);
    assert(out.deep_view() =~= items.deep_view());
    Json::array(out)
}

/// Appends copies of all items.
fn push_copies(target: &mut Vec<Json>, items: &Vec<Json>)
    ensures
        final(target).deep_view() == old(target).deep_view() + items.deep_view(),
{
    let ghost before = target.deep_view();
    let ghost all = items.deep_view();
    let mut i: usize = 0;
    assert(target.deep_view() =~= before + all.take(0));
    while i < items.len()
        invariant
            i <= items@.len(),
            all == items.deep_view(),
            all.len() == items@.len(),
            target.deep_view() == before + all.take(i as int),
        decreases items@.len() - i,
    {
        let ghost so_far = target.deep_view();
        let copy = items[i].clone();
        assert(all[i as int] == copy.deep_view());
        target.push(copy);
        i += 1;
        assert(target.deep_view() =~= so_far.push(all[i as int - 1]));
        assert(target.deep_view() =~= before + all.take(i as int));
    }
    assert(all.take(all.len() as int) =~= all);
}


/// A user message with images.
pub open spec fn content_input(c: UserContentView) -> JsonView {
    json::obj2(
        "role"@,
        JsonView::Text("user"@),
        "content"@,
        JsonView::Array(attachments::content_parts(ImageWire::Responses, c)),
    )
}

/// A message of one role.
pub open spec fn role_input(role: Seq<char>, content: Seq<char>) -> JsonView {
    json::obj2("role"@, JsonView::Text(role), "content"@, JsonView::Text(content))
}

/// A tool call as an input item.
pub open spec fn call_input(c: ToolCallView) -> JsonView {
    json::obj4(
        "type"@,
        JsonView::Text("function_call"@),
        "call_id"@,
        JsonView::Text(c.id),
        "name"@,
        JsonView::Text(c.name),
        "arguments"@,
        JsonView::Text(json::json_text(c.arguments)),
    )
}

/// The input items of the calls of one turn.
pub open spec fn calls_inputs(calls: Seq<ToolCallView>) -> Seq<JsonView> {
    Seq::new(calls.len(), |i: int| call_input(calls[i]))
}

/// The input items of an assistant turn: the recorded output items as they came,
/// else its text and its calls.
pub open spec fn turn_inputs(t: Seq<char>, calls: Seq<ToolCallView>) -> Result<
    Seq<JsonView>,
    ModelFault,
> {
    if calls.len() > 0 && calls[0].extensions.contains_key(replay_key()) {
        match calls[0].extensions[replay_key()] {
            JsonView::Array(items) => Ok(items),
            _ => malformed("Responses replay items are invalid"@),
        }
    } else if t.len() > 0 {
        Ok(seq![role_input("assistant"@, t)] + calls_inputs(calls))
    } else {
        Ok(calls_inputs(calls))
    }
}

/// The input items that a conversation item makes. System messages make none of
/// their own.
pub open spec fn item_inputs(item: ItemView) -> Result<Seq<JsonView>, ModelFault> {
    match item {
        ItemView::Message(m) => match m.role {
            Role::System => Ok(Seq::empty()),
            Role::User => Ok(seq![role_input("user"@, m.content)]),
            Role::Assistant => Ok(seq![role_input("assistant"@, m.content)]),
        },
        ItemView::UserContent(c) => Ok(seq![content_input(c)]),
        ItemView::AssistantToolCalls { text, calls } => turn_inputs(text, calls),
        ItemView::ToolResult(r) => Ok(
            seq![
                json::obj3(
                    "type"@,
                    JsonView::Text("function_call_output"@),
                    "call_id"@,
                    JsonView::Text(r.call_id),
                    "output"@,
                    JsonView::Text(json::json_text(r.content)),
                ),
            ],
        ),
    }
}

/// The input items of a conversation, without the leading system message.
pub open spec fn other_inputs(conversation: Seq<ItemView>) -> Result<Seq<JsonView>, ModelFault>
    decreases conversation.len(),
{
    if conversation.len() == 0 {
        Ok(Seq::empty())
    } else {
        match other_inputs(conversation.drop_last()) {
            Err(e) => Err(e),
            Ok(before) => match item_inputs(conversation.last()) {
                Err(e) => Err(e),
                Ok(items) => Ok(before + items),
            },
        }
    }
}

/// The input items of a conversation: all system instructions in one leading
/// message, and the other items in order.
pub open spec fn inputs_spec(conversation: Seq<ItemView>) -> Result<Seq<JsonView>, ModelFault> {
    match other_inputs(conversation) {
        Err(e) => Err(e),
        Ok(inputs) => {
            let systems = fields::system_texts(conversation);
            if systems.len() == 0 {
                Ok(inputs)
            } else {
                Ok(
                    seq![role_input("system"@, text::join_spec(systems, "\n\n"@))] + inputs,
                )
            }
        },
    }
}

proof fn lemma_other_inputs_err(conversation: Seq<ItemView>, i: int)
    requires
        0 <= i <= conversation.len(),
        other_inputs(conversation.take(i)) is Err,
    ensures
        other_inputs(conversation) == other_inputs(conversation.take(i)),
    decreases conversation.len() - i,
{
    if i == conversation.len() {
        assert(conversation.take(i) =~= conversation);
    } else {
        assert(conversation.take(i + 1).drop_last() =~= conversation.take(i));
        lemma_other_inputs_err(conversation, i + 1);
    }
}

fn role_json(role: &str, content: &str) -> (r: Json)
    ensures
        r.deep_view() == role_input(role@, content@),
{
    Json::object2("role", Json::text(role), "content", Json::text(content))
}

fn content_json(content: &UserContent) -> (r: Json)
    ensures
        r.deep_view() == content_input(content.deep_view()),
{
    Json::object2(
        "role",
        Json::text("user"),
        "content",
        Json::array(attachments::parts_json(ImageWire::Responses, content)),
    )
}

/// Appends the input items of an assistant turn.
fn push_turn(input: &mut Vec<Json>, content: &str, calls: &Vec<ToolCall>) -> (r: Result<
    (),
    ModelError,
>)
    ensures
        match turn_inputs(content@, calls.deep_view()) {
            Ok(items) => r is Ok && final(input).deep_view() == old(input).deep_view() + items,
            Err(e) => outcome::of(r) == Err::<(), ModelFault>(e) && final(input).deep_view() == old(input).deep_view(),
        },
{
    let ghost all = calls.deep_view();
    assert(all.len() == calls@.len());
    if calls.len() > 0 {
        assert(all[0] == calls@[0].deep_view());
        if let Some(items) = calls[0].extensions.get("openai_responses_output_items") {
            match items.as_array() {
                Some(items) => {
                    push_copies(input, items);
                    return Ok(());
                },
                None => {
                    return Err(ModelError::malformed("Responses replay items are invalid"));
                },
            }
        }
    }
    let ghost start = input.deep_view();
    if !content.is_empty() {
        input.push(role_json("assistant", content));
        assert(input.deep_view() =~= start + seq![role_input("assistant"@, content@)]);
    }
    let ghost head = input.deep_view();
    let mut i: usize = 0;
    assert(input.deep_view() =~= head + calls_inputs(all).take(0));
    while i < calls.len()
        invariant
            i <= calls@.len(),
            all == calls.deep_view(),
            all.len() == calls@.len(),
            input.deep_view() == head + calls_inputs(all).take(i as int),
        decreases calls@.len() - i,
    {
        let call = &calls[i];
        let ghost before = input.deep_view();
        assert(all[i as int] == call.deep_view());
        input.push(
            Json::object4(
                "type",
                Json::text("function_call"),
                "call_id",
                Json::text(call.id.as_str()),
                "name",
                Json::text(call.name.as_str()),
                "arguments",
                Json::string(call.arguments.to_text()),
            ),
        );
        assert(input.deep_view() =~= before.push(call_input(all[i as int])));
        i += 1;
        assert(input.deep_view() =~= head + calls_inputs(all).take(i as int));
    }
    assert(calls_inputs(all).take(all.len() as int) =~= calls_inputs(all));
    assert(input.deep_view() =~= start + turn_inputs(content@, all)->Ok_0);
    Ok(())
}

/// The input items of a conversation.
pub fn input_items(conversation: &Vec<ConversationItem>) -> (r: Result<Vec<Json>, ModelError>)
    ensures
        outcome::of(r) == inputs_spec(conversation.deep_view()),
{
    let ghost all = conversation.deep_view();
    let systems = fields::system_text(conversation);
    let mut input: Vec<Json> = Vec::new();
    let mut i: usize = 0;
    assert(all.take(0) =~= Seq::<ItemView>::empty());
    assert(input.deep_view() =~= Seq::<JsonView>::empty());
    while i < conversation.len()
        invariant
            i <= conversation@.len(),
            all == conversation.deep_view(),
            all.len() == conversation@.len(),
            other_inputs(all.take(i as int)) == Ok::<Seq<JsonView>, ModelFault>(
                input.deep_view(),
            ),
        decreases conversation@.len() - i,
    {
        let ghost before = input.deep_view();
        assert(all[i as int] == conversation@[i as int].deep_view());
        assert(all.take(i as int + 1).drop_last() =~= all.take(i as int));
        assert(all.take(i as int + 1).last() == all[i as int]);
        let r: Result<(), ModelError> = match &conversation[i] {
            ConversationItem::Message(m) => {
                match m.role {
                    Role::System => {},
                    Role::User => {
                        input.push(role_json("user", m.content.as_str()));
                    },
                    Role::Assistant => {
                        input.push(role_json("assistant", m.content.as_str()));
                    },
                }
                assert(input.deep_view() =~= before + item_inputs(all[i as int])->Ok_0);
                Ok(())
            },
            ConversationItem::UserContent(content) => {
                input.push(content_json(content));
                assert(input.deep_view() =~= before + item_inputs(all[i as int])->Ok_0);
                Ok(())
            },
            ConversationItem::AssistantToolCalls { text, calls } => push_turn(
                &mut input,
                text.as_str(),
                calls,
            ),
            ConversationItem::ToolResult(result) => {
                input.push(
                    Json::object3(
                        "type",
                        Json::text("function_call_output"),
                        "call_id",
                        Json::text(result.call_id.as_str()),
                        "output",
                        Json::string(result.content.to_text()),
                    ),
                );
                assert(input.deep_view() =~= before + item_inputs(all[i as int])->Ok_0);
                Ok(())
            },
        };
        match r {
            Ok(_) => {},
            Err(e) => {
                proof {
                    lemma_other_inputs_err(all, i as int + 1);
                }
                return Err(e);
            },
        }
        i += 1;
    }
    assert(all.take(all.len() as int) =~= all);
    assert(systems.deep_view().len() == systems@.len());
    assert(text::views(systems@) =~= systems.deep_view());
    if systems.len() > 0 {
        let ghost before = input.deep_view();
        let lead = role_json("system", text::join(&systems, "\n\n").as_str());
        let ghost lead_view = lead.deep_view();
        input.insert(0, lead);
        assert(input.deep_view() =~= seq![lead_view] + before);
    }
    Ok(input)
}

/// Configuration for the native `OpenAI` Responses endpoint. Of the credential only
/// its presence is part of it.
#[derive(Debug)]
pub struct OpenAiResponsesConfig {
    pub name: String,
    pub base_url: String,
    pub model: String,
    pub has_api_key: bool,
    /// Longest time that a request may take, in nanoseconds.
    pub timeout_ns: u64,
    pub capabilities: ModelCapabilities,
}

/// An [`OpenAiResponsesConfig`] by its texts.
pub struct ConfigView {
    pub name: Seq<char>,
    pub base_url: Seq<char>,
    pub model: Seq<char>,
    pub has_api_key: bool,
    pub timeout_ns: u64,
    pub capabilities: ModelCapabilities,
}

impl DeepView for OpenAiResponsesConfig {
    type V = ConfigView;

    open spec fn deep_view(&self) -> ConfigView {
        ConfigView {
            name: self.name@,
            base_url: self.base_url@,
            model: self.model@,
            has_api_key: self.has_api_key,
            timeout_ns: self.timeout_ns,
            capabilities: self.capabilities,
        }
    }
}

/// Whether a configuration is refused, given the parts of its URL.
pub open spec fn config_spec(
    config: ConfigView,
    parsed: Result<endpoint::PartsView, Seq<char>>,
) -> Result<(), ModelFault> {
    match parsed {
        Err(m) => Err(ModelFault::InvalidRequest("invalid Responses endpoint: "@ + m)),
        Ok(p) => if !endpoint::is_private(p) || p.host is None || p.username.len() > 0
            || p.has_password || p.has_query || p.has_fragment {
            Err(
                ModelFault::InvalidRequest(
                    "Responses endpoint must be credential-free HTTPS or loopback HTTP"@,
                ),
            )
        } else if !endpoint::is_named(config.model) || !endpoint::is_named(config.name) {
            Err(ModelFault::InvalidRequest("provider and model names cannot be empty"@))
        } else if !config.has_api_key || config.timeout_ns == 0 {
            Err(
                ModelFault::InvalidRequest(
                    "Responses requires a nonempty API key and positive timeout"@,
                ),
            )
        } else {
            Ok(())
        },
    }
}

/// Stateless Responses adapter with durable, exact output-item replay.
#[derive(Debug)]
pub struct OpenAiResponsesDriver {
    config: OpenAiResponsesConfig,
}

impl DeepView for OpenAiResponsesDriver {
    type V = ConfigView;

    closed spec fn deep_view(&self) -> ConfigView {
        self.config.deep_view()
    }
}

impl OpenAiResponsesDriver {
    /// Builds a driver for a valid configuration.
    pub fn new(config: OpenAiResponsesConfig) -> (r: Result<OpenAiResponsesDriver, ModelError>)
        ensures
            match r {
                Ok(d) => config_spec(
                    config.deep_view(),
                    endpoint::url_parts(config.base_url@),
                ) is Ok && d.deep_view() == config.deep_view(),
                Err(e) => config_spec(config.deep_view(), endpoint::url_parts(config.base_url@))
                    == Err::<(), ModelFault>(e.deep_view()),
            },
    {
        let parsed = endpoint::parse_url(config.base_url.as_str());
        OpenAiResponsesDriver::with_parts(config, &parsed)
    }

    /// Builds a driver for a valid configuration whose URL has been parsed.
    pub fn with_parts(
        config: OpenAiResponsesConfig,
        parsed: &Result<endpoint::EndpointParts, String>,
    ) -> (r: Result<OpenAiResponsesDriver, ModelError>)
        ensures
            match r {
                Ok(d) => config_spec(config.deep_view(), outcome::of(*parsed)) is Ok
                    && d.deep_view() == config.deep_view(),
                Err(e) => config_spec(config.deep_view(), outcome::of(*parsed)) == Err::<
                    (),
                    ModelFault,
                >(e.deep_view()),
            },
    {
        let parts = match parsed {
            Ok(parts) => parts,
            Err(m) => {
                return Err(
                    ModelError::InvalidRequest(
                        text::concat2("invalid Responses endpoint: ", m.as_str()),
                    ),
                );
            },
        };
        if !endpoint::stays_private(parts) || parts.host.is_none()
            || !parts.username.as_str().is_empty() || parts.has_password || parts.has_query
            || parts.has_fragment {
            return Err(
                ModelError::invalid(
                    "Responses endpoint must be credential-free HTTPS or loopback HTTP",
                ),
            );
        }
        if !endpoint::has_name(config.model.as_str()) || !endpoint::has_name(config.name.as_str()) {
            return Err(ModelError::invalid("provider and model names cannot be empty"));
        }
        if !config.has_api_key || config.timeout_ns == 0 {
            return Err(
                ModelError::invalid("Responses requires a nonempty API key and positive timeout"),
            );
        }
        Ok(OpenAiResponsesDriver { config })
    }

    /// The configuration.
    pub fn config(&self) -> (r: &OpenAiResponsesConfig)
        ensures
            r.deep_view() == self.deep_view(),
    {
        &self.config
    }

    /// The URL that requests go to.
    pub fn endpoint(&self) -> (r: String)
        ensures
            r@ == endpoint::without_slashes(self.deep_view().base_url) + "/responses"@,
    {
        text::concat2(
            endpoint::trim_slashes(self.config.base_url.as_str()).as_str(),
            "/responses",
        )
    }
}

/// A tool on the wire.
pub open spec fn tool_json_spec(t: DescriptorView) -> JsonView {
    json::obj4(
        "type"@,
        JsonView::Text("function"@),
        "name"@,
        JsonView::Text(t.name),
        "description"@,
        JsonView::Text(t.description),
        "parameters"@,
        t.input_schema,
    )
}

/// The tools of a request on the wire.
pub open spec fn tools_json_spec(tools: Seq<DescriptorView>) -> Seq<JsonView> {
    Seq::new(tools.len(), |i: int| tool_json_spec(tools[i]))
}

fn tools_json(tools: &Vec<ToolDescriptor>) -> (r: Vec<Json>)
    ensures
        r.deep_view() == tools_json_spec(tools.deep_view()),
{
    let ghost all = tools.deep_view();
    let mut out: Vec<Json> = Vec::new();
    let mut i: usize = 0;
    while i < tools.len()
        invariant
            i <= tools@.len(),
            all == tools.deep_view(),
            all.len() == tools@.len(),
            out@.len() == i,
            forall|k: int|
                0 <= k < i ==> (#[trigger] out@[k]).deep_view() == tool_json_spec(all[k]),
        decreases tools@.len() - i,
    {
        let tool = &tools[i];
        assert(all[i as int] == tool.deep_view());
        out.push(
            Json::object4(
                "type",
                Json::text("function"),
                "name",
                Json::text(tool.name.as_str()),
                "description",
                Json::text(tool.description.as_str()),
                "parameters",
                tool.input_schema.clone(),
            ),
        );
        i += 1;
    }
    assert(out.deep_view() =~= tools_json_spec(all));
    out
}

/// The body of a request.
pub open spec fn plain_body(
    config: ConfigView,
    input: Seq<JsonView>,
    tools: Seq<DescriptorView>,
    max_output_tokens: u64,
) -> JsonView {
    let base = json::with_member(
        json::with_member(
            json::obj4(
                "model"@,
                JsonView::Text(config.model),
                "input"@,
                JsonView::Array(input),
                "max_output_tokens"@,
                json::num(max_output_tokens as nat),
                "store"@,
                JsonView::Bool(false),
            ),
            "stream"@,
            JsonView::Bool(false),
        ),
        "truncation"@,
        JsonView::Text("disabled"@),
    );
    if tools.len() > 0 {
        json::with_member(
            json::with_member(
                json::with_member(base, "tools"@, JsonView::Array(tools_json_spec(tools))),
                "tool_choice"@,
                JsonView::Text("auto"@),
            ),
            "parallel_tool_calls"@,
            JsonView::Bool(config.capabilities.parallel_tools),
        )
    } else {
        base
    }
}

/// The body of a request before its size is checked, or why it is refused.
pub open spec fn unmeasured_spec(
    config: ConfigView,
    conversation: Seq<ItemView>,
    tools: Seq<DescriptorView>,
    max_output_tokens: u64,
) -> Result<JsonView, ModelFault> {
    if max_output_tokens == 0 || max_output_tokens > config.capabilities.max_output_tokens {
        Err(
            ModelFault::InvalidRequest(
                "max_output_tokens is outside the configured model capacity"@,
            ),
        )
    } else {
        match requests::images_spec(conversation, config.capabilities.vision) {
            Err(m) => Err(ModelFault::InvalidRequest(m)),
            Ok(_) => match inputs_spec(conversation) {
                Err(e) => Err(e),
                Ok(input) => Ok(plain_body(config, input, tools, max_output_tokens)),
            },
        }
    }
}

/// The body of a request, or why it is refused.
pub open spec fn body_spec(
    config: ConfigView,
    conversation: Seq<ItemView>,
    tools: Seq<DescriptorView>,
    max_output_tokens: u64,
) -> Result<JsonView, ModelFault> {
    requests::measured(unmeasured_spec(config, conversation, tools, max_output_tokens))
}

/// The body of a request before its size is checked.
pub fn unmeasured_body(config: &OpenAiResponsesConfig, request: &ModelRequest) -> (r: Result<
    Json,
    ModelError,
>)
    ensures
        outcome::of(r) == unmeasured_spec(
            config.deep_view(),
            request.conversation.deep_view(),
            request.tools.deep_view(),
            request.max_output_tokens,
        ),
{
    assert(request.tools.deep_view().len() == request.tools@.len());
    if request.max_output_tokens == 0 || request.max_output_tokens
        > config.capabilities.max_output_tokens {
        return Err(
            ModelError::invalid("max_output_tokens is outside the configured model capacity"),
        );
    }
    match requests::validate_request_images(&request.conversation, config.capabilities.vision) {
        Ok(_) => {},
        Err(m) => {
            return Err(ModelError::InvalidRequest(m));
        },
    }
    let input = input_items(&request.conversation)?;
    let mut body = Json::object4(
        "model",
        Json::text(config.model.as_str()),
        "input",
        Json::array(input),
        "max_output_tokens",
        Json::number(request.max_output_tokens),
        "store",
        Json::boolean(false),
    );
    body.set_member("stream", Json::boolean(false));
    body.set_member("truncation", Json::text("disabled"));
    if request.tools.len() > 0 {
        body.set_member("tools", Json::array(tools_json(&request.tools)));
        body.set_member("tool_choice", Json::text("auto"));
        body.set_member("parallel_tool_calls", Json::boolean(config.capabilities.parallel_tools));
    }
    Ok(body)
}

/// The body of a request.
pub fn request_body(config: &OpenAiResponsesConfig, request: &ModelRequest) -> (r: Result<
    Json,
    ModelError,
>)
    ensures
        outcome::of(r) == body_spec(
            config.deep_view(),
            request.conversation.deep_view(),
            request.tools.deep_view(),
            request.max_output_tokens,
        ),
{
    let body = unmeasured_body(config, request)?;
    requests::measure(body)
}

/// The output items of a response with tool calls come back, exactly and in order,
/// as the input items of the turn that replays it.
pub proof fn law_replay_is_exact(value: JsonView, request_id: Option<Seq<char>>, t: Seq<char>)
    requires
        response_spec(value, request_id) is Ok,
        response_spec(value, request_id)->Ok_0.tool_calls.len() > 0,
    ensures
        json::array_member(value, "output"@) is Some,
        turn_inputs(t, response_spec(value, request_id)->Ok_0.tool_calls) == Ok::<
            Seq<JsonView>,
            ModelFault,
        >(json::array_member(value, "output"@)->0),
{
}

proof fn lemma_items_calls(out: OutputView, items: Seq<JsonView>, i: int)
    requires
        0 <= i,
        items_spec(out, items, i) is Ok,
        out.calls.len() <= MAX_TOOL_CALLS,
        forall|k: int| 0 <= k < out.calls.len() ==> (#[trigger] out.calls[k]).arguments is Object,
    ensures
        ({
            let calls = items_spec(out, items, i)->Ok_0.calls;
            &&& calls.len() <= MAX_TOOL_CALLS
            &&& forall|k: int| 0 <= k < calls.len() ==> (#[trigger] calls[k]).arguments is Object
        }),
    decreases items.len() - i,
{
    if i < items.len() {
        let next = item_spec(out, items[i])->Ok_0;
        if json::text_member(items[i], "type"@) == Some("message"@) && json::text_member(
            items[i],
            "type"@,
        ) != Some("reasoning"@) {
            lemma_parts_keep_calls(out, json::array_member(items[i], "content"@)->0, 0);
        }
        lemma_items_calls(next, items, i + 1);
    }
}

proof fn lemma_parts_keep_calls(out: OutputView, parts: Seq<JsonView>, i: int)
    requires
        0 <= i,
        parts_spec(out, parts, i) is Ok,
    ensures
        parts_spec(out, parts, i)->Ok_0.calls == out.calls,
    decreases parts.len() - i,
{
    if i < parts.len() {
        lemma_parts_keep_calls(part_spec(out, parts[i])->Ok_0, parts, i + 1);
    }
}

/// A response that calls tools is completed, is no refusal, and calls at most the
/// allowed number of tools, each with an object of arguments.
pub proof fn law_only_complete_calls_are_executable(
    value: JsonView,
    request_id: Option<Seq<char>>,
)
    requires
        response_spec(value, request_id) is Ok,
        response_spec(value, request_id)->Ok_0.tool_calls.len() > 0,
    ensures
        ({
            let r = response_spec(value, request_id)->Ok_0;
            &&& json::text_member(value, "status"@) == Some("completed"@)
            &&& r.finish_reason == FinishReason::ToolCalls
            &&& r.tool_calls.len() <= MAX_TOOL_CALLS
            &&& forall|i: int|
                0 <= i < r.tool_calls.len() ==> (#[trigger] r.tool_calls[i]).arguments is Object
        }),
{
    lemma_items_calls(no_output(), json::array_member(value, "output"@)->0, 0);
}

/// The value of a reply, whose JSON value is given if it is one: only status 200 is a
/// success.
pub open spec fn reply_spec(
    status: u16,
    parsed: Result<JsonView, Seq<char>>,
    raw: Seq<char>,
) -> Result<JsonView, ModelFault> {
    if status != 200 {
        Err(
            ModelFault::Provider {
                status,
                message: driver::error_message_spec(
                    driver::parsed_value(parsed),
                    raw,
                    MAX_ERROR_CHARS as nat,
                ),
            },
        )
    } else {
        driver::json_reply_spec(parsed)
    }
}

/// The value of a reply that was parsed.
pub fn accept_parsed(status: u16, parsed: Result<Json, String>, raw: &str) -> (r: Result<
    Json,
    ModelError,
>)
    ensures
        outcome::of(r) == reply_spec(status, outcome::of(parsed), raw@),
{
    if status == 200 {
        return match parsed {
            Ok(v) => Ok(v),
            Err(m) => Err(ModelError::Json(m)),
        };
    }
    let message = match &parsed {
        Ok(v) => driver::error_message(Some(v), raw, MAX_ERROR_CHARS),
        Err(_) => driver::error_message(None, raw, MAX_ERROR_CHARS),
    };
    Err(ModelError::Provider { status, message })
}

/// The value of a reply.
pub fn accept_reply(status: u16, bytes: &[u8]) -> (r: Result<Json, ModelError>)
    ensures
        outcome::of(r) == reply_spec(
            status,
            json::json_parse_bytes(bytes@),
            text::lossy_view(bytes@),
        ),
{
    let raw = text::lossy_text(bytes);
    accept_parsed(status, Json::parse_bytes(bytes), raw.as_str())
}

} // verus!
