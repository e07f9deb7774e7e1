//! The Messages wire format.

use crate::json;
use crate::json::{Json, JsonMap, JsonView};
use crate::models::attachments;
use crate::models::attachments::ImageWire;
use crate::models::driver::{ModelError, ModelFault};
use crate::models::endpoint;
use crate::models::fields;
use crate::models::openai_compatible;
use crate::models::requests;
use crate::models::sse;
use crate::models::sse::{SseDecoder, SseEvent, SseEventView, SseState};
use crate::models::transport;
use crate::models::transport::{MeterView, StreamMeter};
use crate::models::turns;
use crate::models::turns::{Turn, TurnView};
use crate::models::types::{
    ConversationItem, FinishReason, ItemView, ModelCapabilities, ModelRequest, ModelResponse,
    ModelStreamEvent, ResponseView, Role, StreamEventView, Temperature, ToolCall, ToolCallView,
    Usage,
};
use crate::outcome;
use crate::slots::Slots;
use crate::text;
use crate::tools::descriptor::{DescriptorView, ToolDescriptor};
use vstd::prelude::*;

verus! {

/// Largest text of one response, in bytes.
pub const MAX_TEXT_BYTES: usize = 8388608;

/// Largest input of one tool use, in bytes.
pub const MAX_TOOL_ARGUMENT_BYTES: usize = 1048576;

/// Largest number of content blocks in one response.
pub const MAX_CONTENT_BLOCKS: usize = 256;

/// Longest message of an error event, in characters.
pub const MAX_ERROR_CHARS: usize = 1000;

/// A malformed response, in words.
pub open spec fn malformed<T>(m: Seq<char>) -> Result<T, ModelFault> {
    Err(ModelFault::MalformedResponse(m))
}

/// The finish reason that a name stands for.
pub open spec fn finish_reason_spec(reason: Option<Seq<char>>) -> FinishReason {
    match reason {
        Some(r) => if r == "end_turn"@ || r == "stop_sequence"@ {
            FinishReason::Complete
        } else if r == "tool_use"@ {
            FinishReason::ToolCalls
        } else if r == "max_tokens"@ || r == "model_context_window_exceeded"@ {
            FinishReason::Length
        } else if r == "refusal"@ {
            FinishReason::ContentFilter
        } else {
            FinishReason::Unknown
        },
        None => FinishReason::Unknown,
    }
}

/// The finish reason that a name stands for.
pub fn anthropic_finish_reason(reason: Option<&str>) -> (r: FinishReason)
    ensures
        r == finish_reason_spec(reason.deep_view()),
{
    match reason {
        Some(name) => if text::same(name, "end_turn") || text::same(name, "stop_sequence") {
            FinishReason::Complete
        } else if text::same(name, "tool_use") {
            FinishReason::ToolCalls
        } else if text::same(name, "max_tokens") || text::same(
            name,
            "model_context_window_exceeded",
        ) {
            FinishReason::Length
        } else if text::same(name, "refusal") {
            FinishReason::ContentFilter
        } else {
            FinishReason::Unknown
        },
        None => FinishReason::Unknown,
    }
}

/// The counters of a usage report.
pub open spec fn usage_spec(usage: JsonView) -> Usage {
    Usage {
        input_tokens: fields::number_spec(usage, "input_tokens"@),
        output_tokens: fields::number_spec(usage, "output_tokens"@),
        cached_input_tokens: fields::number_spec(usage, "cache_read_input_tokens"@),
        cache_creation_input_tokens: 0,
    }
}

/// The counters of a usage report.
pub fn anthropic_usage(usage: &Json) -> (r: Usage)
    ensures
        r == usage_spec(usage.deep_view()),
{
    Usage {
        input_tokens: fields::number(usage, "input_tokens"),
        output_tokens: fields::number(usage, "output_tokens"),
        cached_input_tokens: fields::number(usage, "cache_read_input_tokens"),
        cache_creation_input_tokens: 0,
    }
}

/// The call that a tool-use block stands for, or why it stands for none.
pub open spec fn tool_use_spec(block: JsonView) -> Result<ToolCallView, ModelFault> {
    match fields::identifier_spec(json::member(block, "id"@), "Anthropic tool-use id"@) {
        Err(e) => Err(e),
        Ok(id) => match fields::identifier_spec(
            json::member(block, "name"@),
            "Anthropic tool-use name"@,
        ) {
            Err(e) => Err(e),
            Ok(name) => match json::member(block, "input"@) {
                None => malformed("Anthropic tool-use block is missing input"@),
                Some(arguments) => if arguments is Object {
                    Ok(ToolCallView { id, name, arguments, extensions: Map::empty() })
                } else {
                    malformed("Anthropic tool input must be a JSON object"@)
                },
            },
        },
    }
}

/// Reads a tool-use block.
pub fn parse_tool_use(block: &Json) -> (r: Result<ToolCall, ModelError>)
    ensures
        outcome::of(r) == tool_use_spec(block.deep_view()),
{
    let id = fields::bounded_identifier(block.get("id"), "Anthropic tool-use id")?;
    let name = fields::bounded_identifier(block.get("name"), "Anthropic tool-use name")?;
    let arguments = match block.get("input") {
        Some(input) => input.clone(),
        None => {
            return Err(ModelError::malformed("Anthropic tool-use block is missing input"));
        },
    };
    if !arguments.is_object() {
        return Err(ModelError::malformed("Anthropic tool input must be a JSON object"));
    }
    Ok(ToolCall { id, name, arguments, extensions: JsonMap::new() })
}

/// The text and the calls that content blocks bring.
pub struct ContentView {
    pub text: Seq<char>,
    pub calls: Seq<ToolCallView>,
}

/// The text of a text block; one without it is empty.
pub open spec fn block_text(block: JsonView) -> Seq<char> {
    match json::text_member(block, "text"@) {
        Some(t) => t,
        None => Seq::empty(),
    }
}

/// The text of a text block.
fn text_of_block(block: &Json) -> (r: &str)
    ensures
        r@ == block_text(block.deep_view()),
{
    match block.text_member("text") {
        Some(t) => t,
        None => {
            proof {
                reveal_strlit("");
                assert(""@ =~= Seq::<char>::empty());
            }
            ""
        },
    }
}

/// What one content block adds.
pub open spec fn block_spec(so_far: ContentView, block: JsonView) -> Result<
    ContentView,
    ModelFault,
> {
    match json::text_member(block, "type"@) {
        None => malformed("Anthropic content block is missing its type"@),
        Some(kind) => if kind == "text"@ {
            if text::utf8_len(so_far.text) + text::utf8_len(block_text(block)) > MAX_TEXT_BYTES {
                Err(ModelFault::ResponseTooLarge { limit: MAX_TEXT_BYTES })
            } else {
                Ok(ContentView { text: so_far.text + block_text(block), ..so_far })
            }
        } else if kind == "tool_use"@ {
            match tool_use_spec(block) {
                Err(e) => Err(e),
                Ok(call) => Ok(ContentView { calls: so_far.calls.push(call), ..so_far }),
            }
        } else if kind == "thinking"@ || kind == "redacted_thinking"@ {
            Ok(so_far)
        } else {
            malformed("unsupported Anthropic content block "@ + text::debug_view(kind))
        },
    }
}

/// What the content blocks from block `i` on add.
pub open spec fn blocks_spec(so_far: ContentView, blocks: Seq<JsonView>, i: int) -> Result<
    ContentView,
    ModelFault,
>
    decreases blocks.len() - i,
{
    if i < 0 || i >= blocks.len() {
        Ok(so_far)
    } else {
        match block_spec(so_far, blocks[i]) {
            Err(e) => Err(e),
            Ok(next) => blocks_spec(next, blocks, i + 1),
        }
    }
}

/// The text and the calls of a response's content.
pub open spec fn content_spec(blocks: Seq<JsonView>) -> Result<ContentView, ModelFault> {
    blocks_spec(ContentView { text: Seq::empty(), calls: Seq::empty() }, blocks, 0)
}

/// Reads the text and the calls of a response's content.
pub fn parse_content(blocks: &Vec<Json>) -> (r: Result<(String, Vec<ToolCall>), ModelError>)
    ensures
        match r {
            Ok(c) => content_spec(blocks.deep_view()) == Ok::<ContentView, ModelFault>(
                ContentView { text: c.0@, calls: c.1.deep_view() },
            ),
            Err(e) => content_spec(blocks.deep_view()) == Err::<ContentView, ModelFault>(
                e.deep_view(),
            ),
        },
{
    let ghost all = blocks.deep_view();
    let mut content = String::new();
    let mut calls: Vec<ToolCall> = Vec::new();
    assert(calls.deep_view() =~= Seq::<ToolCallView>::empty());
    let mut i: usize = 0;
    while i < blocks.len()
        invariant
            i <= blocks@.len(),
            all == blocks.deep_view(),
            all.len() == blocks@.len(),
            content_spec(all) == blocks_spec(
                ContentView { text: content@, calls: calls.deep_view() },
                all,
                i as int,
            ),
        decreases blocks@.len() - i,
    {
        let block = &blocks[i];
        let ghost before = calls.deep_view();
        assert(all[i as int] == block.deep_view());
        let kind = match block.text_member("type") {
            Some(kind) => kind,
            None => {
                return Err(ModelError::malformed("Anthropic content block is missing its type"));
            },
        };
        if text::same(kind, "text") {
            fields::append_text(&mut content, text_of_block(block), MAX_TEXT_BYTES)?;
        } else if text::same(kind, "tool_use") {
            let call = parse_tool_use(block)?;
            let ghost c = call.deep_view();
            calls.push(call);
            assert(calls.deep_view() =~= before.push(c));
        } else if text::same(kind, "thinking") || text::same(kind, "redacted_thinking") {
        } else {
            return Err(
                ModelError::MalformedResponse(
                    text::concat2(
                        "unsupported Anthropic content block ",
                        text::debug_text(kind).as_str(),
                    ),
                ),
            );
        }
        i += 1;
    }
    Ok((content, calls))
}

/// The members of a reply that its response records.
pub open spec fn recorded_keys() -> Seq<Seq<char>> {
    seq!["id"@, "model"@, "type"@]
}

/// The counters that a reply reports, or none.
pub open spec fn reported_usage(value: JsonView) -> Usage {
    match json::member(value, "usage"@) {
        Some(u) => usage_spec(u),
        None => Usage::zero(),
    }
}

/// The response that a buffered reply stands for, or why it stands for none.
pub open spec fn response_spec(value: JsonView, request_id: Option<Seq<char>>) -> Result<
    ResponseView,
    ModelFault,
> {
    match json::array_member(value, "content"@) {
        None => malformed("Anthropic response is missing content"@),
        Some(blocks) => if blocks.len() > MAX_CONTENT_BLOCKS {
            malformed("Anthropic response exceeded the content-block limit"@)
        } else {
            match content_spec(blocks) {
                Err(e) => Err(e),
                Ok(content) => {
                    let finish_reason = finish_reason_spec(
                        json::text_member(value, "stop_reason"@),
                    );
                    if finish_reason == FinishReason::ToolCalls && content.calls.len() == 0 {
                        malformed("Anthropic stopped for tool use but returned no tool block"@)
                    } else {
                        Ok(
                            ResponseView {
                                text: content.text,
                                tool_calls: content.calls,
                                finish_reason,
                                usage: reported_usage(value),
                                provider_request_id: request_id,
                                extensions: openai_compatible::kept_members(
                                    value,
                                    recorded_keys(),
                                ),
                            },
                        )
                    }
                },
            }
        },
    }
}

/// Reads a buffered reply.
pub fn parse_response(value: &Json, request_id: Option<String>) -> (r: Result<
    ModelResponse,
    ModelError,
>)
    ensures
        outcome::of(r) == response_spec(value.deep_view(), request_id.deep_view()),
{
    let blocks = match value.array_member("content") {
        Some(blocks) => blocks,
        None => {
            return Err(ModelError::malformed("Anthropic response is missing content"));
        },
    };
    assert(blocks.deep_view().len() == blocks@.len());
    if blocks.len() > MAX_CONTENT_BLOCKS {
        return Err(
            ModelError::malformed("Anthropic response exceeded the content-block limit"),
        );
    }
    let (content, tool_calls) = parse_content(blocks)?;
    let finish_reason = anthropic_finish_reason(value.text_member("stop_reason"));
    assert(tool_calls.deep_view().len() == tool_calls@.len());
    if finish_reason == FinishReason::ToolCalls && tool_calls.len() == 0 {
        return Err(
            ModelError::malformed("Anthropic stopped for tool use but returned no tool block"),
        );
    }
    let usage = match value.get("usage") {
        Some(u) => anthropic_usage(u),
        None => Usage::default(),
    };
    let mut extensions = JsonMap::new();
    openai_compatible::keep_member(&mut extensions, value, "id");
    openai_compatible::keep_member(&mut extensions, value, "model");
    openai_compatible::keep_member(&mut extensions, value, "type");
    proof {
        let keys = recorded_keys();
        reveal_with_fuel(openai_compatible::kept_members, 4);
        assert(keys.drop_last() =~= seq!["id"@, "model"@]);
        assert(keys.drop_last().drop_last() =~= seq!["id"@]);
        assert(keys.drop_last().drop_last().drop_last() =~= Seq::<Seq<char>>::empty());
    }
    Ok(
        ModelResponse {
            text: content,
            tool_calls,
            finish_reason,
            usage,
            provider_request_id: request_id,
            extensions,
        },
    )
}


/// A tool-use block of a stream.
pub struct ToolBlock {
    id: String,
    name: String,
    initial_input: Json,
    partial_json: String,
    stopped: bool,
}

/// A content block of a stream.
pub enum StreamBlock {
    Text { stopped: bool },
    Tool(ToolBlock),
    Ignored { stopped: bool },
}

/// A [`ToolBlock`] by its texts and values.
pub struct ToolBlockView {
    pub id: Seq<char>,
    pub name: Seq<char>,
    pub initial_input: JsonView,
    pub partial_json: Seq<char>,
    pub stopped: bool,
}

/// A [`StreamBlock`] by its texts and values.
pub enum BlockView {
    Text { stopped: bool },
    Tool(ToolBlockView),
    Ignored { stopped: bool },
}

impl DeepView for ToolBlock {
    type V = ToolBlockView;

    closed spec fn deep_view(&self) -> ToolBlockView {
        ToolBlockView {
            id: self.id@,
            name: self.name@,
            initial_input: self.initial_input.deep_view(),
            partial_json: self.partial_json@,
            stopped: self.stopped,
        }
    }
}

impl DeepView for StreamBlock {
    type V = BlockView;

    open spec fn deep_view(&self) -> BlockView {
        match self {
            StreamBlock::Text { stopped } => BlockView::Text { stopped: *stopped },
            StreamBlock::Tool(tool) => BlockView::Tool(tool.deep_view()),
            StreamBlock::Ignored { stopped } => BlockView::Ignored { stopped: *stopped },
        }
    }
}

/// Collects a streamed response.
pub struct AnthropicStreamAccumulator {
    message_id: Option<String>,
    text: String,
    blocks: Slots<StreamBlock>,
    finish_reason: Option<FinishReason>,
    usage: Usage,
    usage_seen: bool,
    message_started: bool,
    done: bool,
}

/// What has been collected of a streamed response.
pub struct AnthropicState {
    pub message_id: Option<Seq<char>>,
    pub text: Seq<char>,
    pub blocks: Map<nat, BlockView>,
    pub finish_reason: Option<FinishReason>,
    pub usage: Usage,
    pub usage_seen: bool,
    pub message_started: bool,
    pub done: bool,
}

impl DeepView for AnthropicStreamAccumulator {
    type V = AnthropicState;

    closed spec fn deep_view(&self) -> AnthropicState {
        AnthropicState {
            message_id: self.message_id.deep_view(),
            text: self.text@,
            blocks: self.blocks.deep_view(),
            finish_reason: self.finish_reason,
            usage: self.usage,
            usage_seen: self.usage_seen,
            message_started: self.message_started,
            done: self.done,
        }
    }
}

impl AnthropicState {
    /// Nothing has been collected.
    pub open spec fn fresh() -> AnthropicState {
        AnthropicState {
            message_id: None,
            text: Seq::empty(),
            blocks: Map::empty(),
            finish_reason: None,
            usage: Usage::zero(),
            usage_seen: false,
            message_started: false,
            done: false,
        }
    }

    /// Whether a message has begun and not ended.
    pub open spec fn active(self) -> bool {
        self.message_started && !self.done
    }
}

/// What a piece of a stream does.
pub struct AnthropicStep {
    pub state: AnthropicState,
    pub events: Seq<StreamEventView>,
    pub result: Result<(), ModelFault>,
}

/// A step that changes nothing and fails.
pub open spec fn refuse(state: AnthropicState, e: ModelFault) -> AnthropicStep {
    AnthropicStep { state, events: Seq::empty(), result: Err(e) }
}

/// A step that changes nothing and finds the response malformed.
pub open spec fn fail(state: AnthropicState, m: Seq<char>) -> AnthropicStep {
    refuse(state, ModelFault::MalformedResponse(m))
}

/// A step without events that succeeds.
pub open spec fn quiet(state: AnthropicState) -> AnthropicStep {
    AnthropicStep { state, events: Seq::empty(), result: Ok(()) }
}

/// A step with one event that succeeds.
pub open spec fn report(state: AnthropicState, event: StreamEventView) -> AnthropicStep {
    AnthropicStep { state, events: seq![event], result: Ok(()) }
}

/// `second` after `first`, whose events come before.
pub open spec fn after(first: AnthropicStep, second: AnthropicStep) -> AnthropicStep {
    if first.result is Err {
        first
    } else {
        AnthropicStep {
            state: second.state,
            events: first.events + second.events,
            result: second.result,
        }
    }
}

/// The number of the content block that an event is about.
pub open spec fn index_spec(value: JsonView) -> Result<nat, ModelFault> {
    match json::u64_member(value, "index"@) {
        Some(n) => if n <= usize::MAX {
            Ok(n as nat)
        } else {
            malformed("Anthropic stream event has invalid index"@)
        },
        None => malformed("Anthropic stream event has invalid index"@),
    }
}

/// The number of the content block that an event is about.
pub fn stream_index(value: &Json) -> (r: Result<usize, ModelError>)
    ensures
        match r {
            Ok(n) => index_spec(value.deep_view()) == Ok::<nat, ModelFault>(n as nat),
            Err(e) => index_spec(value.deep_view()) == Err::<nat, ModelFault>(e.deep_view()),
        },
{
    match value.u64_member("index") {
        Some(n) => if n <= usize::MAX as u64 {
            Ok(n as usize)
        } else {
            Err(ModelError::malformed("Anthropic stream event has invalid index"))
        },
        None => Err(ModelError::malformed("Anthropic stream event has invalid index")),
    }
}

/// More counters: they may not fall behind the ones before.
pub open spec fn usage_step(st: AnthropicState, next: Usage) -> AnthropicStep {
    if st.usage_seen && next.regressed_from(st.usage) {
        fail(st, "Anthropic stream usage counters regressed"@)
    } else {
        report(
            AnthropicState { usage: next, usage_seen: true, ..st },
            StreamEventView::UsageUpdate { usage: next },
        )
    }
}

/// More text.
pub open spec fn text_step(st: AnthropicState, delta: Seq<char>) -> AnthropicStep {
    if text::utf8_len(st.text) + text::utf8_len(delta) > MAX_TEXT_BYTES {
        refuse(st, ModelFault::ResponseTooLarge { limit: MAX_TEXT_BYTES })
    } else {
        let next = AnthropicState { text: st.text + delta, ..st };
        if delta.len() > 0 {
            report(next, StreamEventView::TextDelta { text: delta })
        } else {
            quiet(next)
        }
    }
}

/// The counters of the message that begins.
pub open spec fn start_usage_step(st: AnthropicState, message: JsonView) -> AnthropicStep {
    match json::member(message, "usage"@) {
        Some(usage) => usage_step(st, usage_spec(usage)),
        None => quiet(st),
    }
}

/// A message begins.
pub open spec fn start_message_step(st: AnthropicState, value: JsonView) -> AnthropicStep {
    if st.message_started || st.done {
        fail(st, "Anthropic message_start was duplicated or out of order"@)
    } else {
        let begun = AnthropicState { message_started: true, ..st };
        match json::member(value, "message"@) {
            None => fail(begun, "message_start is missing message"@),
            Some(message) => match json::member(message, "id"@) {
                None => start_usage_step(begun, message),
                Some(id) => match fields::identifier_spec(Some(id), "Anthropic message id"@) {
                    Err(e) => refuse(begun, e),
                    Ok(id) => start_usage_step(
                        AnthropicState { message_id: Some(id), ..begun },
                        message,
                    ),
                },
            },
        }
    }
}

/// The input that a tool-use block begins with.
pub open spec fn initial_input(block: JsonView) -> JsonView {
    match json::member(block, "input"@) {
        Some(input) => input,
        None => JsonView::Object(Map::empty()),
    }
}

/// Block `index` is known from here on.
pub open spec fn with_block(st: AnthropicState, index: nat, block: BlockView) -> AnthropicState {
    AnthropicState { blocks: st.blocks.insert(index, block), ..st }
}

/// A tool-use block begins.
pub open spec fn start_tool_step(st: AnthropicState, index: nat, block: JsonView) -> AnthropicStep {
    match fields::identifier_spec(json::member(block, "id"@), "Anthropic tool-use id"@) {
        Err(e) => refuse(st, e),
        Ok(id) => match fields::identifier_spec(
            json::member(block, "name"@),
            "Anthropic tool-use name"@,
        ) {
            Err(e) => refuse(st, e),
            Ok(name) => if !(initial_input(block) is Object) {
                fail(st, "Anthropic streamed tool input must begin as an object"@)
            } else {
                report(
                    with_block(
                        st,
                        index,
                        BlockView::Tool(
                            ToolBlockView {
                                id,
                                name,
                                initial_input: initial_input(block),
                                partial_json: Seq::empty(),
                                stopped: false,
                            },
                        ),
                    ),
                    StreamEventView::ToolCallStarted { index, id, name },
                )
            },
        },
    }
}

/// A content block begins.
pub open spec fn start_block_step(st: AnthropicState, value: JsonView) -> AnthropicStep {
    if !st.active() {
        fail(st, "Anthropic content block began outside an active message"@)
    } else {
        match index_spec(value) {
            Err(e) => refuse(st, e),
            Ok(index) => if index >= MAX_CONTENT_BLOCKS || st.blocks.contains_key(index) {
                fail(st, "Anthropic content block index is duplicate or out of bounds"@)
            } else {
                match json::member(value, "content_block"@) {
                    None => fail(st, "content_block_start is missing its block"@),
                    Some(block) => match json::text_member(block, "type"@) {
                        None => fail(st, "Anthropic streamed content block is missing type"@),
                        Some(kind) => if kind == "text"@ {
                            let first = text_step(st, block_text(block));
                            after(
                                first,
                                quiet(
                                    with_block(
                                        first.state,
                                        index,
                                        BlockView::Text { stopped: false },
                                    ),
                                ),
                            )
                        } else if kind == "tool_use"@ {
                            start_tool_step(st, index, block)
                        } else if kind == "thinking"@ || kind == "redacted_thinking"@ {
                            quiet(with_block(st, index, BlockView::Ignored { stopped: false }))
                        } else {
                            fail(
                                st,
                                "unsupported Anthropic streamed content block "@
                                    + text::debug_view(kind),
                            )
                        },
                    },
                }
            },
        }
    }
}

/// More of a tool-use block's input.
pub open spec fn input_step(
    st: AnthropicState,
    index: nat,
    tool: ToolBlockView,
    delta: JsonView,
) -> AnthropicStep {
    match json::text_member(delta, "partial_json"@) {
        None => fail(st, "input_json_delta is missing partial_json"@),
        Some(partial) => if text::utf8_len(tool.partial_json) + text::utf8_len(partial)
            > MAX_TOOL_ARGUMENT_BYTES {
            refuse(st, ModelFault::ResponseTooLarge { limit: MAX_TOOL_ARGUMENT_BYTES })
        } else {
            report(
                with_block(
                    st,
                    index,
                    BlockView::Tool(
                        ToolBlockView { partial_json: tool.partial_json + partial, ..tool },
                    ),
                ),
                StreamEventView::ToolArgumentsDelta {
                    index,
                    bytes: text::utf8_len(tool.partial_json + partial),
                },
            )
        },
    }
}

/// A content block continues.
pub open spec fn delta_step(st: AnthropicState, value: JsonView) -> AnthropicStep {
    match index_spec(value) {
        Err(e) => refuse(st, e),
        Ok(index) => if !st.blocks.contains_key(index) {
            fail(st, "Anthropic delta has no matching block start"@)
        } else {
            match json::member(value, "delta"@) {
                None => fail(st, "content_block_delta is missing delta"@),
                Some(delta) => {
                    let kind = json::text_member(delta, "type"@);
                    let block = st.blocks[index];
                    if block == (BlockView::Text { stopped: false }) && kind == Some(
                        "text_delta"@,
                    ) {
                        match json::text_member(delta, "text"@) {
                            None => fail(st, "text_delta is missing text"@),
                            Some(t) => text_step(st, t),
                        }
                    } else if block is Tool && !block->Tool_0.stopped && kind == Some(
                        "input_json_delta"@,
                    ) {
                        input_step(st, index, block->Tool_0, delta)
                    } else if block == (BlockView::Ignored { stopped: false }) && (kind == Some(
                        "thinking_delta"@,
                    ) || kind == Some("signature_delta"@)) {
                        quiet(st)
                    } else {
                        fail(
                            st,
                            "Anthropic content delta type disagrees with its active block"@,
                        )
                    }
                },
            }
        },
    }
}

impl BlockView {
    /// Whether the block has ended.
    pub open spec fn has_stopped(self) -> bool {
        match self {
            BlockView::Text { stopped } => stopped,
            BlockView::Tool(tool) => tool.stopped,
            BlockView::Ignored { stopped } => stopped,
        }
    }

    /// The block after its end.
    pub open spec fn ended(self) -> BlockView {
        match self {
            BlockView::Text { .. } => BlockView::Text { stopped: true },
            BlockView::Tool(tool) => BlockView::Tool(ToolBlockView { stopped: true, ..tool }),
            BlockView::Ignored { .. } => BlockView::Ignored { stopped: true },
        }
    }
}

/// A content block ends.
pub open spec fn stop_step(st: AnthropicState, value: JsonView) -> AnthropicStep {
    match index_spec(value) {
        Err(e) => refuse(st, e),
        Ok(index) => if !st.blocks.contains_key(index) {
            fail(st, "Anthropic block stop has no matching start"@)
        } else if st.blocks[index].has_stopped() {
            fail(st, "Anthropic content block stopped more than once"@)
        } else {
            quiet(with_block(st, index, st.blocks[index].ended()))
        },
    }
}

/// The stop reason that a message delta states.
pub open spec fn stated_reason(value: JsonView) -> Option<Seq<char>> {
    match json::member2(value, "delta"@, "stop_reason"@) {
        Some(v) => json::text_of(v),
        None => None,
    }
}

/// The stop reason of a message; one alone may be stated.
pub open spec fn reason_step(st: AnthropicState, value: JsonView) -> AnthropicStep {
    match stated_reason(value) {
        None => quiet(st),
        Some(reason) => {
            let next = AnthropicState {
                finish_reason: Some(finish_reason_spec(Some(reason))),
                ..st
            };
            if st.finish_reason is Some {
                fail(next, "Anthropic stream emitted more than one stop reason"@)
            } else {
                quiet(next)
            }
        },
    }
}

/// The output counter that a message delta reports.
pub open spec fn output_step(st: AnthropicState, value: JsonView) -> AnthropicStep {
    match json::member(value, "usage"@) {
        None => quiet(st),
        Some(usage) => usage_step(
            st,
            Usage { output_tokens: fields::number_spec(usage, "output_tokens"@), ..st.usage },
        ),
    }
}

/// The message as a whole changes.
pub open spec fn message_delta_step(st: AnthropicState, value: JsonView) -> AnthropicStep {
    if !st.active() {
        fail(st, "Anthropic message_delta arrived outside an active message"@)
    } else {
        let first = reason_step(st, value);
        after(first, output_step(first.state, value))
    }
}

/// The message of an error event.
pub open spec fn error_spec(value: JsonView) -> ModelFault {
    ModelFault::Provider {
        status: 200,
        message: match json::member2(value, "error"@, "message"@) {
            Some(JsonView::Text(m)) => text::first_chars_spec(m, MAX_ERROR_CHARS as nat),
            _ => text::first_chars_spec("Anthropic stream error"@, MAX_ERROR_CHARS as nat),
        },
    }
}

/// What an event's value does. Kinds of events that are not known do nothing.
pub open spec fn value_step(st: AnthropicState, kind: Seq<char>, value: JsonView) -> AnthropicStep {
    if kind == "error"@ {
        refuse(st, error_spec(value))
    } else if kind == "message_start"@ {
        start_message_step(st, value)
    } else if kind == "content_block_start"@ {
        start_block_step(st, value)
    } else if kind == "content_block_delta"@ {
        delta_step(st, value)
    } else if kind == "content_block_stop"@ {
        stop_step(st, value)
    } else if kind == "message_delta"@ {
        message_delta_step(st, value)
    } else if kind == "message_stop"@ {
        if !st.active() {
            fail(st, "Anthropic message_stop was duplicated or out of order"@)
        } else {
            quiet(AnthropicState { done: true, ..st })
        }
    } else {
        quiet(st)
    }
}

/// What an event does whose data has been parsed.
pub open spec fn event_step(
    st: AnthropicState,
    name: Option<Seq<char>>,
    parsed: Result<JsonView, Seq<char>>,
) -> AnthropicStep {
    match parsed {
        Err(m) => refuse(st, ModelFault::Json(m)),
        Ok(value) => match json::text_member(value, "type"@) {
            None => fail(st, "Anthropic stream event is missing type"@),
            Some(kind) => if name is Some && name != Some(kind) {
                fail(st, "Anthropic SSE name disagrees with its JSON event type"@)
            } else {
                value_step(st, kind, value)
            },
        },
    }
}

impl AnthropicStreamAccumulator {
    /// An accumulator that has collected nothing.
    pub fn new() -> (r: AnthropicStreamAccumulator)
        ensures
            r.deep_view() == AnthropicState::fresh(),
    {
        let r = AnthropicStreamAccumulator {
            message_id: None,
            text: String::new(),
            blocks: Slots::new(),
            finish_reason: None,
            usage: Usage::default(),
            usage_seen: false,
            message_started: false,
            done: false,
        };
        assert(r.blocks.deep_view() =~= Map::<nat, BlockView>::empty());
        r
    }

    /// Takes one event of the stream.
    pub fn apply(&mut self, event: &SseEvent, log: &mut Vec<ModelStreamEvent>) -> (r: Result<
        (),
        ModelError,
    >)
        ensures
            ({
                let s = event_step(
                    old(self).deep_view(),
                    event.event.deep_view(),
                    json::json_parse(event.data@),
                );
                &&& final(self).deep_view() == s.state
                &&& final(log).deep_view() == old(log).deep_view() + s.events
                &&& outcome::of(r) == s.result
            }),
    {
        let parsed = Json::parse(event.data.as_str());
        self.apply_parsed(&event.event, parsed, log)
    }

    /// Takes one event of the stream, whose data has been parsed.
    pub fn apply_parsed(
        &mut self,
        name: &Option<String>,
        parsed: Result<Json, String>,
        log: &mut Vec<ModelStreamEvent>,
    ) -> (r: Result<(), ModelError>)
        ensures
            ({
                let s = event_step(old(self).deep_view(), name.deep_view(), outcome::of(parsed));
                &&& final(self).deep_view() == s.state
                &&& final(log).deep_view() == old(log).deep_view() + s.events
                &&& outcome::of(r) == s.result
            }),
    {
        assert(log.deep_view() + Seq::<StreamEventView>::empty() =~= log.deep_view());
        let value = match parsed {
            Ok(value) => value,
            Err(m) => {
                return Err(ModelError::Json(m));
            },
        };
        let kind = match value.text_member("type") {
            Some(kind) => kind,
            None => {
                return Err(ModelError::malformed("Anthropic stream event is missing type"));
            },
        };
        if let Some(named) = name {
            if !text::same(named.as_str(), kind) {
                return Err(
                    ModelError::malformed("Anthropic SSE name disagrees with its JSON event type"),
                );
            }
        }
        if text::same(kind, "error") {
            let told = match value.get2("error", "message") {
                Some(m) => m.as_str(),
                None => None,
            };
            let message = match told {
                Some(m) => text::first_chars(m, MAX_ERROR_CHARS),
                None => text::first_chars("Anthropic stream error", MAX_ERROR_CHARS),
            };
            return Err(ModelError::Provider { status: 200, message });
        }
        if text::same(kind, "message_start") {
            return self.start_message(&value, log);
        }
        if text::same(kind, "content_block_start") {
            return self.start_block(&value, log);
        }
        if text::same(kind, "content_block_delta") {
            return self.apply_delta(&value, log);
        }
        if text::same(kind, "content_block_stop") {
            return self.stop_block(&value);
        }
        if text::same(kind, "message_delta") {
            return self.apply_message_delta(&value, log);
        }
        if text::same(kind, "message_stop") {
            if !self.message_started || self.done {
                return Err(
                    ModelError::malformed("Anthropic message_stop was duplicated or out of order"),
                );
            }
            self.done = true;
        }
        Ok(())
    }

    /// Begins the message.
    pub fn start_message(&mut self, value: &Json, log: &mut Vec<ModelStreamEvent>) -> (r: Result<
        (),
        ModelError,
    >)
        ensures
            ({
                let s = start_message_step(old(self).deep_view(), value.deep_view());
                &&& final(self).deep_view() == s.state
                &&& final(log).deep_view() == old(log).deep_view() + s.events
                &&& outcome::of(r) == s.result
            }),
    {
        assert(log.deep_view() + Seq::<StreamEventView>::empty() =~= log.deep_view());
        if self.message_started || self.done {
            return Err(
                ModelError::malformed("Anthropic message_start was duplicated or out of order"),
            );
        }
        self.message_started = true;
        let message = match value.get("message") {
            Some(message) => message,
            None => {
                return Err(ModelError::malformed("message_start is missing message"));
            },
        };
        if let Some(id) = message.get("id") {
            self.message_id = Some(fields::bounded_identifier(Some(id), "Anthropic message id")?);
        }
        if let Some(usage) = message.get("usage") {
            return self.merge_usage(anthropic_usage(usage), log);
        }
        Ok(())
    }

    /// Takes more text.
    fn take_text(&mut self, delta: &str, log: &mut Vec<ModelStreamEvent>) -> (r: Result<
        (),
        ModelError,
    >)
        ensures
            ({
                let s = text_step(old(self).deep_view(), delta@);
                &&& final(self).deep_view() == s.state
                &&& final(log).deep_view() == old(log).deep_view() + s.events
                &&& outcome::of(r) == s.result
                &&& final(self).blocks == old(self).blocks
            }),
    {
        let ghost log0 = log.deep_view();
        assert(log0 + Seq::<StreamEventView>::empty() =~= log0);
        fields::append_text(&mut self.text, delta, MAX_TEXT_BYTES)?;
        if !delta.is_empty() {
            log.push(ModelStreamEvent::TextDelta { text: delta.to_owned() });
            assert(log.deep_view() =~= log0 + seq![StreamEventView::TextDelta { text: delta@ }]);
        }
        Ok(())
    }

    /// Files a block.
    fn put_block(&mut self, index: usize, block: StreamBlock)
        requires
            index < usize::MAX,
        ensures
            final(self).deep_view() == with_block(
                old(self).deep_view(),
                index as nat,
                block.deep_view(),
            ),
    {
        let ghost before = self.blocks.deep_view();
        let ghost b = block.deep_view();
        self.blocks.put(index, block);
        assert(self.blocks.deep_view() =~= before.insert(index as nat, b));
    }

    /// Begins a content block.
    pub fn start_block(&mut self, value: &Json, log: &mut Vec<ModelStreamEvent>) -> (r: Result<
        (),
        ModelError,
    >)
        ensures
            ({
                let s = start_block_step(old(self).deep_view(), value.deep_view());
                &&& final(self).deep_view() == s.state
                &&& final(log).deep_view() == old(log).deep_view() + s.events
                &&& outcome::of(r) == s.result
            }),
    {
        let ghost log0 = log.deep_view();
        assert(log0 + Seq::<StreamEventView>::empty() =~= log0);
        if !self.message_started || self.done {
            return Err(
                ModelError::malformed("Anthropic content block began outside an active message"),
            );
        }
        let index: usize = stream_index(value)?;
        if index >= MAX_CONTENT_BLOCKS || self.blocks.get(index).is_some() {
            return Err(
                ModelError::malformed(
                    "Anthropic content block index is duplicate or out of bounds",
                ),
            );
        }
        let block = match value.get("content_block") {
            Some(block) => block,
            None => {
                return Err(ModelError::malformed("content_block_start is missing its block"));
            },
        };
        let kind = match block.text_member("type") {
            Some(kind) => kind,
            None => {
                return Err(
                    ModelError::malformed("Anthropic streamed content block is missing type"),
                );
            },
        };
        if text::same(kind, "text") {
            self.take_text(text_of_block(block), log)?;
            let ghost events = text_step(old(self).deep_view(), block_text(block.deep_view())).events;
            assert(events + Seq::<StreamEventView>::empty() =~= events);
            self.put_block(index, StreamBlock::Text { stopped: false });
            return Ok(());
        }
        if text::same(kind, "tool_use") {
            return self.start_tool(index, block, log);
        }
        if text::same(kind, "thinking") || text::same(kind, "redacted_thinking") {
            self.put_block(index, StreamBlock::Ignored { stopped: false });
            return Ok(());
        }
        Err(
            ModelError::MalformedResponse(
                text::concat2(
                    "unsupported Anthropic streamed content block ",
                    text::debug_text(kind).as_str(),
                ),
            ),
        )
    }

    /// Begins a tool-use block.
    fn start_tool(&mut self, index: usize, block: &Json, log: &mut Vec<ModelStreamEvent>) -> (r:
        Result<(), ModelError>)
        requires
            index < usize::MAX,
        ensures
            ({
                let s = start_tool_step(
                    old(self).deep_view(),
                    index as nat,
                    block.deep_view(),
                );
                &&& final(self).deep_view() == s.state
                &&& final(log).deep_view() == old(log).deep_view() + s.events
                &&& outcome::of(r) == s.result
            }),
    {
        let ghost log0 = log.deep_view();
        assert(log0 + Seq::<StreamEventView>::empty() =~= log0);
        let id = fields::bounded_identifier(block.get("id"), "Anthropic tool-use id")?;
        let name = fields::bounded_identifier(block.get("name"), "Anthropic tool-use name")?;
        let input = match block.get("input") {
            Some(input) => input.clone(),
            None => Json::object(JsonMap::new()),
        };
        if !input.is_object() {
            return Err(
                ModelError::malformed("Anthropic streamed tool input must begin as an object"),
            );
        }
        log.push(
            ModelStreamEvent::ToolCallStarted { index, id: id.clone(), name: name.clone() },
        );
        assert(log.deep_view() =~= log0 + seq![
            StreamEventView::ToolCallStarted { index: index as nat, id: id@, name: name@ },
        ]);
        self.put_block(
            index,
            StreamBlock::Tool(
                ToolBlock {
                    id,
                    name,
                    initial_input: input,
                    partial_json: String::new(),
                    stopped: false,
                },
            ),
        );
        Ok(())
    }

    /// Continues a content block.
    pub fn apply_delta(&mut self, value: &Json, log: &mut Vec<ModelStreamEvent>) -> (r: Result<
        (),
        ModelError,
    >)
        ensures
            ({
                let s = delta_step(old(self).deep_view(), value.deep_view());
                &&& final(self).deep_view() == s.state
                &&& final(log).deep_view() == old(log).deep_view() + s.events
                &&& outcome::of(r) == s.result
            }),
    {
        let ghost log0 = log.deep_view();
        assert(log0 + Seq::<StreamEventView>::empty() =~= log0);
        let index: usize = stream_index(value)?;
        let block = match self.blocks.get(index) {
            Some(block) => block,
            None => {
                return Err(ModelError::malformed("Anthropic delta has no matching block start"));
            },
        };
        assert(self.deep_view().blocks[index as nat] == block.deep_view());
        let delta = match value.get("delta") {
            Some(delta) => delta,
            None => {
                return Err(ModelError::malformed("content_block_delta is missing delta"));
            },
        };
        let kind = delta.text_member("type");
        let disagrees = ModelError::malformed(
            "Anthropic content delta type disagrees with its active block",
        );
        let kind = match kind {
            Some(kind) => kind,
            None => {
                return Err(disagrees);
            },
        };
        match block {
            StreamBlock::Text { stopped } => {
                if *stopped || !text::same(kind, "text_delta") {
                    return Err(disagrees);
                }
                match delta.text_member("text") {
                    Some(t) => self.take_text(t, log),
                    None => Err(ModelError::malformed("text_delta is missing text")),
                }
            },
            StreamBlock::Tool(tool) => {
                if tool.stopped || !text::same(kind, "input_json_delta") {
                    return Err(disagrees);
                }
                self.take_input(index, delta, log)
            },
            StreamBlock::Ignored { stopped } => {
                if *stopped || !(text::same(kind, "thinking_delta") || text::same(
                    kind,
                    "signature_delta",
                )) {
                    return Err(disagrees);
                }
                Ok(())
            },
        }
    }

    /// Takes more of a tool-use block's input.
    fn take_input(&mut self, index: usize, delta: &Json, log: &mut Vec<ModelStreamEvent>) -> (r:
        Result<(), ModelError>)
        requires
            old(self).deep_view().blocks.contains_key(index as nat),
            old(self).deep_view().blocks[index as nat] is Tool,
        ensures
            ({
                let s = input_step(
                    old(self).deep_view(),
                    index as nat,
                    old(self).deep_view().blocks[index as nat]->Tool_0,
                    delta.deep_view(),
                );
                &&& final(self).deep_view() == s.state
                &&& final(log).deep_view() == old(log).deep_view() + s.events
                &&& outcome::of(r) == s.result
            }),
    {
        let ghost log0 = log.deep_view();
        let ghost st = self.deep_view();
        let ghost raw = self.blocks;
        assert(log0 + Seq::<StreamEventView>::empty() =~= log0);
        let partial = match delta.text_member("partial_json") {
            Some(partial) => partial,
            None => {
                return Err(ModelError::malformed("input_json_delta is missing partial_json"));
            },
        };
        assert(st.blocks[index as nat] == raw@[index as nat].deep_view());
        let known = match self.blocks.get(index) {
            Some(StreamBlock::Tool(tool)) => text::byte_len(tool.partial_json.as_str()),
            _ => 0,
        };
        if known.saturating_add(text::byte_len(partial)) > MAX_TOOL_ARGUMENT_BYTES {
            return Err(ModelError::ResponseTooLarge { limit: MAX_TOOL_ARGUMENT_BYTES });
        }
        if let Some(StreamBlock::Tool(mut tool)) = self.blocks.take(index) {
            let ghost before = tool.deep_view();
            tool.partial_json.push_str(partial);
            let bytes: usize = text::byte_len(tool.partial_json.as_str());
            log.push(ModelStreamEvent::ToolArgumentsDelta { index, bytes });
            assert(log.deep_view() =~= log0 + seq![
                StreamEventView::ToolArgumentsDelta {
                    index: index as nat,
                    bytes: bytes as nat,
                },
            ]);
            let ghost emptied = self.blocks.deep_view();
            let ghost block = BlockView::Tool(
                ToolBlockView { partial_json: before.partial_json + partial@, ..before },
            );
            self.put_block(index, StreamBlock::Tool(tool));
            assert(emptied.insert(index as nat, block) =~= st.blocks.insert(index as nat, block));
        }
        Ok(())
    }

    /// Ends a content block.
    pub fn stop_block(&mut self, value: &Json) -> (r: Result<(), ModelError>)
        ensures
            ({
                let s = stop_step(old(self).deep_view(), value.deep_view());
                &&& final(self).deep_view() == s.state
                &&& s.events.len() == 0
                &&& outcome::of(r) == s.result
            }),
    {
        let ghost st = self.deep_view();
        let ghost raw = self.blocks;
        let index: usize = stream_index(value)?;
        let block = match self.blocks.take(index) {
            Some(block) => block,
            None => {
                assert(self.blocks.deep_view() =~= st.blocks);
                return Err(ModelError::malformed("Anthropic block stop has no matching start"));
            },
        };
        assert(st.blocks[index as nat] == block.deep_view());
        let ghost emptied = self.blocks.deep_view();
        let (ended, stopped) = match block {
            StreamBlock::Text { stopped } => (StreamBlock::Text { stopped: true }, stopped),
            StreamBlock::Ignored { stopped } => (StreamBlock::Ignored { stopped: true }, stopped),
            StreamBlock::Tool(tool) => {
                let stopped = tool.stopped;
                let mut tool = tool;
                tool.stopped = true;
                (StreamBlock::Tool(tool), stopped)
            },
        };
        let ghost after_end = ended.deep_view();
        assert(after_end == st.blocks[index as nat].ended());
        assert(emptied.insert(index as nat, after_end) =~= st.blocks.insert(
            index as nat,
            after_end,
        ));
        self.put_block(index, ended);
        if stopped {
            assert(st.blocks.insert(index as nat, after_end) =~= st.blocks);
            return Err(ModelError::malformed("Anthropic content block stopped more than once"));
        }
        Ok(())
    }

    /// Takes a change of the message as a whole.
    pub fn apply_message_delta(&mut self, value: &Json, log: &mut Vec<ModelStreamEvent>) -> (r:
        Result<(), ModelError>)
        ensures
            ({
                let s = message_delta_step(old(self).deep_view(), value.deep_view());
                &&& final(self).deep_view() == s.state
                &&& final(log).deep_view() == old(log).deep_view() + s.events
                &&& outcome::of(r) == s.result
            }),
    {
        let ghost none = Seq::<StreamEventView>::empty();
        assert(log.deep_view() + none =~= log.deep_view());
        if !self.message_started || self.done {
            return Err(
                ModelError::malformed("Anthropic message_delta arrived outside an active message"),
            );
        }
        let stated = match value.get2("delta", "stop_reason") {
            Some(v) => v.as_str(),
            None => None,
        };
        if let Some(reason) = stated {
            let known = self.finish_reason.is_some();
            self.finish_reason = Some(anthropic_finish_reason(Some(reason)));
            if known {
                return Err(
                    ModelError::malformed("Anthropic stream emitted more than one stop reason"),
                );
            }
        }
        let ghost rest = output_step(self.deep_view(), value.deep_view());
        assert(none + rest.events =~= rest.events);
        if let Some(usage) = value.get("usage") {
            let next = Usage {
                input_tokens: self.usage.input_tokens,
                output_tokens: fields::number(usage, "output_tokens"),
                cached_input_tokens: self.usage.cached_input_tokens,
                cache_creation_input_tokens: self.usage.cache_creation_input_tokens,
            };
            return self.merge_usage(next, log);
        }
        Ok(())
    }

    /// Takes more counters.
    pub fn merge_usage(&mut self, next: Usage, log: &mut Vec<ModelStreamEvent>) -> (r: Result<
        (),
        ModelError,
    >)
        ensures
            ({
                let s = usage_step(old(self).deep_view(), next);
                &&& final(self).deep_view() == s.state
                &&& final(log).deep_view() == old(log).deep_view() + s.events
                &&& outcome::of(r) == s.result
            }),
    {
        let ghost log0 = log.deep_view();
        assert(log0 + Seq::<StreamEventView>::empty() =~= log0);
        if self.usage_seen && next.regressed(self.usage) {
            return Err(ModelError::malformed("Anthropic stream usage counters regressed"));
        }
        self.usage = next;
        self.usage_seen = true;
        log.push(ModelStreamEvent::UsageUpdate { usage: next });
        assert(log.deep_view() =~= log0 + seq![StreamEventView::UsageUpdate { usage: next }]);
        Ok(())
    }
}


/// What an ended block brings, given what its collected input parses to.
pub open spec fn finish_block_spec(block: BlockView, parsed: Result<JsonView, Seq<char>>) -> Result<
    Option<ToolCallView>,
    ModelFault,
> {
    if !block.has_stopped() {
        malformed("Anthropic stream ended before a content block stopped"@)
    } else {
        match block {
            BlockView::Tool(tool) => match (if tool.partial_json.len() == 0 {
                Ok(tool.initial_input)
            } else {
                parsed
            }) {
                Err(m) => Err(ModelFault::Json(m)),
                Ok(arguments) => if arguments is Object {
                    Ok(
                        Some(
                            ToolCallView {
                                id: tool.id,
                                name: tool.name,
                                arguments,
                                extensions: Map::empty(),
                            },
                        ),
                    )
                } else {
                    malformed("Anthropic streamed tool input must be a JSON object"@)
                },
            },
            _ => Ok(None),
        }
    }
}

/// The text of JSON that a block has collected.
pub open spec fn collected(block: BlockView) -> Seq<char> {
    match block {
        BlockView::Tool(tool) => tool.partial_json,
        _ => Seq::empty(),
    }
}

/// The calls of the blocks from number `k` on, behind the given ones. The numbers
/// must follow one another.
pub open spec fn finish_blocks_spec(
    blocks: Map<nat, BlockView>,
    k: nat,
    done: Seq<ToolCallView>,
) -> Result<Seq<ToolCallView>, ModelFault>
    decreases MAX_CONTENT_BLOCKS - k,
{
    if k >= MAX_CONTENT_BLOCKS || !blocks.contains_key(k) {
        if exists|j: nat| k <= j && blocks.contains_key(j) {
            malformed("Anthropic stream content block indexes are not contiguous"@)
        } else {
            Ok(done)
        }
    } else {
        match finish_block_spec(blocks[k], json::json_parse(collected(blocks[k]))) {
            Err(e) => Err(e),
            Ok(None) => finish_blocks_spec(blocks, k + 1, done),
            Ok(Some(call)) => finish_blocks_spec(blocks, k + 1, done.push(call)),
        }
    }
}

/// The complete response that a stream makes, or why it makes none.
pub open spec fn finish_spec(
    st: AnthropicState,
    request_id: Option<Seq<char>>,
    first_byte_ms: u64,
) -> Result<ResponseView, ModelFault> {
    if !st.done {
        malformed("Anthropic stream disconnected before message_stop"@)
    } else {
        match st.finish_reason {
            None => malformed("Anthropic stream is missing a stop reason"@),
            Some(finish_reason) => match finish_blocks_spec(st.blocks, 0, Seq::empty()) {
                Err(e) => Err(e),
                Ok(tool_calls) => if finish_reason == FinishReason::ToolCalls && tool_calls.len()
                    == 0 {
                    malformed("Anthropic stream stopped for tool use but returned no tool call"@)
                } else {
                    Ok(
                        ResponseView {
                            text: st.text,
                            tool_calls,
                            finish_reason,
                            usage: st.usage,
                            provider_request_id: request_id,
                            extensions: openai_compatible::stream_extensions(
                                first_byte_ms,
                                st.message_id,
                            ),
                        },
                    )
                },
            },
        }
    }
}

impl StreamBlock {
    /// The text of JSON that the block has collected.
    fn collected_text(&self) -> (r: &str)
        ensures
            r@ == collected(self.deep_view()),
    {
        match self {
            StreamBlock::Tool(tool) => tool.partial_json.as_str(),
            _ => {
                proof {
                    reveal_strlit("");
                    assert(""@ =~= Seq::<char>::empty());
                }
                ""
            },
        }
    }
}

/// What an ended block brings, given what its collected input parses to.
pub fn finish_block(block: StreamBlock, parsed: Result<Json, String>) -> (r: Result<
    Option<ToolCall>,
    ModelError,
>)
    ensures
        outcome::of(r) == finish_block_spec(block.deep_view(), outcome::of(parsed)),
{
    let unfinished = ModelError::malformed("Anthropic stream ended before a content block stopped");
    match block {
        StreamBlock::Text { stopped } => if stopped {
            Ok(None)
        } else {
            Err(unfinished)
        },
        StreamBlock::Ignored { stopped } => if stopped {
            Ok(None)
        } else {
            Err(unfinished)
        },
        StreamBlock::Tool(tool) => {
            if !tool.stopped {
                return Err(unfinished);
            }
            let arguments = if tool.partial_json.as_str().is_empty() {
                tool.initial_input
            } else {
                match parsed {
                    Ok(v) => v,
                    Err(m) => {
                        return Err(ModelError::Json(m));
                    },
                }
            };
            if !arguments.is_object() {
                return Err(
                    ModelError::malformed("Anthropic streamed tool input must be a JSON object"),
                );
            }
            Ok(
                Some(
                    ToolCall {
                        id: tool.id,
                        name: tool.name,
                        arguments,
                        extensions: JsonMap::new(),
                    },
                ),
            )
        },
    }
}

impl AnthropicStreamAccumulator {
    /// Ends the stream: the complete response, or why there is none.
    pub fn finish(self, request_id: Option<String>, first_byte_ms: u64) -> (r: Result<
        ModelResponse,
        ModelError,
    >)
        ensures
            outcome::of(r) == finish_spec(self.deep_view(), request_id.deep_view(), first_byte_ms),
    {
        let ghost st = self.deep_view();
        if !self.done {
            return Err(ModelError::malformed("Anthropic stream disconnected before message_stop"));
        }
        let finish_reason = match self.finish_reason {
            Some(reason) => reason,
            None => {
                return Err(ModelError::malformed("Anthropic stream is missing a stop reason"));
            },
        };
        let mut blocks = self.blocks;
        let ghost all = st.blocks;
        let mut tool_calls: Vec<ToolCall> = Vec::new();
        let mut k: usize = 0;
        assert(tool_calls.deep_view() =~= Seq::<ToolCallView>::empty());
        while k < MAX_CONTENT_BLOCKS
            invariant
                st == self.deep_view(),
                all == st.blocks,
                st.done,
                st.finish_reason == Some(finish_reason),
                k <= MAX_CONTENT_BLOCKS,
                forall|j: nat| k <= j ==> (blocks@.contains_key(j) == all.contains_key(j)),
                forall|j: nat|
                    k <= j && all.contains_key(j) ==> blocks@[j].deep_view() == #[trigger] all[j],
                finish_blocks_spec(all, 0, Seq::empty()) == finish_blocks_spec(
                    all,
                    k as nat,
                    tool_calls.deep_view(),
                ),
            ensures
                k >= MAX_CONTENT_BLOCKS || !all.contains_key(k as nat),
            decreases MAX_CONTENT_BLOCKS - k,
        {
            let block = match blocks.take(k) {
                Some(block) => block,
                None => {
                    break ;
                },
            };
            assert(all.contains_key(k as nat));
            assert(block.deep_view() == all[k as nat]);
            let parsed = Json::parse(block.collected_text());
            let ghost before = tool_calls.deep_view();
            if let Some(call) = finish_block(block, parsed)? {
                let ghost c = call.deep_view();
                tool_calls.push(call);
                assert(tool_calls.deep_view() =~= before.push(c));
            }
            k += 1;
        }
        assert(tool_calls.deep_view().len() == tool_calls@.len());
        if blocks.any_from(k) {
            proof {
                let j = choose|j: nat| k <= j && blocks@.contains_key(j);
                assert(all.contains_key(j));
            }
            return Err(
                ModelError::malformed("Anthropic stream content block indexes are not contiguous"),
            );
        }
        assert(!exists|j: nat| k <= j && all.contains_key(j)) by {
            if exists|j: nat| k <= j && all.contains_key(j) {
                let j = choose|j: nat| k <= j && all.contains_key(j);
                assert(blocks@.contains_key(j));
            }
        }
        if finish_reason == FinishReason::ToolCalls && tool_calls.len() == 0 {
            return Err(
                ModelError::malformed(
                    "Anthropic stream stopped for tool use but returned no tool call",
                ),
            );
        }
        let mut extensions = JsonMap::new();
        extensions.insert("streaming", Json::boolean(true));
        extensions.insert("time_to_first_byte_ms", Json::number(first_byte_ms));
        if let Some(id) = self.message_id {
            extensions.insert("id", Json::string(id));
        }
        Ok(
            ModelResponse {
                text: self.text,
                tool_calls,
                finish_reason,
                usage: self.usage,
                provider_request_id: request_id,
                extensions,
            },
        )
    }
}

impl Default for AnthropicStreamAccumulator {
    fn default() -> (r: Self)
        ensures
            r.deep_view() == AnthropicState::fresh(),
    {
        AnthropicStreamAccumulator::new()
    }
}

/// A text block.
pub open spec fn text_block(t: Seq<char>) -> JsonView {
    json::obj2("type"@, JsonView::Text("text"@), "text"@, JsonView::Text(t))
}

/// A call as a block.
pub open spec fn call_block(c: ToolCallView) -> JsonView {
    json::obj4(
        "type"@,
        JsonView::Text("tool_use"@),
        "id"@,
        JsonView::Text(c.id),
        "name"@,
        JsonView::Text(c.name),
        "input"@,
        c.arguments,
    )
}

/// The blocks of an assistant turn.
pub open spec fn turn_blocks(t: Seq<char>, calls: Seq<ToolCallView>) -> Seq<JsonView> {
    let blocks = Seq::new(calls.len(), |i: int| call_block(calls[i]));
    if t.len() > 0 {
        seq![text_block(t)] + blocks
    } else {
        blocks
    }
}

/// The role and the blocks that a conversation item brings. System messages bring
/// none.
pub open spec fn item_blocks(item: ItemView) -> Result<
    Option<(Seq<char>, Seq<JsonView>)>,
    ModelFault,
> {
    match item {
        ItemView::Message(m) => match m.role {
            Role::System => Ok(None),
            Role::User => Ok(Some(("user"@, seq![text_block(m.content)]))),
            Role::Assistant => Ok(Some(("assistant"@, seq![text_block(m.content)]))),
        },
        ItemView::UserContent(c) => Ok(
            Some(("user"@, attachments::content_parts(ImageWire::Messages, c))),
        ),
        ItemView::AssistantToolCalls { text, calls } => if turn_blocks(text, calls).len() == 0 {
            Err(ModelFault::InvalidRequest("Anthropic message content cannot be empty"@))
        } else {
            Ok(Some(("assistant"@, turn_blocks(text, calls))))
        },
        ItemView::ToolResult(r) => Ok(
            Some(
                (
                    "user"@,
                    seq![
                        json::obj4(
                            "type"@,
                            JsonView::Text("tool_result"@),
                            "tool_use_id"@,
                            JsonView::Text(r.call_id),
                            "content"@,
                            JsonView::Text(json::json_text(r.content)),
                            "is_error"@,
                            JsonView::Bool(r.is_error),
                        ),
                    ],
                ),
            ),
        ),
    }
}

/// The turns of a conversation.
pub open spec fn turns_spec(conversation: Seq<ItemView>) -> Result<Seq<TurnView>, ModelFault>
    decreases conversation.len(),
{
    if conversation.len() == 0 {
        Ok(Seq::empty())
    } else {
        match turns_spec(conversation.drop_last()) {
            Err(e) => Err(e),
            Ok(before) => match item_blocks(conversation.last()) {
                Err(e) => Err(e),
                Ok(None) => Ok(before),
                Ok(Some((role, blocks))) => Ok(turns::push_spec(before, role, blocks)),
            },
        }
    }
}

/// The system prompt and the messages of a conversation.
pub open spec fn messages_spec(conversation: Seq<ItemView>) -> Result<
    (Seq<char>, Seq<JsonView>),
    ModelFault,
> {
    match turns_spec(conversation) {
        Err(e) => Err(e),
        Ok(all) => if all.len() == 0 {
            Err(
                ModelFault::InvalidRequest("Anthropic requires at least one non-system message"@),
            )
        } else {
            Ok(
                (
                    text::join_spec(fields::system_texts(conversation), "\n\n"@),
                    turns::render_spec(all, "content"@),
                ),
            )
        },
    }
}

proof fn lemma_turns_err(conversation: Seq<ItemView>, i: int)
    requires
        0 <= i <= conversation.len(),
        turns_spec(conversation.take(i)) is Err,
    ensures
        turns_spec(conversation) == turns_spec(conversation.take(i)),
    decreases conversation.len() - i,
{
    if i == conversation.len() {
        assert(conversation.take(i) =~= conversation);
    } else {
        assert(conversation.take(i + 1).drop_last() =~= conversation.take(i));
        lemma_turns_err(conversation, i + 1);
    }
}

fn one(block: Json) -> (r: Vec<Json>)
    ensures
        r.deep_view() == seq![block.deep_view()],
        r@.len() == 1,
{
    let mut out: Vec<Json> = Vec::new();
    let ghost v = block.deep_view();
    out.push(block);
    assert(out.deep_view() =~= seq![v]);
    out
}

fn text_json(t: &str) -> (r: Json)
    ensures
        r.deep_view() == text_block(t@),
{
    Json::object2("type", Json::text("text"), "text", Json::text(t))
}

fn turn_json(content: &str, calls: &Vec<ToolCall>) -> (r: Vec<Json>)
    ensures
        r.deep_view() == turn_blocks(content@, calls.deep_view()),
{
    let ghost all = calls.deep_view();
    let ghost blocks = Seq::new(all.len(), |i: int| call_block(all[i]));
    let mut out: Vec<Json> = Vec::new();
    assert(out.deep_view() =~= Seq::<JsonView>::empty());
    if !content.is_empty() {
        out.push(text_json(content));
        assert(out.deep_view() =~= seq![text_block(content@)]);
    }
    let ghost head = out.deep_view();
    let mut i: usize = 0;
    assert(out.deep_view() =~= head + blocks.take(0));
    while i < calls.len()
        invariant
            i <= calls@.len(),
            all == calls.deep_view(),
            all.len() == calls@.len(),
            blocks == Seq::new(all.len(), |i: int| call_block(all[i])),
            out.deep_view() == head + blocks.take(i as int),
        decreases calls@.len() - i,
    {
        let call = &calls[i];
        let ghost before = out.deep_view();
        assert(all[i as int] == call.deep_view());
        let block = Json::object4(
            "type",
            Json::text("tool_use"),
            "id",
            Json::text(call.id.as_str()),
            "name",
            Json::text(call.name.as_str()),
            "input",
            call.arguments.clone(),
        );
        assert(block.deep_view() == blocks[i as int]);
        out.push(block);
        i += 1;
        assert(out.deep_view() =~= before.push(blocks[i as int - 1]));
        assert(out.deep_view() =~= head + blocks.take(i as int));
    }
    assert(blocks.take(blocks.len() as int) =~= blocks);
    assert(out.deep_view() =~= turn_blocks(content@, all));
    out
}

/// The system prompt and the messages of a conversation.
pub fn anthropic_messages(conversation: &Vec<ConversationItem>) -> (r: Result<
    (String, Vec<Json>),
    ModelError,
>)
    ensures
        outcome::of(r) == messages_spec(conversation.deep_view()),
{
    let ghost all = conversation.deep_view();
    let systems = fields::system_text(conversation);
    let mut messages: Vec<Turn> = Vec::new();
    let mut i: usize = 0;
    assert(all.take(0) =~= Seq::<ItemView>::empty());
    assert(messages.deep_view() =~= Seq::<TurnView>::empty());
    while i < conversation.len()
        invariant
            i <= conversation@.len(),
            all == conversation.deep_view(),
            all.len() == conversation@.len(),
            turns_spec(all.take(i as int)) == Ok::<Seq<TurnView>, ModelFault>(
                messages.deep_view(),
            ),
        decreases conversation@.len() - i,
    {
        assert(all[i as int] == conversation@[i as int].deep_view());
        assert(all.take(i as int + 1).drop_last() =~= all.take(i as int));
        assert(all.take(i as int + 1).last() == all[i as int]);
        let empty = "Anthropic message content cannot be empty";
        let r: Result<(), ModelError> = match &conversation[i] {
            ConversationItem::Message(m) => match m.role {
                Role::System => Ok(()),
                Role::User => turns::push_blocks(
                    &mut messages,
                    "user",
                    one(text_json(m.content.as_str())),
                    empty,
                ),
                Role::Assistant => turns::push_blocks(
                    &mut messages,
                    "assistant",
                    one(text_json(m.content.as_str())),
                    empty,
                ),
            },
            ConversationItem::UserContent(content) => turns::push_blocks(
                &mut messages,
                "user",
                attachments::parts_json(ImageWire::Messages, content),
                empty,
            ),
            ConversationItem::AssistantToolCalls { text, calls } => {
                let blocks = turn_json(text.as_str(), calls);
                assert(blocks.deep_view().len() == blocks@.len());
                turns::push_blocks(&mut messages, "assistant", blocks, empty)
            },
            ConversationItem::ToolResult(result) => turns::push_blocks(
                &mut messages,
                "user",
                one(
                    Json::object4(
                        "type",
                        Json::text("tool_result"),
                        "tool_use_id",
                        Json::text(result.call_id.as_str()),
                        "content",
                        Json::string(result.content.to_text()),
                        "is_error",
                        Json::boolean(result.is_error),
                    ),
                ),
                empty,
            ),
        };
        match r {
            Ok(_) => {},
            Err(e) => {
                proof {
                    lemma_turns_err(all, i as int + 1);
                }
                return Err(e);
            },
        }
        i += 1;
    }
    assert(all.take(all.len() as int) =~= all);
    assert(messages.deep_view().len() == messages@.len());
    if messages.len() == 0 {
        return Err(ModelError::invalid("Anthropic requires at least one non-system message"));
    }
    assert(text::views(systems@) =~= systems.deep_view());
    Ok((text::join(&systems, "\n\n"), turns::render(messages, "content")))
}

/// Configuration for Anthropic's native Messages API. Of the credential only its
/// presence is part of it.
#[derive(Debug)]
pub struct AnthropicConfig {
    pub name: String,
    pub base_url: String,
    pub model: String,
    pub has_api_key: bool,
    /// Longest time that a request may take, in nanoseconds.
    pub timeout_ns: u64,
    pub capabilities: ModelCapabilities,
    pub stream: bool,
}

/// An [`AnthropicConfig`] by its texts.
pub struct ConfigView {
    pub name: Seq<char>,
    pub base_url: Seq<char>,
    pub model: Seq<char>,
    pub has_api_key: bool,
    pub timeout_ns: u64,
    pub capabilities: ModelCapabilities,
    pub stream: bool,
}

impl DeepView for AnthropicConfig {
    type V = ConfigView;

    open spec fn deep_view(&self) -> ConfigView {
        ConfigView {
            name: self.name@,
            base_url: self.base_url@,
            model: self.model@,
            has_api_key: self.has_api_key,
            timeout_ns: self.timeout_ns,
            capabilities: self.capabilities,
            stream: self.stream,
        }
    }
}

impl AnthropicConfig {
    /// Creates the default hosted Anthropic configuration.
    pub fn hosted(model: &str, has_api_key: bool) -> (r: AnthropicConfig)
        ensures
            r.deep_view() == (ConfigView {
                name: "anthropic"@,
                base_url: "https://api.anthropic.com"@,
                model: model@,
                has_api_key,
                timeout_ns: 300000000000,
                capabilities: ModelCapabilities::usual(),
                stream: true,
            }),
    {
        AnthropicConfig {
            name: "anthropic".to_owned(),
            base_url: "https://api.anthropic.com".to_owned(),
            model: model.to_owned(),
            has_api_key,
            timeout_ns: 300000000000,
            capabilities: ModelCapabilities::default(),
            stream: true,
        }
    }
}

/// Whether a configuration is refused, given the parts of its URL.
pub open spec fn config_spec(
    config: ConfigView,
    parsed: Result<endpoint::PartsView, Seq<char>>,
) -> Result<(), ModelFault> {
    match endpoint::endpoint_spec(
        parsed,
        "invalid Anthropic endpoint: "@,
        "remote Anthropic endpoints must use HTTPS"@,
    ) {
        Err(e) => Err(e),
        Ok(_) => if !endpoint::is_named(config.name) || !endpoint::is_named(config.model) {
            Err(ModelFault::InvalidRequest("provider name and model cannot be empty"@))
        } else if !config.has_api_key {
            Err(ModelFault::InvalidRequest("Anthropic API key cannot be empty"@))
        } else if config.timeout_ns == 0 {
            Err(ModelFault::InvalidRequest("provider timeout must be greater than zero"@))
        } else {
            Ok(())
        },
    }
}

/// Native Anthropic Messages driver with typed content-block streaming.
#[derive(Debug)]
pub struct AnthropicDriver {
    config: AnthropicConfig,
}

impl DeepView for AnthropicDriver {
    type V = ConfigView;

    closed spec fn deep_view(&self) -> ConfigView {
        self.config.deep_view()
    }
}

impl AnthropicDriver {
    /// Builds a driver for a valid configuration.
    pub fn new(config: AnthropicConfig) -> (r: Result<AnthropicDriver, ModelError>)
        ensures
            match r {
                Ok(d) => config_spec(
                    config.deep_view(),
                    endpoint::url_parts(config.base_url@),
                ) is Ok && d.deep_view() == config.deep_view(),
                Err(e) => config_spec(config.deep_view(), endpoint::url_parts(config.base_url@))
                    == Err::<(), ModelFault>(e.deep_view()),
            },
    {
        let parsed = endpoint::parse_url(config.base_url.as_str());
        AnthropicDriver::with_parts(config, &parsed)
    }

    /// Builds a driver for a valid configuration whose URL has been parsed.
    pub fn with_parts(
        config: AnthropicConfig,
        parsed: &Result<endpoint::EndpointParts, String>,
    ) -> (r: Result<AnthropicDriver, ModelError>)
        ensures
            match r {
                Ok(d) => config_spec(config.deep_view(), outcome::of(*parsed)) is Ok
                    && d.deep_view() == config.deep_view(),
                Err(e) => config_spec(config.deep_view(), outcome::of(*parsed)) == Err::<
                    (),
                    ModelFault,
                >(e.deep_view()),
            },
    {
        endpoint::check_endpoint(
            parsed,
            "invalid Anthropic endpoint: ",
            "remote Anthropic endpoints must use HTTPS",
        )?;
        if !endpoint::has_name(config.name.as_str()) || !endpoint::has_name(config.model.as_str()) {
            return Err(ModelError::invalid("provider name and model cannot be empty"));
        }
        if !config.has_api_key {
            return Err(ModelError::invalid("Anthropic API key cannot be empty"));
        }
        if config.timeout_ns == 0 {
            return Err(ModelError::invalid("provider timeout must be greater than zero"));
        }
        Ok(AnthropicDriver { config })
    }

    /// The configuration.
    pub fn config(&self) -> (r: &AnthropicConfig)
        ensures
            r.deep_view() == self.deep_view(),
    {
        &self.config
    }

    /// The URL that requests go to.
    pub fn endpoint(&self) -> (r: String)
        ensures
            r@ == endpoint::without_slashes(self.deep_view().base_url) + "/v1/messages"@,
    {
        text::concat2(
            endpoint::trim_slashes(self.config.base_url.as_str()).as_str(),
            "/v1/messages",
        )
    }
}

/// A tool on the wire.
pub open spec fn tool_spec(t: DescriptorView) -> JsonView {
    json::obj3(
        "name"@,
        JsonView::Text(t.name),
        "description"@,
        JsonView::Text(t.description),
        "input_schema"@,
        t.input_schema,
    )
}

/// The tools of a request.
pub open spec fn tools_spec(tools: Seq<DescriptorView>) -> Seq<JsonView> {
    Seq::new(tools.len(), |i: int| tool_spec(tools[i]))
}

fn tools_json(tools: &Vec<ToolDescriptor>) -> (r: Vec<Json>)
    ensures
        r.deep_view() == tools_spec(tools.deep_view()),
{
    let ghost all = tools.deep_view();
    let mut out: Vec<Json> = Vec::new();
    let mut i: usize = 0;
    while i < tools.len()
        invariant
            i <= tools@.len(),
            all == tools.deep_view(),
            all.len() == tools@.len(),
            out@.len() == i,
            forall|k: int| 0 <= k < i ==> (#[trigger] out@[k]).deep_view() == tool_spec(all[k]),
        decreases tools@.len() - i,
    {
        let tool = &tools[i];
        assert(all[i as int] == tool.deep_view());
        out.push(
            Json::object3(
                "name",
                Json::text(tool.name.as_str()),
                "description",
                Json::text(tool.description.as_str()),
                "input_schema",
                tool.input_schema.clone(),
            ),
        );
        i += 1;
    }
    assert(out.deep_view() =~= tools_spec(all));
    out
}

/// The body of a request without a temperature.
pub open spec fn plain_body(
    config: ConfigView,
    system: Seq<char>,
    messages: Seq<JsonView>,
    tools: Seq<DescriptorView>,
    max_output_tokens: u64,
    stream: bool,
) -> JsonView {
    let base = json::obj4(
        "model"@,
        JsonView::Text(config.model),
        "messages"@,
        JsonView::Array(messages),
        "max_tokens"@,
        json::num(max_output_tokens as nat),
        "stream"@,
        JsonView::Bool(stream),
    );
    let instructed = if system.len() > 0 {
        json::with_member(base, "system"@, JsonView::Text(system))
    } else {
        base
    };
    if tools.len() > 0 {
        json::with_member(
            json::with_member(instructed, "tools"@, JsonView::Array(tools_spec(tools))),
            "tool_choice"@,
            json::obj2(
                "type"@,
                JsonView::Text("auto"@),
                "disable_parallel_tool_use"@,
                JsonView::Bool(!config.capabilities.parallel_tools),
            ),
        )
    } else {
        instructed
    }
}

/// The body of a request before its size is checked, or why it is refused.
pub open spec fn unmeasured_spec(
    config: ConfigView,
    conversation: Seq<ItemView>,
    tools: Seq<DescriptorView>,
    max_output_tokens: u64,
    temperature: Temperature,
    stream: bool,
) -> Result<JsonView, ModelFault> {
    if conversation.len() == 0 {
        Err(ModelFault::InvalidRequest("at least one message is required"@))
    } else if max_output_tokens == 0 || max_output_tokens > config.capabilities.max_output_tokens {
        Err(openai_compatible::output_limit_fault(config.capabilities.max_output_tokens))
    } else {
        match requests::images_spec(conversation, config.capabilities.vision) {
            Err(m) => Err(ModelFault::InvalidRequest(m)),
            Ok(_) => {
                match messages_spec(conversation) {
                    Err(e) => Err(e),
                    Ok((system, messages)) => {
                        let body = plain_body(
                            config,
                            system,
                            messages,
                            tools,
                            max_output_tokens,
                            stream,
                        );
                        match temperature {
                            Temperature::Unset => Ok(body),
                            Temperature::OutOfRange => Err(
                                ModelFault::InvalidRequest(
                                    "Anthropic temperature must be between 0 and 1"@,
                                ),
                            ),
                            Temperature::Value(n) => Ok(
                                json::with_member(
                                    body,
                                    "temperature"@,
                                    JsonView::Number(json::number_view(n)),
                                ),
                            ),
                        }
                    },
                }
            },
        }
    }
}

/// The body of a request, or why it is refused.
pub open spec fn body_spec(
    config: ConfigView,
    conversation: Seq<ItemView>,
    tools: Seq<DescriptorView>,
    max_output_tokens: u64,
    temperature: Temperature,
    stream: bool,
) -> Result<JsonView, ModelFault> {
    requests::measured(unmeasured_spec(config, conversation, tools, max_output_tokens, temperature, stream))
}

/// The body of a request before its size is checked.
pub fn unmeasured_body(config: &AnthropicConfig, request: &ModelRequest, stream: bool) -> (r: Result<
    Json,
    ModelError,
>)
    ensures
        outcome::of(r) == unmeasured_spec(
            config.deep_view(),
            request.conversation.deep_view(),
            request.tools.deep_view(),
            request.max_output_tokens,
            request.temperature,
            stream,
        ),
{
    assert(request.conversation.deep_view().len() == request.conversation@.len());
    assert(request.tools.deep_view().len() == request.tools@.len());
    if request.conversation.len() == 0 {
        return Err(ModelError::invalid("at least one message is required"));
    }
    if request.max_output_tokens == 0 || request.max_output_tokens
        > config.capabilities.max_output_tokens {
        return Err(
            ModelError::InvalidRequest(
                text::concat2(
                    "max_output_tokens must be between 1 and ",
                    text::decimal_text(config.capabilities.max_output_tokens).as_str(),
                ),
            ),
        );
    }
    match requests::validate_request_images(&request.conversation, config.capabilities.vision) {
        Ok(_) => {},
        Err(m) => {
            return Err(ModelError::InvalidRequest(m));
        },
    }
    let (system, messages) = anthropic_messages(&request.conversation)?;
    let mut body = Json::object4(
        "model",
        Json::text(config.model.as_str()),
        "messages",
        Json::array(messages),
        "max_tokens",
        Json::number(request.max_output_tokens),
        "stream",
        Json::boolean(stream),
    );
    if !system.as_str().is_empty() {
        body.set_member("system", Json::string(system));
    }
    if request.tools.len() > 0 {
        body.set_member("tools", Json::array(tools_json(&request.tools)));
        body.set_member(
            "tool_choice",
            Json::object2(
                "type",
                Json::text("auto"),
                "disable_parallel_tool_use",
                Json::boolean(!config.capabilities.parallel_tools),
            ),
        );
    }
    match &request.temperature {
        Temperature::Unset => {},
        Temperature::OutOfRange => {
            return Err(ModelError::invalid("Anthropic temperature must be between 0 and 1"));
        },
        Temperature::Value(n) => {
            body.set_member("temperature", Json::numeric(n.clone()));
        },
    }
    Ok(body)
}

/// The body of a request.
pub fn request_body(config: &AnthropicConfig, request: &ModelRequest, stream: bool) -> (r: Result<
    Json,
    ModelError,
>)
    ensures
        outcome::of(r) == body_spec(
            config.deep_view(),
            request.conversation.deep_view(),
            request.tools.deep_view(),
            request.max_output_tokens,
            request.temperature,
            stream,
        ),
{
    let body = unmeasured_body(config, request, stream)?;
    requests::measure(body)
}

/// The events of a stream from event `i` on.
pub open spec fn events_step(st: AnthropicState, events: Seq<SseEventView>, i: int) -> AnthropicStep
    decreases events.len() - i,
{
    if i < 0 || i >= events.len() {
        quiet(st)
    } else {
        let first = event_step(st, events[i].event, json::json_parse(events[i].data));
        after(first, events_step(first.state, events, i + 1))
    }
}

/// A response stream from its first byte to its last.
pub struct AnthropicStream {
    meter: StreamMeter,
    decoder: SseDecoder,
    accumulator: AnthropicStreamAccumulator,
    request_id: Option<String>,
}

/// What a stream has brought so far.
pub struct AnthropicStreamView {
    pub meter: MeterView,
    pub decoder: SseState,
    pub accumulator: AnthropicState,
    pub request_id: Option<Seq<char>>,
}

impl DeepView for AnthropicStream {
    type V = AnthropicStreamView;

    closed spec fn deep_view(&self) -> AnthropicStreamView {
        AnthropicStreamView {
            meter: self.meter.deep_view(),
            decoder: self.decoder.deep_view(),
            accumulator: self.accumulator.deep_view(),
            request_id: self.request_id.deep_view(),
        }
    }
}

/// What a chunk that is within the size limit does to the decoder and the
/// accumulator.
pub open spec fn chunk_events_step(v: AnthropicStreamView, chunk: Seq<u8>) -> AnthropicStep {
    match sse::push_spec(v.decoder, chunk).1 {
        Err(e) => fail(v.accumulator, e.message_spec()),
        Ok(events) => events_step(v.accumulator, events, 0),
    }
}

impl AnthropicStream {
    /// A stream that has not begun.
    pub fn new(request_id: Option<String>) -> (r: AnthropicStream)
        ensures
            r.deep_view() == (AnthropicStreamView {
                meter: MeterView::fresh(),
                decoder: SseState::fresh(),
                accumulator: AnthropicState::fresh(),
                request_id: request_id.deep_view(),
            }),
    {
        AnthropicStream {
            meter: StreamMeter::new(),
            decoder: SseDecoder::new(),
            accumulator: AnthropicStreamAccumulator::new(),
            request_id,
        }
    }

    /// Takes the next chunk, which arrived after the given time, and logs what it
    /// brings.
    pub fn push(&mut self, chunk: &[u8], elapsed_ms: u64, log: &mut Vec<ModelStreamEvent>) -> (r:
        Result<(), ModelError>)
        ensures
            final(self).deep_view().request_id == old(self).deep_view().request_id,
            ({
                let v = old(self).deep_view();
                if v.meter.wire_bytes + chunk@.len() > transport::MAX_RESPONSE_BYTES {
                    &&& outcome::of(r) == Err::<(), ModelFault>(
                        ModelFault::ResponseTooLarge { limit: transport::MAX_RESPONSE_BYTES },
                    )
                    &&& final(log).deep_view() == old(log).deep_view()
                    &&& final(self).deep_view().accumulator == v.accumulator
                    &&& final(self).deep_view().decoder == v.decoder
                } else {
                    let s = chunk_events_step(v, chunk@);
                    &&& final(self).deep_view().meter == transport::admitted(
                        v.meter,
                        chunk@.len(),
                        elapsed_ms,
                    )
                    &&& final(self).deep_view().decoder == sse::push_spec(v.decoder, chunk@).0
                    &&& final(self).deep_view().accumulator == s.state
                    &&& final(log).deep_view() == old(log).deep_view() + transport::start_events(
                        v.meter,
                        chunk@.len(),
                        elapsed_ms,
                        v.request_id,
                    ) + s.events
                    &&& outcome::of(r) == s.result
                }
            }),
    {
        let ghost v = self.deep_view();
        self.meter.count_chunk(chunk.len(), elapsed_ms, &self.request_id, log)?;
        let ghost log0 = log.deep_view();
        assert(log0 + Seq::<StreamEventView>::empty() =~= log0);
        let events = match self.decoder.push(chunk) {
            Ok(events) => events,
            Err(e) => {
                return Err(ModelError::malformed(e.message()));
            },
        };
        let ghost all = events.deep_view();
        let ghost goal = events_step(v.accumulator, all, 0);
        let ghost mut seen: Seq<StreamEventView> = Seq::empty();
        let ghost meter = self.meter.deep_view();
        let ghost decoder = self.decoder.deep_view();
        let mut i: usize = 0;
        while i < events.len()
            invariant
                i <= events@.len(),
                all == events.deep_view(),
                all.len() == events@.len(),
                self.meter.deep_view() == meter,
                self.decoder.deep_view() == decoder,
                self.request_id.deep_view() == v.request_id,
                ({
                    let rest = events_step(self.accumulator.deep_view(), all, i as int);
                    &&& goal.state == rest.state
                    &&& goal.result == rest.result
                    &&& goal.events == seen + rest.events
                }),
                log.deep_view() == log0 + seen,
                v == old(self).deep_view(),
                v.meter.wire_bytes + chunk@.len() <= transport::MAX_RESPONSE_BYTES,
                meter == transport::admitted(v.meter, chunk@.len(), elapsed_ms),
                decoder == sse::push_spec(v.decoder, chunk@).0,
                sse::push_spec(v.decoder, chunk@).1 == Ok::<Seq<SseEventView>, sse::SseError>(all),
                goal == events_step(v.accumulator, all, 0),
                log0 == old(log).deep_view() + transport::start_events(
                    v.meter,
                    chunk@.len(),
                    elapsed_ms,
                    v.request_id,
                ),
            decreases events@.len() - i,
        {
            assert(all[i as int] == events@[i as int].deep_view());
            let ghost step = event_step(
                self.accumulator.deep_view(),
                all[i as int].event,
                json::json_parse(all[i as int].data),
            );
            let r = self.accumulator.apply(&events[i], log);
            proof {
                let rest = events_step(step.state, all, i + 1);
                assert(seen + (step.events + rest.events) =~= (seen + step.events) + rest.events);
                seen = seen + step.events;
                assert(log.deep_view() =~= log0 + seen);
            }
            if r.is_err() {
                return r;
            }
            i += 1;
        }
        assert(goal.events =~= seen);
        Ok(())
    }

    /// Ends the stream: the complete response, or why there is none.
    pub fn finish(self) -> (r: Result<ModelResponse, ModelError>)
        ensures
            outcome::of(r) == (if sse::complete(self.deep_view().decoder) {
                finish_spec(
                    self.deep_view().accumulator,
                    self.deep_view().request_id,
                    self.deep_view().meter.latency(),
                )
            } else {
                Err(
                    ModelFault::MalformedResponse(sse::SseError::IncompleteEvent.message_spec()),
                )
            }),
    {
        let latency: u64 = self.meter.latency();
        match self.decoder.finish() {
            Ok(_) => {},
            Err(e) => {
                return Err(ModelError::malformed(e.message()));
            },
        }
        self.accumulator.finish(self.request_id, latency)
    }
}

} // verus!
