//! The provider-neutral conversation, request and response.

use crate::json::{Json, JsonMap, JsonNumber, JsonView};
use crate::models::image::{UserContent, UserContentView};
use crate::tools::descriptor::ToolDescriptor;
use vstd::prelude::*;

verus! {

/// Current schema of Pactrail's provider-neutral conversation and request IR.
pub const MODEL_IR_SCHEMA_VERSION: u32 = 1;

/// Participant role in Pactrail's provider-neutral message representation.
#[derive(Clone, Copy, Debug, PartialEq, Eq, Structural)]
pub enum Role {
    System,
    User,
    Assistant,
}

/// Provider-neutral text message.
#[derive(Debug, PartialEq, Eq)]
pub struct Message {
    pub role: Role,
    pub content: String,
}

/// A [`Message`] by its text.
pub struct MessageView {
    pub role: Role,
    pub content: Seq<char>,
}

impl DeepView for Message {
    type V = MessageView;

    open spec fn deep_view(&self) -> MessageView {
        MessageView { role: self.role, content: self.content@ }
    }
}

impl Clone for Message {
    fn clone(&self) -> (r: Self)
        ensures
            r.deep_view() == self.deep_view(),
    {
        Message { role: self.role, content: self.content.clone() }
    }
}

impl Message {
    /// Creates a system instruction.
    pub fn system(content: &str) -> (r: Message)
        ensures
            r.deep_view() == (MessageView { role: Role::System, content: content@ }),
    {
        Message { role: Role::System, content: content.to_owned() }
    }

    /// Creates a user message.
    pub fn user(content: &str) -> (r: Message)
        ensures
            r.deep_view() == (MessageView { role: Role::User, content: content@ }),
    {
        Message { role: Role::User, content: content.to_owned() }
    }

    /// Creates an assistant message.
    pub fn assistant(content: &str) -> (r: Message)
        ensures
            r.deep_view() == (MessageView { role: Role::Assistant, content: content@ }),
    {
        Message { role: Role::Assistant, content: content.to_owned() }
    }
}

/// Tool invocation requested by a model.
#[derive(Debug)]
pub struct ToolCall {
    pub id: String,
    pub name: String,
    pub arguments: Json,
    /// Non-sensitive provider continuation metadata, such as a signed
    /// function-call thought token that must be echoed on the next turn.
    pub extensions: JsonMap,
}

/// A [`ToolCall`] by its texts and values.
pub struct ToolCallView {
    pub id: Seq<char>,
    pub name: Seq<char>,
    pub arguments: JsonView,
    pub extensions: Map<Seq<char>, JsonView>,
}

impl DeepView for ToolCall {
    type V = ToolCallView;

    open spec fn deep_view(&self) -> ToolCallView {
        ToolCallView {
            id: self.id@,
            name: self.name@,
            arguments: self.arguments.deep_view(),
            extensions: self.extensions.deep_view(),
        }
    }
}

impl Clone for ToolCall {
    fn clone(&self) -> (r: Self)
        ensures
            r.deep_view() == self.deep_view(),
    {
        ToolCall {
            id: self.id.clone(),
            name: self.name.clone(),
            arguments: self.arguments.clone(),
            extensions: self.extensions.clone(),
        }
    }
}

/// Tool result returned to a model on the next turn.
#[derive(Debug)]
pub struct ToolResult {
    pub call_id: String,
    pub name: String,
    pub content: Json,
    pub is_error: bool,
}

/// A [`ToolResult`] by its texts and its value.
pub struct ToolResultView {
    pub call_id: Seq<char>,
    pub name: Seq<char>,
    pub content: JsonView,
    pub is_error: bool,
}

impl DeepView for ToolResult {
    type V = ToolResultView;

    open spec fn deep_view(&self) -> ToolResultView {
        ToolResultView {
            call_id: self.call_id@,
            name: self.name@,
            content: self.content.deep_view(),
            is_error: self.is_error,
        }
    }
}

impl Clone for ToolResult {
    fn clone(&self) -> (r: Self)
        ensures
            r.deep_view() == self.deep_view(),
    {
        ToolResult {
            call_id: self.call_id.clone(),
            name: self.name.clone(),
            content: self.content.clone(),
            is_error: self.is_error,
        }
    }
}

/// One durable item in the provider-neutral model conversation.
pub enum ConversationItem {
    Message(Message),
    UserContent(UserContent),
    AssistantToolCalls { text: String, calls: Vec<ToolCall> },
    ToolResult(ToolResult),
}

/// A [`ConversationItem`] by its texts and values.
pub enum ItemView {
    Message(MessageView),
    UserContent(UserContentView),
    AssistantToolCalls { text: Seq<char>, calls: Seq<ToolCallView> },
    ToolResult(ToolResultView),
}

impl DeepView for ConversationItem {
    type V = ItemView;

    open spec fn deep_view(&self) -> ItemView {
        match self {
            ConversationItem::Message(m) => ItemView::Message(m.deep_view()),
            ConversationItem::UserContent(c) => ItemView::UserContent(c.deep_view()),
            ConversationItem::AssistantToolCalls {
                text,
                calls,
            } => ItemView::AssistantToolCalls { text: text@, calls: calls.deep_view() },
            ConversationItem::ToolResult(r) => ItemView::ToolResult(r.deep_view()),
        }
    }
}

impl Clone for ConversationItem {
    fn clone(&self) -> (r: Self)
        ensures
            r.deep_view() == self.deep_view(),
    {
        match self {
            ConversationItem::Message(m) => ConversationItem::Message(m.clone()),
            ConversationItem::UserContent(c) => ConversationItem::UserContent(c.clone()),
            ConversationItem::AssistantToolCalls { text, calls } => {
                let copies = calls.clone();
                assert(copies.deep_view() =~= calls.deep_view());
                ConversationItem::AssistantToolCalls { text: text.clone(), calls: copies }
            },
            ConversationItem::ToolResult(r) => ConversationItem::ToolResult(r.clone()),
        }
    }
}

/// Provenance of the effective model capability profile.
#[derive(Clone, Copy, Debug, PartialEq, Eq, Structural)]
pub enum CapabilitySource {
    ConservativeDefault,
    UserDeclared,
    Probed,
}

impl Default for CapabilitySource {
    fn default() -> (r: Self)
        ensures
            r == CapabilitySource::ConservativeDefault,
    {
        CapabilitySource::ConservativeDefault
    }
}

/// Declared capabilities of one configured model endpoint.
#[derive(Clone, Copy, Debug, PartialEq, Eq, Structural)]
pub struct ModelCapabilities {
    pub native_tools: bool,
    pub parallel_tools: bool,
    pub structured_output: bool,
    pub vision: bool,
    pub prompt_caching: bool,
    pub streaming: bool,
    pub reasoning_controls: bool,
    pub context_tokens: u64,
    pub max_output_tokens: u64,
    pub source: CapabilitySource,
}

impl ModelCapabilities {
    /// What an endpoint is taken to be capable of unless more is declared.
    pub open spec fn usual() -> ModelCapabilities {
        ModelCapabilities {
            native_tools: true,
            parallel_tools: false,
            structured_output: false,
            vision: false,
            prompt_caching: false,
            streaming: false,
            reasoning_controls: false,
            context_tokens: 32768,
            max_output_tokens: 4096,
            source: CapabilitySource::ConservativeDefault,
        }
    }
}

impl Default for ModelCapabilities {
    fn default() -> (r: Self)
        ensures
            r == ModelCapabilities::usual(),
    {
        ModelCapabilities {
            native_tools: true,
            parallel_tools: false,
            structured_output: false,
            vision: false,
            prompt_caching: false,
            streaming: false,
            reasoning_controls: false,
            context_tokens: 32768,
            max_output_tokens: 4096,
            source: CapabilitySource::ConservativeDefault,
        }
    }
}

/// Stage of a run that a request belongs to.
#[derive(Clone, Copy, Debug, PartialEq, Eq, Structural)]
pub enum ModelPhase {
    Investigation,
    Implementation,
    Validation,
    Synthesis,
    Recovery,
}

/// Explicit choice of a configured model.
#[derive(Clone, Copy, Debug, PartialEq, Eq, Structural)]
pub enum ModelRoute {
    Primary,
    Investigation,
}

/// A sampling temperature, after its range has been checked.
#[derive(Debug)]
pub enum Temperature {
    /// The provider's default applies.
    Unset,
    /// The requested temperature lies outside the provider's range.
    OutOfRange,
    /// The requested temperature as a JSON number.
    Value(JsonNumber),
}

/// Complete normalized request passed to a model driver.
pub struct ModelRequest {
    pub conversation: Vec<ConversationItem>,
    pub tools: Vec<ToolDescriptor>,
    pub max_output_tokens: u64,
    pub temperature: Temperature,
    pub phase: Option<ModelPhase>,
    pub route: Option<ModelRoute>,
}

/// Reason a model stopped producing output.
#[derive(Clone, Copy, Debug, PartialEq, Eq, Structural)]
pub enum FinishReason {
    Complete,
    ToolCalls,
    Length,
    ContentFilter,
    Unknown,
}

/// Normalized token accounting from a provider.
#[derive(Clone, Copy, Debug, PartialEq, Eq, Structural)]
pub struct Usage {
    pub input_tokens: u64,
    pub output_tokens: u64,
    pub cached_input_tokens: u64,
    pub cache_creation_input_tokens: u64,
}

/// `a + b`, or the largest number of 64 bits if that is smaller.
pub open spec fn capped_sum(a: u64, b: u64) -> u64 {
    if a + b > u64::MAX {
        u64::MAX
    } else {
        (a + b) as u64
    }
}

impl Usage {
    /// No tokens.
    pub open spec fn zero() -> Usage {
        Usage {
            input_tokens: 0,
            output_tokens: 0,
            cached_input_tokens: 0,
            cache_creation_input_tokens: 0,
        }
    }

    /// Adds another turn's counters without integer overflow.
    pub fn saturating_add(self, other: Usage) -> (r: Usage)
        ensures
            r.input_tokens == capped_sum(self.input_tokens, other.input_tokens),
            r.output_tokens == capped_sum(self.output_tokens, other.output_tokens),
            r.cached_input_tokens == capped_sum(
                self.cached_input_tokens,
                other.cached_input_tokens,
            ),
            r.cache_creation_input_tokens == capped_sum(
                self.cache_creation_input_tokens,
                other.cache_creation_input_tokens,
            ),
    {
        Usage {
            input_tokens: self.input_tokens.saturating_add(other.input_tokens),
            output_tokens: self.output_tokens.saturating_add(other.output_tokens),
            cached_input_tokens: self.cached_input_tokens.saturating_add(
                other.cached_input_tokens,
            ),
            cache_creation_input_tokens: self.cache_creation_input_tokens.saturating_add(
                other.cache_creation_input_tokens,
            ),
        }
    }

    /// Total reported input and output tokens.
    pub fn total(self) -> (r: u64)
        ensures
            r == capped_sum(self.input_tokens, self.output_tokens),
    {
        self.input_tokens.saturating_add(self.output_tokens)
    }

    /// Whether one of the counters that a stream reports is smaller than before.
    pub open spec fn regressed_from(self, before: Usage) -> bool {
        self.input_tokens < before.input_tokens || self.output_tokens < before.output_tokens
            || self.cached_input_tokens < before.cached_input_tokens
    }

    /// Whether one of the counters that a stream reports is smaller than before.
    pub fn regressed(self, before: Usage) -> (r: bool)
        ensures
            r == self.regressed_from(before),
    {
        self.input_tokens < before.input_tokens || self.output_tokens < before.output_tokens
            || self.cached_input_tokens < before.cached_input_tokens
    }
}

impl Default for Usage {
    fn default() -> (r: Self)
        ensures
            r == Usage::zero(),
    {
        Usage {
            input_tokens: 0,
            output_tokens: 0,
            cached_input_tokens: 0,
            cache_creation_input_tokens: 0,
        }
    }
}

/// Complete normalized response from a model driver.
#[derive(Debug)]
pub struct ModelResponse {
    pub text: String,
    pub tool_calls: Vec<ToolCall>,
    pub finish_reason: FinishReason,
    pub usage: Usage,
    pub provider_request_id: Option<String>,
    /// Non-sensitive provider metadata preserved for diagnostics.
    pub extensions: JsonMap,
}

/// A [`ModelResponse`] by its texts and values.
pub struct ResponseView {
    pub text: Seq<char>,
    pub tool_calls: Seq<ToolCallView>,
    pub finish_reason: FinishReason,
    pub usage: Usage,
    pub provider_request_id: Option<Seq<char>>,
    pub extensions: Map<Seq<char>, JsonView>,
}

impl DeepView for ModelResponse {
    type V = ResponseView;

    open spec fn deep_view(&self) -> ResponseView {
        ResponseView {
            text: self.text@,
            tool_calls: self.tool_calls.deep_view(),
            finish_reason: self.finish_reason,
            usage: self.usage,
            provider_request_id: self.provider_request_id.deep_view(),
            extensions: self.extensions.deep_view(),
        }
    }
}

/// Transient, non-authoritative progress from one model response stream.
///
/// These events are suitable for live user interfaces. Pactrail does not persist
/// them or allow partial tool arguments to reach the tool kernel.
#[derive(Clone, Debug, PartialEq, Eq)]
#[non_exhaustive]
#[allow(inconsistent_fields)]
pub enum ModelStreamEvent {
    /// The provider accepted the request and response bytes began arriving.
    ResponseStarted { provider_request_id: Option<String>, time_to_first_byte_ms: u64 },
    /// A validated UTF-8 assistant-text fragment.
    TextDelta { text: String },
    /// A typed tool call began. Arguments are not yet executable.
    ToolCallStarted { index: usize, id: String, name: String },
    /// More bytes of a tool call's arguments arrived.
    ToolArgumentsDelta { index: usize, bytes: usize },
    /// The provider reported its token counters.
    UsageUpdate { usage: Usage },
}

/// A [`ModelStreamEvent`] by its texts.
#[allow(inconsistent_fields)]
pub enum StreamEventView {
    ResponseStarted { provider_request_id: Option<Seq<char>>, time_to_first_byte_ms: u64 },
    TextDelta { text: Seq<char> },
    ToolCallStarted { index: nat, id: Seq<char>, name: Seq<char> },
    ToolArgumentsDelta { index: nat, bytes: nat },
    UsageUpdate { usage: Usage },
}

impl DeepView for ModelStreamEvent {
    type V = StreamEventView;

    open spec fn deep_view(&self) -> StreamEventView {
        match self {
            ModelStreamEvent::ResponseStarted {
                provider_request_id,
                time_to_first_byte_ms,
            } => StreamEventView::ResponseStarted {
                provider_request_id: provider_request_id.deep_view(),
                time_to_first_byte_ms: *time_to_first_byte_ms,
            },
            ModelStreamEvent::TextDelta { text } => StreamEventView::TextDelta { text: text@ },
            ModelStreamEvent::ToolCallStarted {
                index,
                id,
                name,
            } => StreamEventView::ToolCallStarted { index: *index as nat, id: id@, name: name@ },
            ModelStreamEvent::ToolArgumentsDelta {
                index,
                bytes,
            } => StreamEventView::ToolArgumentsDelta {
                index: *index as nat,
                bytes: *bytes as nat,
            },
            ModelStreamEvent::UsageUpdate { usage } => StreamEventView::UsageUpdate {
                usage: *usage,
            },
        }
    }
}

} // verus!
