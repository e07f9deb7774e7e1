//! One bounded, side-effect-free question about what an endpoint is capable of.

use crate::json;
use crate::json::{Json, JsonView};
use crate::models::driver::{ModelError, ModelFault};
use crate::models::types::{
    ConversationItem, FinishReason, ItemView, Message, MessageView, ModelRequest, ModelResponse,
    ModelStreamEvent, ResponseView, Role, Temperature, ToolCall, ToolCallView, Usage,
};
use crate::outcome;
use crate::slots;
use crate::text;
use crate::tools::descriptor::{Capability, DescriptorView, ToolAnnotations, ToolDescriptor};
use vstd::prelude::*;

verus! {

/// Version of the report's form.
pub const PROBE_SCHEMA: u16 = 1;

/// Largest number of tokens that the reply to a probe may take.
pub const MAX_PROBE_TOKENS: u64 = 256;

/// Result of one positive-only capability check.
#[derive(Clone, Copy, Debug, PartialEq, Eq, Structural)]
pub enum ProbeObservation {
    Observed,
    NotObserved,
}

impl ProbeObservation {
    /// The observation that a fact stands for.
    pub open spec fn of(observed: bool) -> ProbeObservation {
        if observed {
            ProbeObservation::Observed
        } else {
            ProbeObservation::NotObserved
        }
    }

    /// The observation that a fact stands for.
    pub fn from_observed(observed: bool) -> (r: ProbeObservation)
        ensures
            r == ProbeObservation::of(observed),
    {
        if observed {
            ProbeObservation::Observed
        } else {
            ProbeObservation::NotObserved
        }
    }

    /// Whether something was observed.
    pub fn is_observed(self) -> (r: bool)
        ensures
            r == (self == ProbeObservation::Observed),
    {
        matches!(self, ProbeObservation::Observed)
    }
}

/// Positive observations from one bounded, side-effect-free model invocation.
///
/// An observation that was not made means that the capability was not seen in this
/// invocation; it does not prove the configured model lacks that capability.
#[derive(Debug, PartialEq, Eq)]
pub struct CapabilityProbeReport {
    pub schema: u16,
    pub adapter: String,
    pub model: String,
    pub native_tools: ProbeObservation,
    pub parallel_tools: ProbeObservation,
    pub streaming: ProbeObservation,
    pub prompt_cache: ProbeObservation,
    pub valid_probe_calls: usize,
    pub finish_reason: FinishReason,
    pub usage: Usage,
}

/// A [`CapabilityProbeReport`] by its texts and numbers.
pub struct ReportView {
    pub schema: u16,
    pub adapter: Seq<char>,
    pub model: Seq<char>,
    pub native_tools: ProbeObservation,
    pub parallel_tools: ProbeObservation,
    pub streaming: ProbeObservation,
    pub prompt_cache: ProbeObservation,
    pub valid_probe_calls: nat,
    pub finish_reason: FinishReason,
    pub usage: Usage,
}

impl DeepView for CapabilityProbeReport {
    type V = ReportView;

    open spec fn deep_view(&self) -> ReportView {
        ReportView {
            schema: self.schema,
            adapter: self.adapter@,
            model: self.model@,
            native_tools: self.native_tools,
            parallel_tools: self.parallel_tools,
            streaming: self.streaming,
            prompt_cache: self.prompt_cache,
            valid_probe_calls: self.valid_probe_calls as nat,
            finish_reason: self.finish_reason,
            usage: self.usage,
        }
    }
}

/// The name of the tool that a probe offers.
pub open spec fn probe_tool_name() -> Seq<char> {
    "pactrail_capability_probe"@
}

/// The schema of the tool that a probe offers.
pub open spec fn probe_schema() -> JsonView {
    json::obj4(
        "type"@,
        JsonView::Text("object"@),
        "properties"@,
        json::obj1(
            "nonce"@,
            json::obj2(
                "type"@,
                JsonView::Text("string"@),
                "enum"@,
                JsonView::Array(seq![JsonView::Text("alpha"@), JsonView::Text("beta"@)]),
            ),
        ),
        "required"@,
        JsonView::Array(seq![JsonView::Text("nonce"@)]),
        "additionalProperties"@,
        JsonView::Bool(false),
    )
}

/// The tool that a probe offers, as a view.
pub open spec fn probe_tool() -> DescriptorView {
    DescriptorView {
        name: probe_tool_name(),
        description: "Side-effect-free Pactrail capability marker; it is never executed."@,
        input_schema: probe_schema(),
        required_capability: Capability::FileRead,
        annotations: ToolAnnotations::read_only_spec(),
    }
}

/// The tool that a probe offers.
pub fn probe_descriptor() -> (r: ToolDescriptor)
    ensures
        r.deep_view() == probe_tool(),
{
    let mut nonces: Vec<Json> = Vec::new();
    nonces.push(Json::text("alpha"));
    nonces.push(Json::text("beta"));
    assert(nonces.deep_view() =~= seq![JsonView::Text("alpha"@), JsonView::Text("beta"@)]);
    let mut required: Vec<Json> = Vec::new();
    required.push(Json::text("nonce"));
    assert(required.deep_view() =~= seq![JsonView::Text("nonce"@)]);
    ToolDescriptor {
        name: "pactrail_capability_probe".to_owned(),
        description: "Side-effect-free Pactrail capability marker; it is never executed.".to_owned(),
        input_schema: Json::object4(
            "type",
            Json::text("object"),
            "properties",
            Json::object1(
                "nonce",
                Json::object2("type", Json::text("string"), "enum", Json::array(nonces)),
            ),
            "required",
            Json::array(required),
            "additionalProperties",
            Json::boolean(false),
        ),
        required_capability: Capability::FileRead,
        annotations: ToolAnnotations::for_capability(Capability::FileRead),
    }
}

/// What a probe says.
pub open spec fn probe_conversation() -> Seq<ItemView> {
    seq![
        ItemView::Message(
            MessageView {
                role: Role::System,
                content: "This is a side-effect-free protocol capability probe. Do not answer in prose. Call the provided pactrail_capability_probe tool twice in the same response: once with nonce alpha and once with nonce beta."@,
            },
        ),
        ItemView::Message(
            MessageView {
                role: Role::User,
                content: "Emit the two requested probe tool calls now."@,
            },
        ),
    ]
}

/// The request of a probe, at the given temperature, to an endpoint with the given
/// output limit.
pub fn probe_request(max_output_tokens: u64, temperature: Temperature) -> (r: ModelRequest)
    ensures
        r.conversation.deep_view() == probe_conversation(),
        r.tools.deep_view() == seq![probe_tool()],
        r.max_output_tokens == (if max_output_tokens < 1 {
            1
        } else if max_output_tokens > MAX_PROBE_TOKENS {
            MAX_PROBE_TOKENS
        } else {
            max_output_tokens
        }),
        r.temperature == temperature,
        r.phase is None,
        r.route is None,
{
    let mut conversation: Vec<ConversationItem> = Vec::new();
    conversation.push(
        ConversationItem::Message(
            Message::system(
                "This is a side-effect-free protocol capability probe. Do not answer in prose. Call the provided pactrail_capability_probe tool twice in the same response: once with nonce alpha and once with nonce beta.",
            ),
        ),
    );
    conversation.push(
        ConversationItem::Message(Message::user("Emit the two requested probe tool calls now.")),
    );
    assert(conversation.deep_view() =~= probe_conversation());
    let mut tools: Vec<ToolDescriptor> = Vec::new();
    tools.push(probe_descriptor());
    assert(tools.deep_view() =~= seq![probe_tool()]);
    ModelRequest {
        conversation,
        tools,
        max_output_tokens: if max_output_tokens < 1 {
            1
        } else if max_output_tokens > MAX_PROBE_TOKENS {
            MAX_PROBE_TOKENS
        } else {
            max_output_tokens
        },
        temperature,
        phase: None,
        route: None,
    }
}

/// Whether call `i` is a probe call whose id no earlier probe call has.
pub open spec fn counts(calls: Seq<ToolCallView>, i: int) -> bool {
    calls[i].name == probe_tool_name() && forall|j: int|
        0 <= j < i && (#[trigger] calls[j]).name == probe_tool_name() ==> calls[j].id
            != calls[i].id
}

/// Whether call `i` counts and carries a nonce.
pub open spec fn carries(calls: Seq<ToolCallView>, i: int, nonce: Seq<char>) -> bool {
    counts(calls, i) && json::text_member(calls[i].arguments, "nonce"@) == Some(nonce)
}

/// Whether a nonce came back in a call that counts.
pub open spec fn came_back(calls: Seq<ToolCallView>, nonce: Seq<char>) -> bool {
    exists|i: int| 0 <= i < calls.len() && #[trigger] carries(calls, i, nonce)
}

/// The number of distinct nonces that came back.
pub open spec fn valid_calls(calls: Seq<ToolCallView>) -> nat {
    (if came_back(calls, "alpha"@) {
        1nat
    } else {
        0
    }) + (if came_back(calls, "beta"@) {
        1nat
    } else {
        0
    })
}

/// Whether one of the first `n` calls is a probe call with the given id.
spec fn id_taken(calls: Seq<ToolCallView>, n: int, id: Seq<char>) -> bool {
    exists|j: int|
        0 <= j < n && (#[trigger] calls[j]).name == probe_tool_name() && calls[j].id == id
}

/// Adds the id of a probe call to the ones that are taken.
fn take_id(ids: &mut Vec<String>, id: &str, calls: &Vec<ToolCall>, i: usize)
    requires
        i < calls@.len(),
        id@ == calls@[i as int].id@,
        calls@[i as int].name@ == probe_tool_name(),
        forall|other: Seq<char>| #[trigger]
            old(ids).deep_view().contains(other) == id_taken(calls.deep_view(), i as int, other),
    ensures
        forall|other: Seq<char>| #[trigger]
            final(ids).deep_view().contains(other) == id_taken(
                calls.deep_view(),
                i as int + 1,
                other,
            ),
{
    let ghost all = calls.deep_view();
    let ghost before = ids.deep_view();
    ids.push(id.to_owned());
    assert(ids.deep_view() =~= before.push(id@));
    assert(all[i as int].id == id@ && all[i as int].name == probe_tool_name());
    assert forall|other: Seq<char>| #[trigger]
        ids.deep_view().contains(other) == id_taken(all, i as int + 1, other) by {
        if before.contains(other) {
            let w = before.index_of(other);
            assert(ids.deep_view()[w] == other);
        }
        if other == id@ {
            assert(ids.deep_view()[before.len() as int] == other);
        }
        if ids.deep_view().contains(other) && other != id@ {
            let w = ids.deep_view().index_of(other);
            assert(before[w] == other);
            assert(before.contains(other));
        }
    }
}

/// Counts the distinct nonces that came back.
pub fn count_valid_calls(calls: &Vec<ToolCall>) -> (r: usize)
    ensures
        r == valid_calls(calls.deep_view()),
{
    let ghost all = calls.deep_view();
    let mut ids: Vec<String> = Vec::new();
    let mut alpha = false;
    let mut beta = false;
    let mut i: usize = 0;
    assert(ids.deep_view() =~= Seq::<Seq<char>>::empty());
    while i < calls.len()
        invariant
            i <= calls@.len(),
            all == calls.deep_view(),
            all.len() == calls@.len(),
            forall|id: Seq<char>| #[trigger]
                ids.deep_view().contains(id) == id_taken(all, i as int, id),
            alpha == exists|j: int| 0 <= j < i && #[trigger] carries(all, j, "alpha"@),
            beta == exists|j: int| 0 <= j < i && #[trigger] carries(all, j, "beta"@),
        decreases calls@.len() - i,
    {
        let call = &calls[i];
        assert(all[i as int] == call.deep_view());
        let mut has_alpha = false;
        let mut has_beta = false;
        if text::same(call.name.as_str(), "pactrail_capability_probe") {
            let known = slots::holds_text(&ids, call.id.as_str());
            assert(known == id_taken(all, i as int, call.id@));
            assert(counts(all, i as int) == !known);
            if !known {
                if let Some(nonce) = call.arguments.text_member("nonce") {
                    has_alpha = text::same(nonce, "alpha");
                    has_beta = text::same(nonce, "beta");
                }
            }
            take_id(&mut ids, call.id.as_str(), calls, i);
        } else {
            assert forall|id: Seq<char>|
                id_taken(all, i as int, id) == #[trigger] id_taken(all, i as int + 1, id) by {}
        }
        assert(has_alpha == carries(all, i as int, "alpha"@));
        assert(has_beta == carries(all, i as int, "beta"@));
        if has_alpha {
            alpha = true;
        }
        if has_beta {
            beta = true;
        }
        i += 1;
    }
    let first: usize = if alpha {
        1
    } else {
        0
    };
    let second: usize = if beta {
        1
    } else {
        0
    };
    first + second
}

/// Whether a response says that it was streamed.
pub open spec fn says_streaming(r: ResponseView) -> bool {
    r.extensions.contains_key("streaming"@) && r.extensions["streaming"@] == JsonView::Bool(true)
}

/// The report on the response to a probe, or that there is none.
pub open spec fn report_spec(
    adapter: Seq<char>,
    model: Seq<char>,
    stream_started: bool,
    response: ResponseView,
) -> Result<ReportView, ModelFault> {
    if response.finish_reason == FinishReason::ContentFilter {
        Err(
            ModelFault::MalformedResponse(
                "provider safety policy blocked the capability probe"@,
            ),
        )
    } else {
        let valid = valid_calls(response.tool_calls);
        Ok(
            ReportView {
                schema: PROBE_SCHEMA,
                adapter,
                model,
                native_tools: ProbeObservation::of(valid >= 1),
                parallel_tools: ProbeObservation::of(valid >= 2),
                streaming: ProbeObservation::of(stream_started && says_streaming(response)),
                prompt_cache: ProbeObservation::of(response.usage.cached_input_tokens > 0),
                valid_probe_calls: valid,
                finish_reason: response.finish_reason,
                usage: response.usage,
            },
        )
    }
}

/// Reports on the response to a probe. No call in it is executed.
pub fn probe_capabilities(
    adapter: &str,
    model: &str,
    observer: &ProbeObserver,
    response: &ModelResponse,
) -> (r: Result<CapabilityProbeReport, ModelError>)
    ensures
        outcome::of(r) == report_spec(
            adapter@,
            model@,
            observer.stream_started,
            response.deep_view(),
        ),
{
    if response.finish_reason == FinishReason::ContentFilter {
        return Err(ModelError::malformed("provider safety policy blocked the capability probe"));
    }
    let valid_probe_calls: usize = count_valid_calls(&response.tool_calls);
    let streamed = match response.extensions.get("streaming") {
        Some(v) => match v.as_bool() {
            Some(b) => b,
            None => false,
        },
        None => false,
    };
    Ok(
        CapabilityProbeReport {
            schema: PROBE_SCHEMA,
            adapter: adapter.to_owned(),
            model: model.to_owned(),
            native_tools: ProbeObservation::from_observed(valid_probe_calls >= 1),
            parallel_tools: ProbeObservation::from_observed(valid_probe_calls >= 2),
            streaming: ProbeObservation::from_observed(observer.stream_started() && streamed),
            prompt_cache: ProbeObservation::from_observed(response.usage.cached_input_tokens > 0),
            valid_probe_calls,
            finish_reason: response.finish_reason,
            usage: response.usage,
        },
    )
}

/// Watches the events of a probe's response.
#[derive(Debug)]
pub struct ProbeObserver {
    pub stream_started: bool,
}

impl ProbeObserver {
    /// An observer that has seen nothing.
    pub fn new() -> (r: ProbeObserver)
        ensures
            !r.stream_started,
    {
        ProbeObserver { stream_started: false }
    }

    /// Whether a response has begun.
    pub fn stream_started(&self) -> (r: bool)
        ensures
            r == self.stream_started,
    {
        self.stream_started
    }

    /// Takes one event.
    pub fn on_event(&mut self, event: &ModelStreamEvent)
        ensures
            final(self).stream_started == (old(self).stream_started
                || event.deep_view() is ResponseStarted),
    {
        if let ModelStreamEvent::ResponseStarted { .. } = event {
            self.stream_started = true;
        }
    }
}

/// A response without a valid probe call enables nothing, and one nonce alone, how
/// often it may come, does not show parallel calls.
pub proof fn law_markers_must_be_distinct(calls: Seq<ToolCallView>)
    ensures
        valid_calls(calls) <= 2,
        valid_calls(calls) >= 1 ==> exists|i: int|
            0 <= i < calls.len() && (#[trigger] calls[i]).name == probe_tool_name(),
        valid_calls(calls) >= 2 ==> exists|i: int, j: int|
            0 <= i < calls.len() && 0 <= j < calls.len() && (#[trigger] calls[i]).id != (
            #[trigger] calls[j]).id,
{
    if came_back(calls, "alpha"@) && came_back(calls, "beta"@) {
        let i = choose|i: int| 0 <= i < calls.len() && #[trigger] carries(calls, i, "alpha"@);
        let j = choose|j: int| 0 <= j < calls.len() && #[trigger] carries(calls, j, "beta"@);
        reveal_strlit("alpha");
        reveal_strlit("beta");
        assert("alpha"@.len() != "beta"@.len());
        assert(i != j);
        assert(calls[i].id != calls[j].id);
    }
}

} // verus!
