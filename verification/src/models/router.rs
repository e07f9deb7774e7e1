//! Choosing between two configured models by the phase of a run.

use crate::json;
use crate::json::{Json, JsonView};
use crate::models::types::{
    CapabilitySource, ConversationItem, ItemView, Message, MessageView, ModelCapabilities,
    ModelPhase, ModelRequest, ModelResponse, ModelRoute, ResponseView, Role, ToolCall,
    ToolCallView, ToolResult, ToolResultView,
};
use crate::slots;
use crate::text;
use vstd::prelude::*;

verus! {

/// A configured model, as far as routing goes by it.
#[derive(Debug)]
pub struct ModelIdentity {
    pub name: String,
    pub model: String,
    pub capabilities: ModelCapabilities,
}

/// A [`ModelIdentity`] by its texts.
pub struct IdentityView {
    pub name: Seq<char>,
    pub model: Seq<char>,
    pub capabilities: ModelCapabilities,
}

impl DeepView for ModelIdentity {
    type V = IdentityView;

    open spec fn deep_view(&self) -> IdentityView {
        IdentityView { name: self.name@, model: self.model@, capabilities: self.capabilities }
    }
}

/// Opt-in phase router with no fallback or hidden provider substitution.
///
/// Investigation turns use the secondary model. Every other turn, including
/// implementation, validation, synthesis, recovery, and probes, uses primary.
#[derive(Debug)]
pub struct PhaseModelRouter {
    primary: ModelIdentity,
    investigation: ModelIdentity,
    capabilities: ModelCapabilities,
    identity: String,
}

/// What a [`PhaseModelRouter`] routes between.
pub struct RouterView {
    pub primary: IdentityView,
    pub investigation: IdentityView,
}

/// The smaller of two numbers.
pub open spec fn smaller(a: u64, b: u64) -> u64 {
    if a <= b {
        a
    } else {
        b
    }
}

/// What both of two models are capable of.
pub open spec fn shared_capabilities(a: ModelCapabilities, b: ModelCapabilities) -> ModelCapabilities {
    ModelCapabilities {
        native_tools: a.native_tools && b.native_tools,
        parallel_tools: a.parallel_tools && b.parallel_tools,
        structured_output: a.structured_output && b.structured_output,
        vision: a.vision && b.vision,
        prompt_caching: a.prompt_caching && b.prompt_caching,
        streaming: a.streaming && b.streaming,
        reasoning_controls: a.reasoning_controls && b.reasoning_controls,
        context_tokens: smaller(a.context_tokens, b.context_tokens),
        max_output_tokens: smaller(a.max_output_tokens, b.max_output_tokens),
        source: CapabilitySource::UserDeclared,
    }
}

/// The text that identifies a pair of models.
pub open spec fn identity_spec(v: RouterView) -> Seq<char> {
    "primary="@ + v.primary.name + "/"@ + v.primary.model + ";investigation="@
        + v.investigation.name + "/"@ + v.investigation.model
}

/// The model that a request goes to: the one it names, or else the one for its
/// phase.
pub open spec fn route_spec(phase: Option<ModelPhase>, route: Option<ModelRoute>) -> ModelRoute {
    match route {
        Some(r) => r,
        None => if phase == Some(ModelPhase::Investigation) {
            ModelRoute::Investigation
        } else {
            ModelRoute::Primary
        },
    }
}

impl RouterView {
    /// The model on a route.
    pub open spec fn on(self, route: ModelRoute) -> IdentityView {
        match route {
            ModelRoute::Primary => self.primary,
            ModelRoute::Investigation => self.investigation,
        }
    }
}

impl ModelRoute {
    /// The name of a route.
    pub open spec fn name_spec(self) -> Seq<char> {
        match self {
            ModelRoute::Primary => "primary"@,
            ModelRoute::Investigation => "investigation"@,
        }
    }

    /// The name of the route.
    pub fn name(self) -> (r: &'static str)
        ensures
            r@ == self.name_spec(),
    {
        match self {
            ModelRoute::Primary => "primary",
            ModelRoute::Investigation => "investigation",
        }
    }
}

/// Whether a call came from another route than the given one.
pub open spec fn is_foreign(call: ToolCallView, route: Seq<char>) -> bool {
    !(call.extensions.contains_key("pactrail_route_origin"@)
        && call.extensions["pactrail_route_origin"@] == JsonView::Text(route))
}

/// Whether an item is a turn with a call from another route.
pub open spec fn is_foreign_turn(item: ItemView, route: Seq<char>) -> bool {
    match item {
        ItemView::AssistantToolCalls { text, calls } => exists|j: int|
            0 <= j < calls.len() && is_foreign(#[trigger] calls[j], route),
        _ => false,
    }
}

/// Whether the calls of a turn include one with the given id.
pub open spec fn calls_id(item: ItemView, id: Seq<char>) -> bool {
    match item {
        ItemView::AssistantToolCalls { text, calls } => exists|j: int|
            0 <= j < calls.len() && (#[trigger] calls[j]).id == id,
        _ => false,
    }
}

/// Whether an id stands in a turn with a call from another route.
pub open spec fn is_foreign_id(
    conversation: Seq<ItemView>,
    route: Seq<char>,
    id: Seq<char>,
) -> bool {
    exists|i: int|
        0 <= i < conversation.len() && is_foreign_turn(#[trigger] conversation[i], route)
            && calls_id(conversation[i], id)
}

/// Whether the conversation holds a turn with a call from another route.
pub open spec fn has_foreign(conversation: Seq<ItemView>, route: Seq<char>) -> bool {
    exists|i: int|
        0 <= i < conversation.len() && is_foreign_turn(#[trigger] conversation[i], route)
}

/// A call without what only its own route understands.
pub open spec fn portable_call(c: ToolCallView) -> JsonView {
    json::obj3(
        "id"@,
        JsonView::Text(c.id),
        "name"@,
        JsonView::Text(c.name),
        "arguments"@,
        c.arguments,
    )
}

/// A turn as a text that any route understands.
pub open spec fn portable_turn(t: Seq<char>, calls: Seq<ToolCallView>) -> Seq<char> {
    "Pactrail portable transcript from another model route. Assistant text: "@ + t
        + "\nTool requests: "@ + json::json_text(
        JsonView::Array(Seq::new(calls.len(), |j: int| portable_call(calls[j]))),
    )
}

/// A tool result as a text that any route understands.
pub open spec fn portable_result(r: ToolResultView) -> Seq<char> {
    "Pactrail untrusted tool result from another model route: "@ + json::json_text(
        json::obj4(
            "call_id"@,
            JsonView::Text(r.call_id),
            "name"@,
            JsonView::Text(r.name),
            "is_error"@,
            JsonView::Bool(r.is_error),
            "content"@,
            r.content,
        ),
    )
}

/// An item as it goes to a route: turns that share an id with a turn from another
/// route, and the results of such calls, become texts.
pub open spec fn portable_item(
    conversation: Seq<ItemView>,
    route: Seq<char>,
    item: ItemView,
) -> ItemView {
    match item {
        ItemView::AssistantToolCalls { text, calls } => if exists|j: int|
            0 <= j < calls.len() && is_foreign_id(conversation, route, (#[trigger] calls[j]).id) {
            ItemView::Message(
                MessageView { role: Role::Assistant, content: portable_turn(text, calls) },
            )
        } else {
            item
        },
        ItemView::ToolResult(r) => if is_foreign_id(conversation, route, r.call_id) {
            ItemView::Message(MessageView { role: Role::User, content: portable_result(r) })
        } else {
            item
        },
        _ => item,
    }
}

/// A conversation as it goes to a route.
pub open spec fn portable_spec(conversation: Seq<ItemView>, route: Seq<char>) -> Seq<ItemView> {
    Seq::new(
        conversation.len(),
        |i: int| portable_item(conversation, route, conversation[i]),
    )
}

/// The calls of a response with their origin.
pub open spec fn marked(calls: Seq<ToolCallView>, route: Seq<char>) -> Seq<ToolCallView> {
    Seq::new(
        calls.len(),
        |i: int|
            ToolCallView {
                extensions: calls[i].extensions.insert(
                    "pactrail_route_origin"@,
                    JsonView::Text(route),
                ),
                ..calls[i]
            },
    )
}

/// A response that states where it came from.
pub open spec fn annotated(r: ResponseView, model: IdentityView, route: Seq<char>) -> ResponseView {
    ResponseView {
        tool_calls: marked(r.tool_calls, route),
        extensions: r.extensions.insert("route"@, JsonView::Text(route)).insert(
            "model"@,
            JsonView::Text(model.model),
        ).insert("provider"@, JsonView::Text(model.name)),
        ..r
    }
}

/// Whether a call came from another route than the given one.
fn foreign(call: &ToolCall, route: &str) -> (r: bool)
    ensures
        r == is_foreign(call.deep_view(), route@),
{
    match call.extensions.get("pactrail_route_origin") {
        Some(origin) => match origin.as_str() {
            Some(t) => !text::same(t, route),
            None => true,
        },
        None => true,
    }
}

fn any_foreign(calls: &Vec<ToolCall>, route: &str) -> (r: bool)
    ensures
        r == exists|j: int|
            0 <= j < calls@.len() && is_foreign(#[trigger] calls.deep_view()[j], route@),
{
    let mut j: usize = 0;
    while j < calls.len()
        invariant
            j <= calls@.len(),
            forall|k: int| 0 <= k < j ==> !is_foreign(#[trigger] calls.deep_view()[k], route@),
        decreases calls@.len() - j,
    {
        assert(calls.deep_view()[j as int] == calls@[j as int].deep_view());
        if foreign(&calls[j], route) {
            return true;
        }
        j += 1;
    }
    false
}

/// The ids that stand in turns with a call from another route.
fn foreign_call_ids(conversation: &Vec<ConversationItem>, route: &str) -> (r: Vec<String>)
    ensures
        forall|id: Seq<char>|
            r.deep_view().contains(id) == #[trigger] is_foreign_id(
                conversation.deep_view(),
                route@,
                id,
            ),
        r@.len() > 0 ==> has_foreign(conversation.deep_view(), route@),
        has_foreign(conversation.deep_view(), route@) ==> r@.len() > 0,
{
    let ghost all = conversation.deep_view();
    let mut ids: Vec<String> = Vec::new();
    let mut i: usize = 0;
    assert(ids.deep_view() =~= Seq::<Seq<char>>::empty());
    assert(all.take(0) =~= Seq::<ItemView>::empty());
    while i < conversation.len()
        invariant
            i <= conversation@.len(),
            all == conversation.deep_view(),
            all.len() == conversation@.len(),
            forall|id: Seq<char>|
                ids.deep_view().contains(id) == #[trigger] is_foreign_id(
                    all.take(i as int),
                    route@,
                    id,
                ),
        decreases conversation@.len() - i,
    {
        assert(all[i as int] == conversation@[i as int].deep_view());
        let ghost before = ids.deep_view();
        let ghost next = all.take(i as int + 1);
        assert forall|id: Seq<char>| #[trigger]
            is_foreign_id(next, route@, id) == (is_foreign_id(all.take(i as int), route@, id) || (
            is_foreign_turn(all[i as int], route@) && calls_id(all[i as int], id))) by {
            if is_foreign_id(all.take(i as int), route@, id) {
                let k = choose|k: int|
                    0 <= k < i && is_foreign_turn(#[trigger] all.take(i as int)[k], route@)
                        && calls_id(all.take(i as int)[k], id);
                assert(next[k] == all.take(i as int)[k]);
            }
            if is_foreign_turn(all[i as int], route@) && calls_id(all[i as int], id) {
                assert(next[i as int] == all[i as int]);
            }
            if is_foreign_id(next, route@, id) {
                let k = choose|k: int|
                    0 <= k < next.len() && is_foreign_turn(#[trigger] next[k], route@) && calls_id(
                        next[k],
                        id,
                    );
                if k < i {
                    assert(all.take(i as int)[k] == next[k]);
                }
            }
        }
        if let ConversationItem::AssistantToolCalls { text, calls } = &conversation[i] {
            let ghost turn = calls.deep_view();
            assert(turn.len() == calls@.len());
            if any_foreign(calls, route) {
                proof {
                    let w = choose|w: int|
                        0 <= w < calls@.len() && is_foreign(
                            #[trigger] calls.deep_view()[w],
                            route@,
                        );
                    assert(all[i as int]->calls[w] == turn[w]);
                    assert(is_foreign_turn(all[i as int], route@));
                }
                let mut j: usize = 0;
                while j < calls.len()
                    invariant
                        j <= calls@.len(),
                        turn == calls.deep_view(),
                        turn.len() == calls@.len(),
                        forall|id: Seq<char>|
                            #![trigger ids.deep_view().contains(id)]
                            ids.deep_view().contains(id) == (before.contains(id) || exists|k: int|
                                0 <= k < j && (#[trigger] turn[k]).id == id),
                    decreases calls@.len() - j,
                {
                    let ghost so_far = ids.deep_view();
                    assert(turn[j as int] == calls@[j as int].deep_view());
                    let ghost new = calls@[j as int].id@;
                    ids.push(calls[j].id.clone());
                    assert(ids.deep_view() =~= so_far.push(new));
                    assert forall|id: Seq<char>|
                        #![trigger ids.deep_view().contains(id)]
                        ids.deep_view().contains(id) == (so_far.contains(id) || id == new) by {
                        if so_far.contains(id) {
                            let w = so_far.index_of(id);
                            assert(ids.deep_view()[w] == id);
                        }
                        if id == new {
                            assert(ids.deep_view()[so_far.len() as int] == id);
                        }
                    }
                    j += 1;
                }
                assert forall|id: Seq<char>|
                    #![trigger ids.deep_view().contains(id)]
                    ids.deep_view().contains(id) == (before.contains(id) || calls_id(
                        all[i as int],
                        id,
                    )) by {}
            } else {
                assert(!is_foreign_turn(all[i as int], route@));
            }
        } else {
            assert(!is_foreign_turn(all[i as int], route@));
        }
        assert forall|id: Seq<char>|
            ids.deep_view().contains(id) == #[trigger] is_foreign_id(next, route@, id) by {
            assert(before.contains(id) == is_foreign_id(all.take(i as int), route@, id));
            assert(ids.deep_view().contains(id) == ids.deep_view().contains(id));
        }
        i += 1;
    }
    assert(all.take(all.len() as int) =~= all);
    proof {
        if ids@.len() > 0 {
            let id = ids.deep_view()[0];
            assert(ids.deep_view().contains(id));
            assert(is_foreign_id(all, route@, id));
        }
        if has_foreign(all, route@) {
            let k = choose|k: int|
                0 <= k < all.len() && is_foreign_turn(#[trigger] all[k], route@);
            if let ItemView::AssistantToolCalls { text, calls } = all[k] {
                let j = choose|j: int| 0 <= j < calls.len() && is_foreign(#[trigger] calls[j], route@);
                assert(calls_id(all[k], calls[j].id));
                assert(is_foreign_id(all, route@, calls[j].id));
                assert(ids.deep_view().contains(calls[j].id));
            }
        }
    }
    ids
}

fn any_listed(calls: &Vec<ToolCall>, ids: &Vec<String>) -> (r: bool)
    ensures
        r == exists|j: int|
            0 <= j < calls@.len() && ids.deep_view().contains(
                (#[trigger] calls.deep_view()[j]).id,
            ),
{
    let mut j: usize = 0;
    while j < calls.len()
        invariant
            j <= calls@.len(),
            forall|k: int|
                0 <= k < j ==> !ids.deep_view().contains((#[trigger] calls.deep_view()[k]).id),
        decreases calls@.len() - j,
    {
        assert(calls.deep_view()[j as int] == calls@[j as int].deep_view());
        if slots::holds_text(ids, calls[j].id.as_str()) {
            return true;
        }
        j += 1;
    }
    false
}

/// A turn as a text that any route understands.
fn portable_turn_text(content: &str, calls: &Vec<ToolCall>) -> (r: String)
    ensures
        r@ == portable_turn(content@, calls.deep_view()),
{
    let ghost all = calls.deep_view();
    let mut out: Vec<Json> = Vec::new();
    let mut j: usize = 0;
    while j < calls.len()
        invariant
            j <= calls@.len(),
            all == calls.deep_view(),
            all.len() == calls@.len(),
            out@.len() == j,
            forall|k: int| 0 <= k < j ==> (#[trigger] out@[k]).deep_view() == portable_call(all[k]),
        decreases calls@.len() - j,
    {
        let call = &calls[j];
        assert(all[j as int] == call.deep_view());
        out.push(
            Json::object3(
                "id",
                Json::text(call.id.as_str()),
                "name",
                Json::text(call.name.as_str()),
                "arguments",
                call.arguments.clone(),
            ),
        );
        j += 1;
    }
    assert(out.deep_view() =~= Seq::new(all.len(), |j: int| portable_call(all[j])));
    text::concat4(
        "Pactrail portable transcript from another model route. Assistant text: ",
        content,
        "\nTool requests: ",
        Json::array(out).to_text().as_str(),
    )
}

/// A tool result as a text that any route understands.
fn portable_result_text(result: &ToolResult) -> (r: String)
    ensures
        r@ == portable_result(result.deep_view()),
{
    text::concat2(
        "Pactrail untrusted tool result from another model route: ",
        Json::object4(
            "call_id",
            Json::text(result.call_id.as_str()),
            "name",
            Json::text(result.name.as_str()),
            "is_error",
            Json::boolean(result.is_error),
            "content",
            result.content.clone(),
        ).to_text().as_str(),
    )
}

/// The conversation as it goes to a route, where that differs from the
/// conversation itself.
pub fn portable_conversation(conversation: &Vec<ConversationItem>, route: &str) -> (r: Option<
    Vec<ConversationItem>,
>)
    ensures
        match r {
            Some(c) => has_foreign(conversation.deep_view(), route@) && c.deep_view()
                == portable_spec(conversation.deep_view(), route@),
            None => !has_foreign(conversation.deep_view(), route@) && portable_spec(
                conversation.deep_view(),
                route@,
            ) == conversation.deep_view(),
        },
{
    let ghost all = conversation.deep_view();
    let ids = foreign_call_ids(conversation, route);
    if ids.len() == 0 {
        assert(portable_spec(all, route@) =~= all) by {
            assert forall|id: Seq<char>| !#[trigger] is_foreign_id(all, route@, id) by {
                assert(ids.deep_view().len() == 0);
                assert(!ids.deep_view().contains(id));
            }
            assert forall|i: int| 0 <= i < all.len() implies portable_item(all, route@, all[i])
                == all[i] by {}
        }
        return None;
    }
    let mut out: Vec<ConversationItem> = Vec::new();
    let mut i: usize = 0;
    while i < conversation.len()
        invariant
            i <= conversation@.len(),
            all == conversation.deep_view(),
            all.len() == conversation@.len(),
            out@.len() == i,
            forall|id: Seq<char>|
                ids.deep_view().contains(id) == #[trigger] is_foreign_id(all, route@, id),
            forall|k: int|
                0 <= k < i ==> (#[trigger] out@[k]).deep_view() == portable_item(
                    all,
                    route@,
                    all[k],
                ),
        decreases conversation@.len() - i,
    {
        let item = &conversation[i];
        assert(all[i as int] == item.deep_view());
        let next = match item {
            ConversationItem::AssistantToolCalls { text, calls } => {
                let ghost turn = calls.deep_view();
                assert(turn.len() == calls@.len());
                if any_listed(calls, &ids) {
                    proof {
                        let j = choose|j: int|
                            0 <= j < calls@.len() && ids.deep_view().contains(
                                (#[trigger] turn[j]).id,
                            );
                        assert(is_foreign_id(all, route@, turn[j].id));
                    }
                    ConversationItem::Message(
                        Message::assistant(portable_turn_text(text.as_str(), calls).as_str()),
                    )
                } else {
                    assert forall|j: int| 0 <= j < turn.len() implies !is_foreign_id(
                        all,
                        route@,
                        (#[trigger] turn[j]).id,
                    ) by {
                        assert(!ids.deep_view().contains(turn[j].id));
                    }
                    item.clone()
                }
            },
            ConversationItem::ToolResult(result) => {
                if slots::holds_text(&ids, result.call_id.as_str()) {
                    ConversationItem::Message(
                        Message::user(portable_result_text(result).as_str()),
                    )
                } else {
                    item.clone()
                }
            },
            _ => item.clone(),
        };
        out.push(next);
        i += 1;
    }
    assert(out.deep_view() =~= portable_spec(all, route@));
    Some(out)
}

impl DeepView for PhaseModelRouter {
    type V = RouterView;

    closed spec fn deep_view(&self) -> RouterView {
        RouterView {
            primary: self.primary.deep_view(),
            investigation: self.investigation.deep_view(),
        }
    }
}

impl PhaseModelRouter {
    /// What the router has worked out of its models.
    #[verifier::type_invariant]
    closed spec fn consistent(self) -> bool {
        &&& self.capabilities == shared_capabilities(
            self.primary.capabilities,
            self.investigation.capabilities,
        )
        &&& self.identity@ == identity_spec(
            RouterView {
                primary: self.primary.deep_view(),
                investigation: self.investigation.deep_view(),
            },
        )
    }

    /// A router between two models.
    pub fn new(primary: ModelIdentity, investigation: ModelIdentity) -> (r: PhaseModelRouter)
        ensures
            r.deep_view() == (RouterView {
                primary: primary.deep_view(),
                investigation: investigation.deep_view(),
            }),
    {
        let a = primary.capabilities;
        let b = investigation.capabilities;
        let capabilities = ModelCapabilities {
            native_tools: a.native_tools && b.native_tools,
            parallel_tools: a.parallel_tools && b.parallel_tools,
            structured_output: a.structured_output && b.structured_output,
            vision: a.vision && b.vision,
            prompt_caching: a.prompt_caching && b.prompt_caching,
            streaming: a.streaming && b.streaming,
            reasoning_controls: a.reasoning_controls && b.reasoning_controls,
            context_tokens: if a.context_tokens <= b.context_tokens {
                a.context_tokens
            } else {
                b.context_tokens
            },
            max_output_tokens: if a.max_output_tokens <= b.max_output_tokens {
                a.max_output_tokens
            } else {
                b.max_output_tokens
            },
            source: CapabilitySource::UserDeclared,
        };
        let first = text::concat4(
            "primary=",
            primary.name.as_str(),
            "/",
            primary.model.as_str(),
        );
        let identity = text::concat5(
            first.as_str(),
            ";investigation=",
            investigation.name.as_str(),
            "/",
            investigation.model.as_str(),
        );
        PhaseModelRouter { primary, investigation, capabilities, identity }
    }

    /// The name of the router.
    pub fn name(&self) -> (r: &'static str)
        ensures
            r@ == "phase-router"@,
    {
        "phase-router"
    }

    /// The text that identifies the pair of models.
    pub fn model(&self) -> (r: &str)
        ensures
            r@ == identity_spec(self.deep_view()),
    {
        proof {
            use_type_invariant(self);
        }
        self.identity.as_str()
    }

    /// What both models are capable of.
    pub fn capabilities(&self) -> (r: &ModelCapabilities)
        ensures
            *r == shared_capabilities(
                self.deep_view().primary.capabilities,
                self.deep_view().investigation.capabilities,
            ),
    {
        proof {
            use_type_invariant(self);
        }
        &self.capabilities
    }

    /// The model for a phase and a route, and its route.
    pub fn select(&self, phase: Option<ModelPhase>, route: Option<ModelRoute>) -> (r: (
        &ModelIdentity,
        ModelRoute,
    ))
        ensures
            r.1 == route_spec(phase, route),
            r.0.deep_view() == self.deep_view().on(r.1),
    {
        let investigates = match route {
            Some(ModelRoute::Investigation) => true,
            Some(ModelRoute::Primary) => false,
            None => match phase {
                Some(ModelPhase::Investigation) => true,
                _ => false,
            },
        };
        if investigates {
            (&self.investigation, ModelRoute::Investigation)
        } else {
            (&self.primary, ModelRoute::Primary)
        }
    }

    /// What the model for a phase is capable of.
    pub fn capabilities_for_phase(&self, phase: ModelPhase) -> (r: &ModelCapabilities)
        ensures
            *r == self.deep_view().on(route_spec(Some(phase), None)).capabilities,
    {
        &self.select(Some(phase), None).0.capabilities
    }

    /// What the model for a phase and a route is capable of.
    pub fn capabilities_for_route(&self, phase: ModelPhase, route: Option<ModelRoute>) -> (r:
        &ModelCapabilities)
        ensures
            *r == self.deep_view().on(route_spec(Some(phase), route)).capabilities,
    {
        &self.select(Some(phase), route).0.capabilities
    }

    /// The route of a request, and the conversation that goes there in place of the
    /// request's own.
    pub fn prepare(&self, request: &ModelRequest) -> (r: (
        ModelRoute,
        Option<Vec<ConversationItem>>,
    ))
        ensures
            r.0 == route_spec(request.phase, request.route),
            match r.1 {
                Some(c) => has_foreign(request.conversation.deep_view(), r.0.name_spec())
                    && c.deep_view() == portable_spec(
                    request.conversation.deep_view(),
                    r.0.name_spec(),
                ),
                None => !has_foreign(request.conversation.deep_view(), r.0.name_spec())
                    && portable_spec(request.conversation.deep_view(), r.0.name_spec())
                    == request.conversation.deep_view(),
            },
    {
        let (_, route) = self.select(request.phase, request.route);
        (route, portable_conversation(&request.conversation, route.name()))
    }

    /// Writes into a response where it came from.
    pub fn annotate(&self, response: ModelResponse, route: ModelRoute) -> (r: ModelResponse)
        ensures
            r.deep_view() == annotated(
                response.deep_view(),
                self.deep_view().on(route),
                route.name_spec(),
            ),
    {
        let ghost before = response.deep_view();
        let ghost raw = response.tool_calls@;
        let model = match route {
            ModelRoute::Primary => &self.primary,
            ModelRoute::Investigation => &self.investigation,
        };
        let mut response = response;
        let mut calls: Vec<ToolCall> = Vec::new();
        let mut i: usize = 0;
        while i < response.tool_calls.len()
            invariant
                i <= response.tool_calls@.len(),
                response.tool_calls@ == raw,
                before.tool_calls.len() == raw.len(),
                forall|k: int|
                    0 <= k < raw.len() ==> (#[trigger] raw[k]).deep_view() == before.tool_calls[k],
                calls@.len() == i,
                response.deep_view() == before,
                forall|k: int|
                    0 <= k < i ==> (#[trigger] calls@[k]).deep_view() == marked(
                        before.tool_calls,
                        route.name_spec(),
                    )[k],
            decreases response.tool_calls@.len() - i,
        {
            let mut call = response.tool_calls[i].clone();
            assert(call.deep_view() == raw[i as int].deep_view());
            call.extensions.insert("pactrail_route_origin", Json::text(route.name()));
            calls.push(call);
            i += 1;
        }
        assert(calls.deep_view() =~= marked(before.tool_calls, route.name_spec()));
        response.tool_calls = calls;
        response.extensions.insert("route", Json::text(route.name()));
        response.extensions.insert("model", Json::text(model.model.as_str()));
        response.extensions.insert("provider", Json::text(model.name.as_str()));
        response
    }
}

/// A router promises no more than either of its models does: what it advertises,
/// both are capable of, and its limits lie within both.
pub proof fn law_advertised_capabilities_are_shared(a: ModelCapabilities, b: ModelCapabilities)
    ensures
        ({
            let s = shared_capabilities(a, b);
            &&& s.native_tools ==> a.native_tools && b.native_tools
            &&& s.parallel_tools ==> a.parallel_tools && b.parallel_tools
            &&& s.structured_output ==> a.structured_output && b.structured_output
            &&& s.vision ==> a.vision && b.vision
            &&& s.prompt_caching ==> a.prompt_caching && b.prompt_caching
            &&& s.streaming ==> a.streaming && b.streaming
            &&& s.reasoning_controls ==> a.reasoning_controls && b.reasoning_controls
            &&& s.context_tokens <= a.context_tokens && s.context_tokens <= b.context_tokens
            &&& s.max_output_tokens <= a.max_output_tokens && s.max_output_tokens
                <= b.max_output_tokens
        }),
{
}

/// What goes to a route holds no call, and so no opaque provider state, that came
/// from another route.
pub proof fn law_foreign_calls_never_cross(conversation: Seq<ItemView>, route: Seq<char>)
    ensures
        !has_foreign(portable_spec(conversation, route), route),
{
    let sent = portable_spec(conversation, route);
    assert forall|i: int| 0 <= i < sent.len() implies !is_foreign_turn(
        #[trigger] sent[i],
        route,
    ) by {
        let item = conversation[i];
        if let ItemView::AssistantToolCalls { text, calls } = item {
            if is_foreign_turn(item, route) {
                let j = choose|j: int| 0 <= j < calls.len() && is_foreign(#[trigger] calls[j], route);
                assert(calls_id(item, calls[j].id));
                assert(is_foreign_turn(conversation[i], route));
                assert(is_foreign_id(conversation, route, calls[j].id));
            }
        }
    }
}

/// The calls of a response go back to the route that they came from as they are.
pub proof fn law_own_calls_return_unchanged(
    response: ResponseView,
    model: IdentityView,
    route: Seq<char>,
)
    ensures
        !is_foreign_turn(
            ItemView::AssistantToolCalls {
                text: response.text,
                calls: annotated(response, model, route).tool_calls,
            },
            route,
        ),
{
}

/// A turn without calls from another route, in a conversation that has none,
/// reaches its route word for word.
pub proof fn law_native_conversations_are_not_rewritten(conversation: Seq<ItemView>, route: Seq<char>)
    requires
        !has_foreign(conversation, route),
    ensures
        portable_spec(conversation, route) == conversation,
{
    assert forall|i: int| 0 <= i < conversation.len() implies portable_item(
        conversation,
        route,
        conversation[i],
    ) == conversation[i] by {}
    assert(portable_spec(conversation, route) =~= conversation);
}

} // verus!
