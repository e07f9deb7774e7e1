//! Laws of routing: which model gets a request, and what crosses between models.

use crate::json;
use crate::json::JsonView;
use crate::models::router;
use crate::models::router::IdentityView;
use crate::models::types::{
    ItemView,
    ModelCapabilities,
    ModelPhase,
    ModelRoute,
    ResponseView,
    Role,
    ToolCallView,
    ToolResultView,
};
use crate::models::wire_laws;
use vstd::prelude::*;

verus! {

/// A request goes to the model that it names. One that names none goes to the
/// investigation model if it is of that phase, and else to the primary one.
pub proof fn law_requests_go_where_they_say(phase: Option<ModelPhase>, route: Option<ModelRoute>)
    ensures
        route matches Some(r) ==> router::route_spec(phase, route) == r,
        route is None ==> (router::route_spec(phase, route) == ModelRoute::Investigation <==> phase
            == Some(ModelPhase::Investigation)),
{
}

/// Two models are together capable of exactly what each of them is capable of, and hold as
/// much as the smaller one holds.
pub proof fn law_shared_capabilities_are_exact(a: ModelCapabilities, b: ModelCapabilities)
    ensures
        ({
            let s = router::shared_capabilities(a, b);
            &&& s == router::shared_capabilities(b, a)
            &&& s.native_tools <==> a.native_tools && b.native_tools
            &&& s.parallel_tools <==> a.parallel_tools && b.parallel_tools
            &&& s.structured_output <==> a.structured_output && b.structured_output
            &&& s.vision <==> a.vision && b.vision
            &&& s.prompt_caching <==> a.prompt_caching && b.prompt_caching
            &&& s.streaming <==> a.streaming && b.streaming
            &&& s.reasoning_controls <==> a.reasoning_controls && b.reasoning_controls
            &&& s.context_tokens == a.context_tokens || s.context_tokens == b.context_tokens
            &&& s.context_tokens <= a.context_tokens && s.context_tokens <= b.context_tokens
            &&& s.max_output_tokens == a.max_output_tokens || s.max_output_tokens
                == b.max_output_tokens
            &&& s.max_output_tokens <= a.max_output_tokens && s.max_output_tokens
                <= b.max_output_tokens
        }),
{
}

/// Whether a value tells of a result all that another model needs.
pub open spec fn retells_result(j: JsonView, r: ToolResultView) -> bool {
    &&& wire_laws::has_text(j, "call_id"@, r.call_id)
    &&& wire_laws::has_text(j, "name"@, r.name)
    &&& json::member(j, "is_error"@) == Some(JsonView::Bool(r.is_error))
    &&& json::member(j, "content"@) == Some(r.content)
}

/// Whether a value tells of calls all that another model needs.
pub open spec fn retells_calls(j: JsonView, calls: Seq<ToolCallView>) -> bool {
    &&& j matches JsonView::Array(items)
    &&& items.len() == calls.len()
    &&& forall|k: int|
        0 <= k < calls.len() ==> {
            &&& wire_laws::has_text(#[trigger] items[k], "id"@, calls[k].id)
            &&& wire_laws::has_text(items[k], "name"@, calls[k].name)
            &&& json::member(items[k], "arguments"@) == Some(calls[k].arguments)
        }
}

/// Whether a text ends with the JSON text of a value.
pub open spec fn ends_with_json(t: Seq<char>, j: JsonView) -> bool {
    t.len() >= json::json_text(j).len() && t.skip(t.len() - json::json_text(j).len())
        == json::json_text(j)
}

proof fn lemma_ends(prefix: Seq<char>, j: JsonView)
    ensures
        ends_with_json(prefix + json::json_text(j), j),
{
    let t = prefix + json::json_text(j);
    assert(t.skip(t.len() - json::json_text(j).len()) =~= json::json_text(j));
}

/// What is retold to another model keeps its place and loses nothing: a result becomes a
/// user message that ends with the result as JSON, a turn with calls becomes an assistant
/// message that ends with the calls as JSON, and any other item stays as it is.
pub proof fn law_retold_items_lose_nothing(
    conversation: Seq<ItemView>,
    route: Seq<char>,
    i: int,
)
    requires
        0 <= i < conversation.len(),
    ensures
        router::portable_spec(conversation, route).len() == conversation.len(),
        ({
            let told = router::portable_spec(conversation, route)[i];
            match conversation[i] {
                ItemView::ToolResult(r) => {
                    ||| told == conversation[i]
                    ||| {
                        &&& told is Message
                        &&& told->Message_0.role == Role::User
                        &&& exists|j: JsonView|
                            retells_result(j, r) && ends_with_json(told->Message_0.content, j)
                    }
                },
                ItemView::AssistantToolCalls { text, calls } => {
                    ||| told == conversation[i]
                    ||| {
                        &&& told is Message
                        &&& told->Message_0.role == Role::Assistant
                        &&& exists|j: JsonView|
                            retells_calls(j, calls) && ends_with_json(told->Message_0.content, j)
                    }
                },
                _ => told == conversation[i],
            }
        }),
{
    reveal_strlit("id");
    reveal_strlit("name");
    reveal_strlit("arguments");
    reveal_strlit("call_id");
    reveal_strlit("is_error");
    reveal_strlit("content");
    assert("id"@.len() == 2 && "name"@.len() == 4 && "arguments"@.len() == 9 && "call_id"@.len()
        == 7 && "is_error"@.len() == 8 && "content"@.len() == 7);
    assert("call_id"@[1] != "content"@[1]);
    match conversation[i] {
        ItemView::ToolResult(r) => {
            let j = json::obj4(
                "call_id"@,
                JsonView::Text(r.call_id),
                "name"@,
                JsonView::Text(r.name),
                "is_error"@,
                JsonView::Bool(r.is_error),
                "content"@,
                r.content,
            );
            assert(retells_result(j, r));
            lemma_ends("Pactrail untrusted tool result from another model route: "@, j);
        },
        ItemView::AssistantToolCalls { text, calls } => {
            let j = JsonView::Array(
                Seq::new(calls.len(), |k: int| router::portable_call(calls[k])),
            );
            assert(retells_calls(j, calls));
            lemma_ends(
                "Pactrail portable transcript from another model route. Assistant text: "@ + text
                    + "\nTool requests: "@,
                j,
            );
        },
        _ => {},
    }
}

/// A response that is marked with its origin is otherwise the response that it was.
pub proof fn law_marked_responses_stay_the_same(
    r: ResponseView,
    model: IdentityView,
    route: Seq<char>,
)
    ensures
        ({
            let m = router::annotated(r, model, route);
            &&& m.text == r.text
            &&& m.finish_reason == r.finish_reason
            &&& m.usage == r.usage
            &&& m.provider_request_id == r.provider_request_id
            &&& m.tool_calls.len() == r.tool_calls.len()
            &&& forall|i: int|
                0 <= i < r.tool_calls.len() ==> {
                    &&& (#[trigger] m.tool_calls[i]).id == r.tool_calls[i].id
                    &&& m.tool_calls[i].name == r.tool_calls[i].name
                    &&& m.tool_calls[i].arguments == r.tool_calls[i].arguments
                    &&& forall|k: Seq<char>|
                        k != "pactrail_route_origin"@ && #[trigger]
                        r.tool_calls[i].extensions.contains_key(k)
                            ==> m.tool_calls[i].extensions.contains_key(k)
                            && m.tool_calls[i].extensions[k] == r.tool_calls[i].extensions[k]
                }
            &&& m.extensions.contains_key("route"@) && m.extensions["route"@] == JsonView::Text(
                route,
            )
            &&& m.extensions.contains_key("model"@) && m.extensions["model"@] == JsonView::Text(
                model.model,
            )
            &&& m.extensions.contains_key("provider"@) && m.extensions["provider"@]
                == JsonView::Text(model.name)
        }),
{
    reveal_strlit("route");
    reveal_strlit("model");
    reveal_strlit("provider");
    assert("route"@.len() == 5 && "model"@.len() == 5 && "provider"@.len() == 8);
    assert("route"@[0] != "model"@[0]);
}

} // verus!
