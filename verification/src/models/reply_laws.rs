//! Laws of streamed replies on OpenAI-compatible wires: a reply is put together of what
//! the stream brought, each thing in its place.

use crate::json;
use crate::json::JsonView;
use crate::models::openai_compatible;
use crate::models::openai_compatible::{OpenAiState, PartialView};
use crate::models::types::{FinishReason, StreamEventView, ToolCallView};
use vstd::prelude::*;

verus! {

/// Whether a call of a reply is what the stream brought of it: it has the id and the name
/// that were streamed, and its arguments are what the streamed text says.
pub open spec fn is_streamed_call(call: ToolCallView, streamed: PartialView) -> bool {
    &&& streamed.id == Some(call.id)
    &&& streamed.name == Some(call.name)
    &&& json::json_parse(streamed.arguments) == Ok::<JsonView, Seq<char>>(call.arguments)
    &&& call.arguments is Object
    &&& call.extensions == Map::<Seq<char>, JsonView>::empty()
}

proof fn lemma_finished_calls(calls: Map<nat, PartialView>, k: nat, done: Seq<ToolCallView>)
    requires
        k == done.len(),
    ensures
        match openai_compatible::finish_calls_spec(calls, k, done) {
            Ok(all) => {
                &&& k <= all.len()
                &&& all.take(k as int) == done
                &&& forall|j: nat|
                    k <= j ==> (#[trigger] calls.contains_key(j) <==> j < all.len())
                &&& forall|j: nat|
                    k <= j < all.len() ==> is_streamed_call(
                        all[j as int],
                        #[trigger] calls[j],
                    )
            },
            Err(_) => true,
        },
    decreases openai_compatible::MAX_TOOL_CALLS - k,
{
    if k < openai_compatible::MAX_TOOL_CALLS && calls.contains_key(k) {
        match openai_compatible::finish_call_spec(calls[k], json::json_parse(calls[k].arguments)) {
            Ok(call) => {
                lemma_finished_calls(calls, k + 1, done.push(call));
                match openai_compatible::finish_calls_spec(calls, k + 1, done.push(call)) {
                    Ok(all) => {
                        assert(all.take(k as int + 1)[k as int] == call);
                        assert(all.take(k as int) =~= all.take(k as int + 1).take(k as int));
                        assert(done.push(call).take(k as int) =~= done);
                    },
                    Err(_) => {},
                }
            },
            Err(_) => {},
        }
    } else {
        assert(done.take(k as int) =~= done);
    }
}

/// The calls of a reply are those that were streamed, each with the id, the name and the
/// arguments that the stream gave it, in the order of their numbers, none left out and
/// none added. Text, finish reason, counters and request id are those of the stream.
pub proof fn law_openai_replies_hold_what_was_streamed(
    st: OpenAiState,
    request_id: Option<Seq<char>>,
    first_byte_ms: u64,
)
    ensures
        match openai_compatible::finish_spec(st, request_id, first_byte_ms) {
            Ok(r) => {
                &&& r.text == st.text
                &&& st.finish_reason == Some(r.finish_reason)
                &&& r.usage == st.usage
                &&& r.provider_request_id == request_id
                &&& r.extensions.contains_key("time_to_first_byte_ms"@)
                &&& r.extensions["time_to_first_byte_ms"@] == json::num(first_byte_ms as nat)
                &&& match st.response_id {
                    Some(id) => r.extensions.contains_key("id"@) && r.extensions["id"@]
                        == JsonView::Text(id),
                    None => !r.extensions.contains_key("id"@),
                }
                &&& forall|k: nat|
                    #[trigger] st.tool_calls.contains_key(k) <==> k < r.tool_calls.len()
                &&& forall|k: nat|
                    k < r.tool_calls.len() ==> is_streamed_call(
                        r.tool_calls[k as int],
                        #[trigger] st.tool_calls[k],
                    )
            },
            Err(_) => true,
        },
{
    lemma_finished_calls(st.tool_calls, 0, Seq::empty());
    reveal_strlit("id");
    reveal_strlit("streaming");
    reveal_strlit("time_to_first_byte_ms");
    assert("id"@.len() == 2 && "streaming"@.len() == 9 && "time_to_first_byte_ms"@.len() == 21);
}

proof fn lemma_calls_can_be_finished(calls: Map<nat, PartialView>, n: nat, k: nat, done: Seq<ToolCallView>)
    requires
        k <= n <= openai_compatible::MAX_TOOL_CALLS,
        forall|j: nat| #[trigger] calls.contains_key(j) <==> j < n,
        forall|j: nat|
            j < n ==> {
                &&& (#[trigger] calls[j]).id is Some
                &&& calls[j].name is Some
                &&& json::json_parse(calls[j].arguments) matches Ok(a) && a is Object
            },
    ensures
        openai_compatible::finish_calls_spec(calls, k, done) matches Ok(all) && all.len()
            == done.len() + (n - k),
    decreases n - k,
{
    if k < n {
        assert(calls[k].id is Some);
        let call = openai_compatible::finish_call_spec(
            calls[k],
            json::json_parse(calls[k].arguments),
        )->Ok_0;
        lemma_calls_can_be_finished(calls, n, k + 1, done.push(call));
    }
}

/// A stream that is done, has said why it stopped, and has brought its calls whole makes
/// a reply, unless it stopped for calls and brought none.
pub proof fn law_openai_complete_streams_make_replies(
    st: OpenAiState,
    n: nat,
    request_id: Option<Seq<char>>,
    first_byte_ms: u64,
)
    requires
        st.done,
        st.finish_reason is Some,
        n <= 128,
        forall|k: nat| #[trigger] st.tool_calls.contains_key(k) <==> k < n,
        forall|k: nat|
            k < n ==> {
                &&& (#[trigger] st.tool_calls[k]).id is Some
                &&& st.tool_calls[k].name is Some
                &&& json::json_parse(st.tool_calls[k].arguments) matches Ok(a) && a is Object
            },
    ensures
        openai_compatible::finish_spec(st, request_id, first_byte_ms) is Ok <==> !(
        st.finish_reason == Some(FinishReason::ToolCalls) && n == 0),
{
    lemma_calls_can_be_finished(st.tool_calls, n, 0, Seq::empty());
}

/// The delta of the one choice of a chunk.
pub open spec fn delta_of(chunk: JsonView) -> Option<JsonView> {
    match json::array_member(chunk, "choices"@) {
        Some(choices) => if choices.len() == 1 {
            json::member(choices[0], "delta"@)
        } else {
            None
        },
        None => None,
    }
}

/// The text that a chunk brings.
pub open spec fn content_of(chunk: JsonView) -> Seq<char> {
    match delta_of(chunk) {
        Some(delta) => match json::text_member(delta, "content"@) {
            Some(t) => t,
            None => Seq::empty(),
        },
        None => Seq::empty(),
    }
}

/// The pieces of calls that a chunk brings.
pub open spec fn pieces_of(chunk: JsonView) -> Seq<JsonView> {
    match delta_of(chunk) {
        Some(delta) => match json::array_member(delta, "tool_calls"@) {
            Some(pieces) => pieces,
            None => Seq::empty(),
        },
        None => Seq::empty(),
    }
}

/// Whether a piece is one of call number `k`.
pub open spec fn belongs_to(piece: JsonView, k: nat) -> bool {
    json::u64_member(piece, "index"@) matches Some(n) && n == k
}

/// The name of a function that a piece brings.
pub open spec fn name_in(piece: JsonView) -> Option<Seq<char>> {
    match json::member(piece, "function"@) {
        Some(function) => json::text_member(function, "name"@),
        None => None,
    }
}

/// The part of the arguments' text that a piece brings.
pub open spec fn arguments_in(piece: JsonView) -> Seq<char> {
    match json::member(piece, "function"@) {
        Some(function) => match json::text_member(function, "arguments"@) {
            Some(t) => t,
            None => Seq::empty(),
        },
        None => Seq::empty(),
    }
}

/// What the pieces from number `i` on bring of the arguments of call `k`, one behind the
/// other.
pub open spec fn arguments_from(pieces: Seq<JsonView>, i: int, k: nat) -> Seq<char>
    decreases pieces.len() - i,
{
    if i < 0 || i >= pieces.len() {
        Seq::empty()
    } else if belongs_to(pieces[i], k) {
        arguments_in(pieces[i]) + arguments_from(pieces, i + 1, k)
    } else {
        arguments_from(pieces, i + 1, k)
    }
}

/// The text of the arguments of call `k` so far.
pub open spec fn arguments_so_far(st: OpenAiState, k: nat) -> Seq<char> {
    if st.tool_calls.contains_key(k) {
        st.tool_calls[k].arguments
    } else {
        Seq::empty()
    }
}

/// The id of call `k`, if it is known.
pub open spec fn id_so_far(st: OpenAiState, k: nat) -> Option<Seq<char>> {
    if st.tool_calls.contains_key(k) {
        st.tool_calls[k].id
    } else {
        None
    }
}

/// The name of call `k`, if it is known.
pub open spec fn name_so_far(st: OpenAiState, k: nat) -> Option<Seq<char>> {
    if st.tool_calls.contains_key(k) {
        st.tool_calls[k].name
    } else {
        None
    }
}

/// Whether the calls of `s` are those of `st` with the pieces from number `i` on.
pub open spec fn has_taken(
    s: OpenAiState,
    st: OpenAiState,
    pieces: Seq<JsonView>,
    i: int,
) -> bool {
    &&& forall|k: nat| #[trigger]
        arguments_so_far(s, k) == arguments_so_far(st, k) + arguments_from(pieces, i, k)
    &&& forall|k: nat| #[trigger]
        s.tool_calls.contains_key(k) <==> st.tool_calls.contains_key(k) || exists|j: int|
            i <= j < pieces.len() && belongs_to(#[trigger] pieces[j], k)
    &&& forall|k: nat, j: int|
        i <= j < pieces.len() && #[trigger] belongs_to(pieces[j], k) ==> {
            &&& json::text_member(pieces[j], "id"@) is Some ==> id_so_far(s, k)
                == json::text_member(pieces[j], "id"@)
            &&& name_in(pieces[j]) is Some ==> name_so_far(s, k) == name_in(pieces[j])
        }
    &&& forall|k: nat| #[trigger]
        id_so_far(s, k) == id_so_far(st, k) || (id_so_far(st, k) is None && exists|j: int|
            i <= j < pieces.len() && #[trigger] belongs_to(pieces[j], k) && json::text_member(
                pieces[j],
                "id"@,
            ) == id_so_far(s, k))
    &&& forall|k: nat| #[trigger]
        name_so_far(s, k) == name_so_far(st, k) || (name_so_far(st, k) is None && exists|j: int|
            i <= j < pieces.len() && #[trigger] belongs_to(pieces[j], k) && name_in(pieces[j])
                == name_so_far(s, k))
}

/// Whether every announcement among the events names a call by its number, its id and its
/// name.
pub open spec fn announces(events: Seq<StreamEventView>, s: OpenAiState) -> bool {
    forall|e: int|
        0 <= e < events.len() ==> match #[trigger] events[e] {
            StreamEventView::ToolCallStarted { index, id, name } => id_so_far(s, index) == Some(id)
                && name_so_far(s, index) == Some(name),
            _ => true,
        }
}

proof fn lemma_piece(call: PartialView, piece: JsonView, k: nat)
    ensures
        ({
            let s = openai_compatible::partial_spec(call, piece, k);
            s.result is Ok ==> {
                &&& s.call.arguments == call.arguments + arguments_in(piece)
                &&& match json::text_member(piece, "id"@) {
                    Some(id) => s.call.id == Some(id) && (call.id is None || call.id == Some(id)),
                    None => s.call.id == call.id,
                }
                &&& match name_in(piece) {
                    Some(name) => s.call.name == Some(name) && (call.name is None || call.name
                        == Some(name)),
                    None => s.call.name == call.name,
                }
                &&& forall|e: int|
                    0 <= e < s.events.len() ==> match #[trigger] s.events[e] {
                        StreamEventView::ToolCallStarted { index, id, name } => index == k
                            && s.call.id == Some(id) && s.call.name == Some(name),
                        _ => true,
                    }
            }
        }),
{
    let s = openai_compatible::partial_spec(call, piece, k);
    if s.result is Ok {
        assert(call.arguments + Seq::<char>::empty() =~= call.arguments);
        assert(s.call.arguments =~= call.arguments + arguments_in(piece));
    }
}

proof fn lemma_pieces(st: OpenAiState, pieces: Seq<JsonView>, i: int)
    requires
        0 <= i <= pieces.len(),
    ensures
        ({
            let s = openai_compatible::tool_deltas_step(st, pieces, i);
            &&& s.result is Ok ==> has_taken(s.state, st, pieces, i) && announces(s.events, s.state)
            &&& s.state == OpenAiState { tool_calls: s.state.tool_calls, ..st }
        }),
    decreases pieces.len() - i,
{
    let s = openai_compatible::tool_deltas_step(st, pieces, i);
    if i == pieces.len() {
        assert forall|k: nat| #[trigger]
            arguments_so_far(s.state, k) == arguments_so_far(st, k) + arguments_from(
                pieces,
                i,
                k,
            ) by {
            assert(arguments_so_far(st, k) + Seq::<char>::empty() =~= arguments_so_far(st, k));
        }
    } else {
        let piece = pieces[i];
        let first = openai_compatible::tool_delta_step(st, piece);
        lemma_pieces(first.state, pieces, i + 1);
        let rest = openai_compatible::tool_deltas_step(first.state, pieces, i + 1);
        if s.result is Ok {
            let n = json::u64_member(piece, "index"@)->0 as nat;
            let call = if st.tool_calls.contains_key(n) {
                st.tool_calls[n]
            } else {
                PartialView::fresh()
            };
            lemma_piece(call, piece, n);
            assert(belongs_to(piece, n));
            assert forall|k: nat| #[trigger]
                arguments_so_far(s.state, k) == arguments_so_far(st, k) + arguments_from(
                    pieces,
                    i,
                    k,
                ) by {
                let tail = arguments_from(pieces, i + 1, k);
                assert(arguments_so_far(rest.state, k) == arguments_so_far(first.state, k) + tail);
                if k == n {
                    assert(arguments_so_far(st, k) + arguments_in(piece) + tail =~= arguments_so_far(
                        st,
                        k,
                    ) + (arguments_in(piece) + tail));
                } else {
                    assert(!belongs_to(piece, k));
                    assert(arguments_so_far(first.state, k) == arguments_so_far(st, k));
                }
            }
            assert forall|k: nat| #[trigger]
                s.state.tool_calls.contains_key(k) <==> st.tool_calls.contains_key(k) || exists|
                    j: int,
                |
                    i <= j < pieces.len() && belongs_to(#[trigger] pieces[j], k) by {
                assert(rest.state.tool_calls.contains_key(k)
                    <==> first.state.tool_calls.contains_key(k) || exists|j: int|
                    i + 1 <= j < pieces.len() && belongs_to(#[trigger] pieces[j], k));
                if k == n {
                    assert(belongs_to(pieces[i], k));
                }
            }
            assert forall|k: nat| true implies (#[trigger] id_so_far(first.state, k)
                == if k == n {
                openai_compatible::partial_spec(call, piece, n).call.id
            } else {
                id_so_far(st, k)
            }) by {}
            assert forall|k: nat| true implies (#[trigger] name_so_far(first.state, k)
                == if k == n {
                openai_compatible::partial_spec(call, piece, n).call.name
            } else {
                name_so_far(st, k)
            }) by {}
            assert forall|k: nat, j: int|
                i <= j < pieces.len() && #[trigger] belongs_to(pieces[j], k) implies {
                &&& json::text_member(pieces[j], "id"@) is Some ==> id_so_far(s.state, k)
                    == json::text_member(pieces[j], "id"@)
                &&& name_in(pieces[j]) is Some ==> name_so_far(s.state, k) == name_in(pieces[j])
            } by {
                if j == i {
                    assert(k == n);
                    let a = id_so_far(first.state, k);
                    let b = name_so_far(first.state, k);
                    assert(id_so_far(rest.state, k) == a || a is None);
                    assert(name_so_far(rest.state, k) == b || b is None);
                }
            }
            assert forall|k: nat| #[trigger]
                id_so_far(s.state, k) == id_so_far(st, k) || (id_so_far(st, k) is None && exists|
                    j: int,
                |
                    i <= j < pieces.len() && #[trigger] belongs_to(pieces[j], k)
                        && json::text_member(pieces[j], "id"@) == id_so_far(s.state, k)) by {
                let a = id_so_far(first.state, k);
                assert(id_so_far(rest.state, k) == a || (a is None && exists|j: int|
                    i + 1 <= j < pieces.len() && #[trigger] belongs_to(pieces[j], k)
                        && json::text_member(pieces[j], "id"@) == id_so_far(rest.state, k)));
                if k == n {
                    assert(belongs_to(pieces[i], k));
                }
            }
            assert forall|k: nat| #[trigger]
                name_so_far(s.state, k) == name_so_far(st, k) || (name_so_far(st, k) is None
                    && exists|j: int|
                    i <= j < pieces.len() && #[trigger] belongs_to(pieces[j], k) && name_in(
                        pieces[j],
                    ) == name_so_far(s.state, k)) by {
                let a = name_so_far(first.state, k);
                assert(name_so_far(rest.state, k) == a || (a is None && exists|j: int|
                    i + 1 <= j < pieces.len() && #[trigger] belongs_to(pieces[j], k) && name_in(
                        pieces[j],
                    ) == name_so_far(rest.state, k)));
                if k == n {
                    assert(belongs_to(pieces[i], k));
                }
            }
            assert forall|e: int| 0 <= e < s.events.len() implies match #[trigger] s.events[e] {
                StreamEventView::ToolCallStarted { index, id, name } => id_so_far(s.state, index)
                    == Some(id) && name_so_far(s.state, index) == Some(name),
                _ => true,
            } by {
                if e < first.events.len() {
                    assert(s.events[e] == first.events[e]);
                    let a = id_so_far(first.state, n);
                    let b = name_so_far(first.state, n);
                    assert(id_so_far(rest.state, n) == a || a is None);
                    assert(name_so_far(rest.state, n) == b || b is None);
                } else {
                    assert(s.events[e] == rest.events[e - first.events.len()]);
                }
            }
        }
    }
}

/// Whether a counter is the one that a report states, or zero if it states none.
pub open spec fn is_stated(counter: u64, report: JsonView, key: Seq<char>) -> bool {
    match json::u64_member(report, key) {
        Some(n) => counter == n,
        None => counter == 0,
    }
}

/// Whether a counter of cached tokens is the one that a report states: the standard
/// detail, else the one that some providers put beside it, else zero.
pub open spec fn is_cached_as_stated(counter: u64, report: JsonView) -> bool {
    match json::member(report, "prompt_tokens_details"@) {
        Some(details) => match json::u64_member(details, "cached_tokens"@) {
            Some(n) => counter == n,
            None => is_stated(counter, report, "prompt_cache_hit_tokens"@),
        },
        None => is_stated(counter, report, "prompt_cache_hit_tokens"@),
    }
}

/// A chunk that is taken adds to the reply what it brings and nothing else: its text goes
/// behind the text so far, each piece of a call goes to the call of the piece's number,
/// with the pieces of the arguments in order, and ids, names, the finish reason and the
/// counters are those that the chunk states.
pub proof fn law_openai_chunks_add_what_they_bring(st: OpenAiState, chunk: JsonView)
    ensures
        ({
            let s = openai_compatible::chunk_step(st, chunk);
            s.result is Ok ==> {
                &&& s.state.text == st.text + content_of(chunk)
                &&& has_taken(s.state, st, pieces_of(chunk), 0)
                &&& announces(s.events, s.state)
                &&& s.state.done == st.done
                &&& match json::text_member(chunk, "id"@) {
                    Some(id) => s.state.response_id == Some(id),
                    None => s.state.response_id == st.response_id,
                }
                &&& match json::member(chunk, "usage"@) {
                    Some(u) => if u is Null {
                        s.state.usage == st.usage
                    } else {
                        &&& is_stated(s.state.usage.input_tokens, u, "prompt_tokens"@)
                        &&& is_stated(s.state.usage.output_tokens, u, "completion_tokens"@)
                        &&& is_cached_as_stated(s.state.usage.cached_input_tokens, u)
                    },
                    None => s.state.usage == st.usage,
                }
                &&& json::array_member(chunk, "choices"@) matches Some(choices)
                &&& choices.len() == 0 ==> s.state.finish_reason == st.finish_reason
                &&& choices.len() > 0 ==> match json::text_member(choices[0], "finish_reason"@) {
                    Some(reason) => st.finish_reason is None && s.state.finish_reason is Some
                        && stands_for(reason, s.state.finish_reason->0),
                    None => s.state.finish_reason == st.finish_reason,
                }
            }
        }),
{
    let s = openai_compatible::chunk_step(st, chunk);
    let first = openai_compatible::id_step(st, chunk);
    let second = openai_compatible::usage_step(first.state, chunk);
    if s.result is Ok {
        assert(st.text + Seq::<char>::empty() =~= st.text);
        let choices = json::array_member(chunk, "choices"@)->0;
        if choices.len() == 0 {
            lemma_pieces(second.state, Seq::empty(), 0);
            assert(has_taken(s.state, st, pieces_of(chunk), 0)) by {
                lemma_pieces(st, Seq::empty(), 0);
            }
        } else {
            law_finish_reasons_are_read(
                json::text_member(choices[0], "finish_reason"@).unwrap_or(Seq::empty()),
            );
            let third = openai_compatible::reason_step(second.state, choices[0]);
            match json::member(choices[0], "delta"@) {
                Some(delta) => {
                    let fourth = openai_compatible::content_step(third.state, delta);
                    lemma_pieces(fourth.state, pieces_of(chunk), 0);
                    lemma_same_calls(fourth.state, st, s.state, pieces_of(chunk));
                    let last = openai_compatible::tool_deltas_step(
                        fourth.state,
                        pieces_of(chunk),
                        0,
                    );
                    assert(s.state == last.state);
                    assert forall|e: int| 0 <= e < s.events.len() implies match #[trigger] s.events[e] {
                        StreamEventView::ToolCallStarted { index, id, name } => id_so_far(
                            s.state,
                            index,
                        ) == Some(id) && name_so_far(s.state, index) == Some(name),
                        _ => true,
                    } by {
                        let shown = second.events + (third.events + (fourth.events + last.events));
                        assert(s.events =~= shown);
                        if e >= s.events.len() - last.events.len() {
                            assert(s.events[e] == last.events[e - (s.events.len()
                                - last.events.len())]);
                        }
                    }
                },
                None => {
                    lemma_pieces(third.state, Seq::empty(), 0);
                    lemma_same_calls(third.state, st, s.state, Seq::empty());
                },
            }
        }
    }
}

proof fn lemma_same_calls(a: OpenAiState, b: OpenAiState, s: OpenAiState, pieces: Seq<JsonView>)
    requires
        a.tool_calls == b.tool_calls,
        has_taken(s, a, pieces, 0),
    ensures
        has_taken(s, b, pieces, 0),
{
    assert forall|k: nat| #[trigger]
        arguments_so_far(s, k) == arguments_so_far(b, k) + arguments_from(pieces, 0, k) by {
        assert(arguments_so_far(a, k) == arguments_so_far(b, k));
    }
    assert forall|k: nat| true implies #[trigger] id_so_far(a, k) == id_so_far(b, k) by {}
    assert forall|k: nat| true implies #[trigger] name_so_far(a, k) == name_so_far(b, k) by {}
}

/// Whether a reason, as it is written on OpenAI-compatible wires, stands for another.
pub open spec fn stands_for(reason: Seq<char>, f: FinishReason) -> bool {
    &&& f == FinishReason::Complete <==> reason == "stop"@
    &&& f == FinishReason::Length <==> reason == "length"@
    &&& f == FinishReason::ContentFilter <==> reason == "content_filter"@
    &&& f == FinishReason::ToolCalls <==> reason == "tool_calls"@ || reason == "function_call"@
}

/// Each of the reasons that are known is read as what it says, and any other as unknown.
pub proof fn law_finish_reasons_are_read(reason: Seq<char>)
    ensures
        stands_for(reason, openai_compatible::finish_reason_spec(Some(reason))),
        openai_compatible::finish_reason_spec(None) == FinishReason::Unknown,
{
    reveal_strlit("stop");
    reveal_strlit("length");
    reveal_strlit("content_filter");
    reveal_strlit("tool_calls");
    reveal_strlit("function_call");
    assert("stop"@.len() == 4 && "length"@.len() == 6 && "content_filter"@.len() == 14
        && "tool_calls"@.len() == 10 && "function_call"@.len() == 13);
}

} // verus!
