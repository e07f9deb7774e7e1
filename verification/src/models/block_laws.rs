//! Laws of streamed replies of Anthropic and Gemini: a reply is put together of what the
//! stream brought, each thing in its place.

use crate::json;
use crate::json::JsonView;
use crate::models::anthropic;
use crate::models::anthropic::{AnthropicState, BlockView, ToolBlockView};
use crate::models::gemini;
use crate::models::gemini::{GeminiState, PartsView};
use crate::models::types::{FinishReason, StreamEventView, ToolCallView};
use crate::models::wire_laws;
use vstd::prelude::*;

verus! {

/// Whether the blocks of a stream are numbered from zero up to `n`.
pub open spec fn spans(blocks: Map<nat, BlockView>, n: nat) -> bool {
    forall|k: nat| #[trigger] blocks.contains_key(k) <==> k < n
}

/// The numbers below `n` of the blocks that are calls, in order.
pub open spec fn call_places(blocks: Map<nat, BlockView>, n: nat) -> Seq<nat>
    decreases n,
{
    if n == 0 {
        Seq::empty()
    } else if blocks[(n - 1) as nat] is Tool {
        call_places(blocks, (n - 1) as nat).push((n - 1) as nat)
    } else {
        call_places(blocks, (n - 1) as nat)
    }
}

/// Whether a call of a reply is what the stream brought of it: the id and the name of its
/// block, and as arguments what the streamed text says, or what the block began with if no
/// text was streamed.
pub open spec fn is_call_of_block(call: ToolCallView, block: BlockView) -> bool {
    &&& block matches BlockView::Tool(tool)
    &&& call.id == tool.id
    &&& call.name == tool.name
    &&& if tool.partial_json.len() == 0 {
        call.arguments == tool.initial_input
    } else {
        json::json_parse(tool.partial_json) == Ok::<JsonView, Seq<char>>(call.arguments)
    }
    &&& call.arguments is Object
    &&& call.extensions == Map::<Seq<char>, JsonView>::empty()
}

/// Whether calls are those of the blocks below `n`.
pub open spec fn are_calls_of(
    calls: Seq<ToolCallView>,
    blocks: Map<nat, BlockView>,
    n: nat,
) -> bool {
    &&& calls.len() == call_places(blocks, n).len()
    &&& forall|i: int|
        0 <= i < calls.len() ==> is_call_of_block(
            #[trigger] calls[i],
            blocks[call_places(blocks, n)[i]],
        )
}

proof fn lemma_finished_blocks(blocks: Map<nat, BlockView>, k: nat, done: Seq<ToolCallView>)
    requires
        are_calls_of(done, blocks, k),
        forall|j: nat| j < k ==> #[trigger] blocks.contains_key(j),
    ensures
        match anthropic::finish_blocks_spec(blocks, k, done) {
            Ok(all) => exists|n: nat| #[trigger] spans(blocks, n) && are_calls_of(all, blocks, n),
            Err(_) => true,
        },
    decreases anthropic::MAX_CONTENT_BLOCKS - k,
{
    if k >= anthropic::MAX_CONTENT_BLOCKS || !blocks.contains_key(k) {
        if !(exists|j: nat| k <= j && blocks.contains_key(j)) {
            assert(spans(blocks, k));
        }
    } else {
        match anthropic::finish_block_spec(
            blocks[k],
            json::json_parse(anthropic::collected(blocks[k])),
        ) {
            Err(_) => {},
            Ok(None) => {
                assert(call_places(blocks, k + 1) == call_places(blocks, k));
                lemma_finished_blocks(blocks, k + 1, done);
            },
            Ok(Some(call)) => {
                assert(call_places(blocks, k + 1) == call_places(blocks, k).push(k));
                assert(are_calls_of(done.push(call), blocks, k + 1));
                lemma_finished_blocks(blocks, k + 1, done.push(call));
            },
        }
    }
}

/// The calls of a reply are those that were streamed, each with the id, the name and the
/// arguments that the stream gave it, in the order of their numbers, none left out and
/// none added. Text, finish reason, counters and request id are those of the stream.
pub proof fn law_anthropic_replies_hold_what_was_streamed(
    st: AnthropicState,
    request_id: Option<Seq<char>>,
    first_byte_ms: u64,
)
    ensures
        match anthropic::finish_spec(st, request_id, first_byte_ms) {
            Ok(r) => {
                &&& r.text == st.text
                &&& st.finish_reason == Some(r.finish_reason)
                &&& r.usage == st.usage
                &&& r.provider_request_id == request_id
                &&& exists|n: nat| #[trigger]
                    spans(st.blocks, n) && are_calls_of(r.tool_calls, st.blocks, n)
            },
            Err(_) => true,
        },
{
    lemma_finished_blocks(st.blocks, 0, Seq::empty());
}

/// Whether all blocks but number `k` are as before.
pub open spec fn others_stay(s: AnthropicState, st: AnthropicState, k: nat) -> bool {
    &&& forall|j: nat|
        #![trigger s.blocks.contains_key(j)]
        j != k ==> (s.blocks.contains_key(j) <==> st.blocks.contains_key(j)) && s.blocks[j]
            == st.blocks[j]
    &&& s.blocks.contains_key(k)
}

/// Whether a state differs from another in its text and its blocks alone.
pub open spec fn rest_stays(s: AnthropicState, st: AnthropicState) -> bool {
    &&& s.message_id == st.message_id
    &&& s.finish_reason == st.finish_reason
    &&& s.usage == st.usage
    &&& s.message_started == st.message_started
    &&& s.done == st.done
}

/// A block that begins is filed under its number and nothing else changes: a call with
/// its id, its name and the input that it begins with, of which nothing has been streamed;
/// a text with the text that it brings, which goes behind the text so far.
pub proof fn law_anthropic_blocks_begin(st: AnthropicState, value: JsonView)
    ensures
        ({
            let s = anthropic::value_step(st, "content_block_start"@, value);
            s.result is Ok ==> {
                &&& rest_stays(s.state, st)
                &&& json::u64_member(value, "index"@) matches Some(k)
                &&& !st.blocks.contains_key(k as nat)
                &&& others_stay(s.state, st, k as nat)
                &&& json::member(value, "content_block"@) matches Some(block)
                &&& match s.state.blocks[k as nat] {
                    BlockView::Tool(tool) => {
                        &&& wire_laws::has_text(block, "type"@, "tool_use"@)
                        &&& wire_laws::has_text(block, "id"@, tool.id)
                        &&& wire_laws::has_text(block, "name"@, tool.name)
                        &&& match json::member(block, "input"@) {
                            Some(input) => tool.initial_input == input,
                            None => tool.initial_input == JsonView::Object(Map::empty()),
                        }
                        &&& tool.partial_json.len() == 0
                        &&& !tool.stopped
                        &&& s.state.text == st.text
                        &&& s.events == seq![
                            StreamEventView::ToolCallStarted {
                                index: k as nat,
                                id: tool.id,
                                name: tool.name,
                            },
                        ]
                    },
                    BlockView::Text { stopped } => {
                        &&& wire_laws::has_text(block, "type"@, "text"@)
                        &&& !stopped
                        &&& s.state.text == st.text + (match json::text_member(block, "text"@) {
                            Some(t) => t,
                            None => Seq::empty(),
                        })
                    },
                    BlockView::Ignored { stopped } => {
                        &&& !stopped
                        &&& s.state.text == st.text
                    },
                }
            }
        }),
{
    lemma_event_kinds();
}

proof fn lemma_event_kinds()
    ensures
        "content_block_start"@.len() == 19,
        "content_block_delta"@.len() == 19,
        "content_block_stop"@.len() == 18,
        "message_start"@.len() == 13,
        "message_delta"@.len() == 13,
        "message_stop"@.len() == 12,
        "error"@.len() == 5,
        "content_block_start"@ != "content_block_delta"@,
        "message_start"@ != "message_delta"@,
        "text"@.len() == 4,
        "tool_use"@.len() == 8,
        "thinking"@.len() == 8,
        "redacted_thinking"@.len() == 17,
        "tool_use"@ != "thinking"@,
{
    reveal_strlit("content_block_start");
    reveal_strlit("content_block_delta");
    reveal_strlit("content_block_stop");
    reveal_strlit("message_start");
    reveal_strlit("message_delta");
    reveal_strlit("message_stop");
    reveal_strlit("error");
    reveal_strlit("text");
    reveal_strlit("tool_use");
    reveal_strlit("thinking");
    reveal_strlit("redacted_thinking");
    assert("content_block_start"@[14] != "content_block_delta"@[14]);
    assert("message_start"@[8] != "message_delta"@[8]);
    assert("tool_use"@[1] != "thinking"@[1]);
}

/// A piece of a block goes to the block of its number: streamed text behind the text so
/// far, streamed input behind the input of that call, and nothing else changes.
pub proof fn law_anthropic_pieces_go_to_their_block(st: AnthropicState, value: JsonView)
    ensures
        ({
            let s = anthropic::value_step(st, "content_block_delta"@, value);
            s.result is Ok ==> {
                &&& rest_stays(s.state, st)
                &&& json::u64_member(value, "index"@) matches Some(k)
                &&& st.blocks.contains_key(k as nat)
                &&& others_stay(s.state, st, k as nat)
                &&& json::member(value, "delta"@) matches Some(delta)
                &&& !st.blocks[k as nat].has_stopped()
                &&& match st.blocks[k as nat] {
                    BlockView::Tool(tool) => {
                        &&& s.state.text == st.text
                        &&& json::text_member(delta, "partial_json"@) matches Some(more)
                        &&& s.state.blocks[k as nat] == BlockView::Tool(
                            ToolBlockView { partial_json: tool.partial_json + more, ..tool },
                        )
                    },
                    BlockView::Text { .. } => {
                        &&& s.state.blocks == st.blocks
                        &&& json::text_member(delta, "text"@) matches Some(more)
                        &&& s.state.text == st.text + more
                    },
                    BlockView::Ignored { .. } => s.state == st,
                }
            }
        }),
{
    lemma_event_kinds();
}

/// The end of a block changes nothing but that the block has ended.
pub proof fn law_anthropic_blocks_end(st: AnthropicState, value: JsonView)
    ensures
        ({
            let s = anthropic::value_step(st, "content_block_stop"@, value);
            s.result is Ok ==> {
                &&& rest_stays(s.state, st)
                &&& s.state.text == st.text
                &&& json::u64_member(value, "index"@) matches Some(k)
                &&& st.blocks.contains_key(k as nat)
                &&& others_stay(s.state, st, k as nat)
                &&& !st.blocks[k as nat].has_stopped()
                &&& s.state.blocks[k as nat].has_stopped()
                &&& match st.blocks[k as nat] {
                    BlockView::Tool(tool) => s.state.blocks[k as nat] == BlockView::Tool(
                        ToolBlockView { stopped: true, ..tool },
                    ),
                    BlockView::Text { .. } => s.state.blocks[k as nat] is Text,
                    BlockView::Ignored { .. } => s.state.blocks[k as nat] is Ignored,
                }
            }
        }),
{
    lemma_event_kinds();
}

/// Whether a counter is the one that a report states, or zero if it states none.
pub open spec fn is_stated(counter: u64, report: JsonView, key: Seq<char>) -> bool {
    match json::u64_member(report, key) {
        Some(n) => counter == n,
        None => counter == 0,
    }
}

/// A message that begins brings its id and its counters and nothing else.
pub proof fn law_anthropic_messages_begin(st: AnthropicState, value: JsonView)
    ensures
        ({
            let s = anthropic::value_step(st, "message_start"@, value);
            s.result is Ok ==> {
                &&& s.state.message_started
                &&& !st.message_started
                &&& s.state.done == st.done
                &&& s.state.text == st.text
                &&& s.state.blocks == st.blocks
                &&& s.state.finish_reason == st.finish_reason
                &&& json::member(value, "message"@) matches Some(message)
                &&& match json::member(message, "id"@) {
                    Some(id) => s.state.message_id is Some && id == JsonView::Text(
                        s.state.message_id->0,
                    ),
                    None => s.state.message_id == st.message_id,
                }
                &&& match json::member(message, "usage"@) {
                    Some(u) => {
                        &&& is_stated(s.state.usage.input_tokens, u, "input_tokens"@)
                        &&& is_stated(s.state.usage.output_tokens, u, "output_tokens"@)
                        &&& is_stated(
                            s.state.usage.cached_input_tokens,
                            u,
                            "cache_read_input_tokens"@,
                        )
                    },
                    None => s.state.usage == st.usage,
                }
            }
        }),
{
    lemma_event_kinds();
}

/// A change of the message as a whole states why the message stopped and how much was put
/// out, and nothing else changes.
pub proof fn law_anthropic_messages_say_why_they_stop(st: AnthropicState, value: JsonView)
    ensures
        ({
            let s = anthropic::value_step(st, "message_delta"@, value);
            s.result is Ok ==> {
                &&& s.state.message_started == st.message_started
                &&& s.state.message_id == st.message_id
                &&& s.state.done == st.done
                &&& s.state.text == st.text
                &&& s.state.blocks == st.blocks
                &&& match json::member(value, "usage"@) {
                    Some(u) => {
                        &&& is_stated(s.state.usage.output_tokens, u, "output_tokens"@)
                        &&& s.state.usage.input_tokens == st.usage.input_tokens
                        &&& s.state.usage.cached_input_tokens == st.usage.cached_input_tokens
                    },
                    None => s.state.usage == st.usage,
                }
                &&& match json::member(value, "delta"@) {
                    Some(delta) => match json::text_member(delta, "stop_reason"@) {
                        Some(reason) => st.finish_reason is None && s.state.finish_reason is Some
                            && anthropic_reason(reason, s.state.finish_reason->0),
                        None => s.state.finish_reason == st.finish_reason,
                    },
                    None => s.state.finish_reason == st.finish_reason,
                }
            }
        }),
{
    lemma_event_kinds();
    match json::member(value, "delta"@) {
        Some(delta) => match json::text_member(delta, "stop_reason"@) {
            Some(reason) => {
                law_anthropic_reasons_are_read(reason);
            },
            None => {},
        },
        None => {},
    }
}

/// Whether a reason, as Anthropic writes it, stands for another.
pub open spec fn anthropic_reason(reason: Seq<char>, f: FinishReason) -> bool {
    &&& f == FinishReason::Complete <==> reason == "end_turn"@ || reason == "stop_sequence"@
    &&& f == FinishReason::ToolCalls <==> reason == "tool_use"@
    &&& f == FinishReason::Length <==> reason == "max_tokens"@ || reason
        == "model_context_window_exceeded"@
    &&& f == FinishReason::ContentFilter <==> reason == "refusal"@
}

/// Each of Anthropic's reasons is read as what it says, and any other as unknown.
pub proof fn law_anthropic_reasons_are_read(reason: Seq<char>)
    ensures
        anthropic_reason(reason, anthropic::finish_reason_spec(Some(reason))),
        anthropic::finish_reason_spec(None) == FinishReason::Unknown,
{
    reveal_strlit("end_turn");
    reveal_strlit("stop_sequence");
    reveal_strlit("tool_use");
    reveal_strlit("max_tokens");
    reveal_strlit("model_context_window_exceeded");
    reveal_strlit("refusal");
    assert("end_turn"@.len() == 8 && "stop_sequence"@.len() == 13 && "tool_use"@.len() == 8
        && "max_tokens"@.len() == 10 && "model_context_window_exceeded"@.len() == 29
        && "refusal"@.len() == 7);
    assert("end_turn"@[0] != "tool_use"@[0]);
}

/// Whether a part of a Gemini reply is a thought, which is not shown.
pub open spec fn is_thought(part: JsonView) -> bool {
    json::member(part, "thought"@) == Some(JsonView::Bool(true))
}

/// The texts of parts, one behind the other, without the thoughts.
pub open spec fn spoken(parts: Seq<JsonView>) -> Seq<char>
    decreases parts.len(),
{
    if parts.len() == 0 {
        Seq::empty()
    } else if is_thought(parts.last()) {
        spoken(parts.drop_last())
    } else {
        match json::text_member(parts.last(), "text"@) {
            Some(t) => spoken(parts.drop_last()) + t,
            None => spoken(parts.drop_last()),
        }
    }
}

/// The parts that are calls, in order.
pub open spec fn calling(parts: Seq<JsonView>) -> Seq<JsonView>
    decreases parts.len(),
{
    if parts.len() == 0 {
        Seq::empty()
    } else if !is_thought(parts.last()) && json::text_member(parts.last(), "text"@) is None
        && json::member(parts.last(), "functionCall"@) is Some {
        calling(parts.drop_last()).push(parts.last())
    } else {
        calling(parts.drop_last())
    }
}

/// Whether a call is what a part of a Gemini reply says: its name and its arguments, its
/// id if it has one, and its thought signature if it has one.
pub open spec fn is_call_of_part(call: ToolCallView, part: JsonView) -> bool {
    &&& json::member(part, "functionCall"@) matches Some(f)
    &&& wire_laws::has_text(f, "name"@, call.name)
    &&& match json::member(f, "args"@) {
        Some(arguments) => call.arguments == arguments,
        None => call.arguments == JsonView::Object(Map::empty()),
    }
    &&& match json::member(f, "id"@) {
        Some(id) => id == JsonView::Text(call.id),
        None => call.id.len() >= 7 && call.id.take(7) == "gemini-"@,
    }
    &&& match json::text_member(part, "thoughtSignature"@) {
        Some(signature) => call.extensions.contains_key("thought_signature"@)
            && call.extensions["thought_signature"@] == JsonView::Text(signature),
        None => !call.extensions.contains_key("thought_signature"@),
    }
}

spec fn parts_read(r: PartsView, parts: Seq<JsonView>) -> bool {
    &&& r.text == spoken(parts)
    &&& r.calls.len() == calling(parts).len()
    &&& forall|k: int|
        0 <= k < r.calls.len() ==> is_call_of_part(#[trigger] r.calls[k], calling(parts)[k])
}

proof fn lemma_parts_read(so_far: PartsView, parts: Seq<JsonView>, i: int)
    requires
        0 <= i <= parts.len(),
        parts_read(so_far, parts.take(i)),
    ensures
        match gemini::parts_spec(so_far, parts, i) {
            Ok(r) => parts_read(r, parts),
            Err(_) => true,
        },
    decreases parts.len() - i,
{
    if i < parts.len() {
        let more = parts.take(i + 1);
        assert(more.drop_last() =~= parts.take(i));
        assert(more.last() == parts[i]);
        reveal_strlit("gemini-");
        match gemini::part_spec(so_far, parts[i]) {
            Ok(next) => {
                if calling(more).len() > calling(parts.take(i)).len() {
                    let f = json::member(parts[i], "functionCall"@)->0;
                    let call = next.calls.last();
                    if json::member(f, "id"@) is None {
                        let tail = call.id.skip(7);
                        assert(call.id.take(7) =~= "gemini-"@);
                    }
                    assert(is_call_of_part(call, parts[i]));
                }
                assert(parts_read(next, more));
                lemma_parts_read(next, parts, i + 1);
            },
            Err(_) => {},
        }
    } else {
        assert(parts.take(i) =~= parts);
    }
}

/// The parts of the one candidate of a Gemini reply.
pub open spec fn parts_in(value: JsonView) -> Seq<JsonView> {
    match json::array_member(value, "candidates"@) {
        Some(candidates) => if candidates.len() == 1 {
            match json::member(candidates[0], "content"@) {
                Some(content) => match json::array_member(content, "parts"@) {
                    Some(parts) => parts,
                    None => Seq::empty(),
                },
                None => Seq::empty(),
            }
        } else {
            Seq::empty()
        },
        None => Seq::empty(),
    }
}

/// Whether the prompt of a Gemini reply was blocked.
pub open spec fn is_blocked(value: JsonView) -> bool {
    json::member(value, "promptFeedback"@) matches Some(f) && json::text_member(
        f,
        "blockReason"@,
    ) is Some
}

/// A Gemini reply is read whole: its text is that of its parts without the thoughts, and
/// its calls are those of its function-call parts, in order. A blocked prompt is answered
/// with nothing.
pub proof fn law_gemini_replies_are_read_whole(value: JsonView, request_id: Option<Seq<char>>)
    ensures
        match gemini::response_spec(value, request_id) {
            Ok(r) => {
                &&& r.provider_request_id == request_id
                &&& is_blocked(value) ==> r.text.len() == 0 && r.tool_calls.len() == 0
                    && r.finish_reason == FinishReason::ContentFilter
                &&& !is_blocked(value) ==> {
                    &&& r.text == spoken(parts_in(value))
                    &&& r.tool_calls.len() == calling(parts_in(value)).len()
                    &&& forall|k: int|
                        0 <= k < r.tool_calls.len() ==> is_call_of_part(
                            #[trigger] r.tool_calls[k],
                            calling(parts_in(value))[k],
                        )
                }
            },
            Err(_) => true,
        },
{
    let parts = parts_in(value);
    assert(parts.take(0) =~= Seq::empty());
    lemma_parts_read(PartsView { text: Seq::empty(), calls: Seq::empty() }, parts, 0);
}

/// Two calls with the same fingerprint source are the same call.
pub proof fn law_fingerprints_tell_calls_apart(a: ToolCallView, b: ToolCallView)
    ensures
        gemini::fingerprint_source(a) == gemini::fingerprint_source(b) ==> a == b,
{
    let x = gemini::fingerprint_source(a);
    let y = gemini::fingerprint_source(b);
    if x == y {
        let v = x->Array_0;
        let w = y->Array_0;
        assert(v[0] == w[0] && v[1] == w[1] && v[2] == w[2] && v[3] == w[3]);
    }
}

proof fn lemma_gemini_calls(st: GeminiState, calls: Seq<ToolCallView>, i: int)
    requires
        0 <= i <= calls.len(),
    ensures
        ({
            let s = gemini::calls_step(st, calls, i);
            s.result is Ok ==> {
                &&& s.state.text == st.text
                &&& s.state.finish_reason == st.finish_reason
                &&& s.state.usage == st.usage
                &&& st.calls.len() <= s.state.calls.len()
                &&& forall|k: int| 0 <= k < st.calls.len() ==> #[trigger] s.state.calls[k] == st.calls[k]
                &&& forall|k: int|
                    st.calls.len() <= k < s.state.calls.len() ==> exists|j: int|
                        i <= j < calls.len() && #[trigger] calls[j] == #[trigger] s.state.calls[k]
                &&& forall|f: Seq<char>|
                    st.call_fingerprints.contains(f) ==> #[trigger] s.state.call_fingerprints.contains(
                        f,
                    )
                &&& forall|j: int|
                    i <= j < calls.len() ==> s.state.calls.contains(#[trigger] calls[j])
                        || st.call_fingerprints.contains(gemini::fingerprint_spec(calls[j]))
                        || exists|h: int| i <= h < j && gemini::fingerprint_spec(#[trigger] calls[h])
                            == gemini::fingerprint_spec(calls[j])
            }
        }),
    decreases calls.len() - i,
{
    let s = gemini::calls_step(st, calls, i);
    if i < calls.len() && s.result is Ok {
        let f = gemini::fingerprint_spec(calls[i]);
        let first = gemini::call_step(
            st,
            calls[i],
            f,
            crate::text::utf8_len(json::json_text(calls[i].arguments)),
        );
        lemma_gemini_calls(first.state, calls, i + 1);
        if !st.call_fingerprints.contains(f) {
            assert(first.state.calls[st.calls.len() as int] == calls[i]);
            assert(s.state.calls[st.calls.len() as int] == calls[i]);
            assert forall|g: Seq<char>| st.call_fingerprints.contains(g) implies #[trigger]
                first.state.call_fingerprints.contains(g) by {
                let x = choose|x: int|
                    0 <= x < st.call_fingerprints.len() && st.call_fingerprints[x] == g;
                assert(first.state.call_fingerprints[x] == g);
            }
        }
        assert forall|k: int| st.calls.len() <= k < s.state.calls.len() implies exists|j: int|
            i <= j < calls.len() && #[trigger] calls[j] == #[trigger] s.state.calls[k] by {
            if k < first.state.calls.len() {
                assert(s.state.calls[k] == first.state.calls[k]);
                assert(s.state.calls[k] == calls[i]);
            }
        }
        assert forall|j: int| i <= j < calls.len() implies s.state.calls.contains(
            #[trigger] calls[j],
        ) || st.call_fingerprints.contains(gemini::fingerprint_spec(calls[j])) || exists|h: int|
            i <= h < j && gemini::fingerprint_spec(#[trigger] calls[h]) == gemini::fingerprint_spec(
                calls[j],
            ) by {
            if j > i {
                let g = gemini::fingerprint_spec(calls[j]);
                if first.state.call_fingerprints.contains(g) && !st.call_fingerprints.contains(g) {
                    let x = choose|x: int|
                        0 <= x < first.state.call_fingerprints.len()
                            && first.state.call_fingerprints[x] == g;
                    if x < st.call_fingerprints.len() {
                        assert(st.call_fingerprints[x] == g);
                    }
                    assert(g == f);
                }
            }
        }
    }
}

/// A chunk of a Gemini stream adds what its parts bring: its text behind the text so far,
/// and its calls behind the calls so far, which stay as they are. A call that was not
/// there yet is there afterwards.
pub proof fn law_gemini_chunks_add_what_they_bring(st: GeminiState, value: JsonView)
    ensures
        ({
            let s = gemini::chunk_step(st, value);
            s.result is Ok && !is_blocked(value) ==> {
                &&& s.state.text == st.text + spoken(parts_in(value))
                &&& st.calls.len() <= s.state.calls.len()
                &&& forall|k: int| 0 <= k < st.calls.len() ==> #[trigger] s.state.calls[k] == st.calls[k]
                &&& forall|k: int|
                    st.calls.len() <= k < s.state.calls.len() ==> exists|j: int|
                        0 <= j < calling(parts_in(value)).len() && is_call_of_part(
                            #[trigger] s.state.calls[k],
                            #[trigger] calling(parts_in(value))[j],
                        )
                &&& st.call_fingerprints.len() == 0 && calling(parts_in(value)).len() == 1 ==> {
                    &&& s.state.calls.len() == st.calls.len() + 1
                    &&& is_call_of_part(s.state.calls.last(), calling(parts_in(value))[0])
                }
                &&& match json::member(value, "usageMetadata"@) {
                    Some(u) => {
                        &&& is_stated(s.state.usage.input_tokens, u, "promptTokenCount"@)
                        &&& is_stated(s.state.usage.output_tokens, u, "candidatesTokenCount"@)
                        &&& is_stated(
                            s.state.usage.cached_input_tokens,
                            u,
                            "cachedContentTokenCount"@,
                        )
                    },
                    None => s.state.usage == st.usage,
                }
            }
        }),
{
    let s = gemini::chunk_step(st, value);
    if s.result is Ok && !is_blocked(value) {
        let first = gemini::id_step(st, value);
        let second = gemini::version_step(first.state, value);
        let third = gemini::usage_step(second.state, value);
        let parts = parts_in(value);
        assert(st.text + Seq::<char>::empty() =~= st.text);
        match gemini::candidate_spec(value) {
            Ok(Some(candidate)) => {
                assert(gemini::parts_of(candidate) == parts);
                assert(parts.take(0) =~= Seq::empty());
                lemma_parts_read(PartsView { text: Seq::empty(), calls: Seq::empty() }, parts, 0);
                let read = gemini::candidate_parts_spec(candidate)->Ok_0;
                let fourth = gemini::text_step(third.state, read.text);
                lemma_gemini_calls(fourth.state, read.calls, 0);
                let fifth = gemini::calls_step(fourth.state, read.calls, 0);
                assert(s.state.calls == fifth.state.calls);
                assert forall|k: int| st.calls.len() <= k < s.state.calls.len() implies exists|
                    j: int,
                |
                    0 <= j < calling(parts).len() && is_call_of_part(
                        #[trigger] s.state.calls[k],
                        #[trigger] calling(parts)[j],
                    ) by {
                    let j = choose|j: int|
                        0 <= j < read.calls.len() && #[trigger] read.calls[j] == s.state.calls[k];
                    assert(is_call_of_part(read.calls[j], calling(parts)[j]));
                }
                if st.call_fingerprints.len() == 0 && calling(parts).len() == 1 {
                    assert(read.calls.len() == 1);
                    reveal_with_fuel(gemini::calls_step, 2);
                    assert(s.state.calls.last() == read.calls[0]);
                    assert(is_call_of_part(read.calls[0], calling(parts)[0]));
                }
            },
            _ => {},
        }
    }
}

/// The response that a Gemini stream makes holds what was collected.
pub proof fn law_gemini_replies_hold_what_was_streamed(
    st: GeminiState,
    request_id: Option<Seq<char>>,
    first_byte_ms: u64,
)
    ensures
        match gemini::finish_spec(st, request_id, first_byte_ms) {
            Ok(r) => {
                &&& r.text == st.text
                &&& r.tool_calls == st.calls
                &&& st.finish_reason == Some(r.finish_reason)
                &&& r.usage == st.usage
                &&& r.provider_request_id == request_id
            },
            Err(_) => st.finish_reason is None || (st.finish_reason == Some(FinishReason::ToolCalls)
                && st.calls.len() == 0),
        },
{
}

} // verus!
