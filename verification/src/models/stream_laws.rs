//! What holds of every stream, whichever provider it comes from.

use crate::json;
use crate::json::JsonView;
use crate::models::anthropic;
use crate::models::anthropic::{AnthropicState, AnthropicStep, BlockView};
use crate::models::driver::ModelFault;
use crate::models::fields;
use crate::models::gemini;
use crate::models::gemini::{GeminiState, GeminiStep};
use crate::models::openai_compatible;
use crate::models::openai_compatible::{OpenAiState, OpenAiStep};
use crate::models::sse::SseEventView;
use crate::models::types::{ItemView, StreamEventView, ToolCallView, Usage};
use crate::text;
use vstd::prelude::*;

verus! {

/// The text that the observer of a stream has been shown.
pub open spec fn shown(events: Seq<StreamEventView>) -> Seq<char>
    decreases events.len(),
{
    if events.len() == 0 {
        Seq::empty()
    } else {
        shown(events.drop_last()) + (match events.last() {
            StreamEventView::TextDelta { text } => text,
            _ => Seq::empty(),
        })
    }
}

proof fn lemma_shown_concat(a: Seq<StreamEventView>, b: Seq<StreamEventView>)
    ensures
        shown(a + b) == shown(a) + shown(b),
    decreases b.len(),
{
    if b.len() == 0 {
        assert(a + b =~= a);
        assert(shown(a) + shown(b) =~= shown(a));
    } else {
        lemma_shown_concat(a, b.drop_last());
        assert((a + b).drop_last() =~= a + b.drop_last());
        assert((a + b).last() == b.last());
        assert(shown(a + b) =~= shown(a) + shown(b));
    }
}

proof fn lemma_shown_one(e: StreamEventView)
    ensures
        shown(seq![e]) == (match e {
            StreamEventView::TextDelta { text } => text,
            _ => Seq::empty(),
        }),
{
    let one = seq![e];
    assert(one.drop_last() =~= Seq::<StreamEventView>::empty());
    assert(shown(one.drop_last()) =~= Seq::<char>::empty());
    assert(shown(one) =~= (match e {
        StreamEventView::TextDelta { text } => text,
        _ => Seq::empty(),
    }));
}

/// Whether counters that were known, if any were, have not fallen.
pub open spec fn grown(seen: bool, before: Usage, seen_after: bool, after: Usage) -> bool {
    seen ==> seen_after && !after.regressed_from(before)
}

/// Whether a step of an OpenAI-compatible stream shows what it adds, lets no counter
/// fall and keeps the text within its limit.
pub open spec fn openai_advances(st: OpenAiState, s: OpenAiStep) -> bool {
    &&& s.state.text == st.text + shown(s.events)
    &&& grown(st.usage_seen, st.usage, s.state.usage_seen, s.state.usage)
    &&& text::utf8_len(st.text) <= openai_compatible::MAX_STREAM_TEXT_BYTES ==> text::utf8_len(
        s.state.text,
    ) <= openai_compatible::MAX_STREAM_TEXT_BYTES
}

proof fn lemma_openai_after(st: OpenAiState, first: OpenAiStep, second: OpenAiStep)
    requires
        openai_advances(st, first),
        openai_advances(first.state, second),
    ensures
        openai_advances(st, openai_compatible::after(first, second)),
{
    lemma_shown_concat(first.events, second.events);
    assert(st.text + (shown(first.events) + shown(second.events)) =~= st.text + shown(first.events)
        + shown(second.events));
}

proof fn lemma_openai_silent(st: OpenAiState, s: OpenAiStep)
    requires
        s.state.text == st.text,
        s.state.usage == st.usage,
        s.state.usage_seen == st.usage_seen,
        shown(s.events).len() == 0,
    ensures
        openai_advances(st, s),
{
    assert(st.text + shown(s.events) =~= st.text);
}

proof fn lemma_openai_tool(st: OpenAiState, calls: Seq<JsonView>, i: int)
    ensures
        openai_advances(st, openai_compatible::tool_deltas_step(st, calls, i)),
    decreases calls.len() - i,
{
    let s = openai_compatible::tool_deltas_step(st, calls, i);
    if i < 0 || i >= calls.len() {
        lemma_openai_silent(st, s);
    } else {
        let first = openai_compatible::tool_delta_step(st, calls[i]);
        lemma_partial_silent(st, calls[i]);
        lemma_openai_silent(st, first);
        lemma_openai_tool(first.state, calls, i + 1);
        lemma_openai_after(
            st,
            first,
            openai_compatible::tool_deltas_step(first.state, calls, i + 1),
        );
    }
}

proof fn lemma_partial_silent(st: OpenAiState, value: JsonView)
    ensures
        shown(openai_compatible::tool_delta_step(st, value).events).len() == 0,
        openai_compatible::tool_delta_step(st, value).state.text == st.text,
        openai_compatible::tool_delta_step(st, value).state.usage == st.usage,
        openai_compatible::tool_delta_step(st, value).state.usage_seen == st.usage_seen,
{
    match json::u64_member(value, "index"@) {
        Some(n) if n < openai_compatible::MAX_TOOL_CALLS => {
            let call = if st.tool_calls.contains_key(n as nat) {
                st.tool_calls[n as nat]
            } else {
                openai_compatible::PartialView::fresh()
            };
            let (id, identified) = match json::text_member(value, "id"@) {
                Some(id) => fields::merge_spec(
                    call.id,
                    id,
                    "streamed tool call id"@,
                    " changed during the response"@,
                ),
                None => (call.id, Ok(())),
            };
            let with_id = openai_compatible::PartialView { id, ..call };
            let filled = openai_compatible::partial_function_spec(with_id, value, n as nat);
            let told = openai_compatible::announce_spec(filled.call, n as nat);
            if filled.events.len() > 0 {
                assert(filled.events =~= seq![filled.events[0]]);
                lemma_shown_one(filled.events[0]);
            }
            if told.events.len() > 0 {
                assert(told.events =~= seq![told.events[0]]);
                lemma_shown_one(told.events[0]);
            }
            lemma_shown_concat(filled.events, told.events);
        },
        _ => {},
    }
}

proof fn lemma_openai_content(st: OpenAiState, delta: JsonView)
    ensures
        openai_advances(st, openai_compatible::content_step(st, delta)),
{
    let s = openai_compatible::content_step(st, delta);
    match json::text_member(delta, "content"@) {
        Some(t) => {
            text::lemma_encode_concat(st.text, t);
            if s.events.len() > 0 {
                lemma_shown_one(StreamEventView::TextDelta { text: t });
            }
            if t.len() == 0 {
                assert(st.text + t =~= st.text);
            }
            if s.result is Err {
                lemma_openai_silent(st, s);
            }
            assert(s.state.text =~= st.text + shown(s.events));
        },
        None => {
            lemma_openai_silent(st, s);
        },
    }
}

proof fn lemma_openai_chunk(st: OpenAiState, value: JsonView)
    ensures
        openai_advances(st, openai_compatible::chunk_step(st, value)),
{
    let first = openai_compatible::id_step(st, value);
    lemma_openai_silent(st, first);
    let second = openai_compatible::usage_step(first.state, value);
    if second.events.len() > 0 {
        assert(second.events =~= seq![second.events[0]]);
        lemma_shown_one(second.events[0]);
    }
    assert(first.state.text + shown(second.events) =~= first.state.text);
    let third = openai_compatible::choices_step(second.state, value);
    match json::array_member(value, "choices"@) {
        Some(choices) if choices.len() == 1 && fields::number_spec(choices[0], "index"@) == 0 => {
            let choice = choices[0];
            let reason = openai_compatible::reason_step(second.state, choice);
            lemma_openai_silent(second.state, reason);
            match json::member(choice, "delta"@) {
                Some(delta) => {
                    let content = openai_compatible::content_step(reason.state, delta);
                    lemma_openai_content(reason.state, delta);
                    match json::array_member(delta, "tool_calls"@) {
                        Some(calls) => {
                            lemma_openai_tool(content.state, calls, 0);
                            lemma_openai_after(
                                reason.state,
                                content,
                                openai_compatible::tool_deltas_step(content.state, calls, 0),
                            );
                        },
                        None => {
                            let q = openai_compatible::quiet(content.state);
                            lemma_openai_silent(content.state, q);
                            lemma_openai_after(reason.state, content, q);
                        },
                    }
                    lemma_openai_after(
                        second.state,
                        reason,
                        openai_compatible::delta_step(reason.state, delta),
                    );
                },
                None => {
                    let q = openai_compatible::quiet(reason.state);
                    lemma_openai_silent(reason.state, q);
                    lemma_openai_after(second.state, reason, q);
                },
            }
        },
        _ => {
            lemma_openai_silent(second.state, third);
        },
    }
    lemma_openai_after(first.state, second, third);
    lemma_openai_after(st, first, openai_compatible::after(second, third));
}

/// An OpenAI-compatible stream shows its observer exactly the text that it collects,
/// in order; its counters never fall; and its text stays within the limit. This holds
/// up to any failure, too.
pub proof fn law_openai_stream_shows_its_text(st: OpenAiState, events: Seq<SseEventView>, i: int)
    ensures
        openai_advances(st, openai_compatible::events_step(st, events, i)),
    decreases events.len() - i,
{
    let s = openai_compatible::events_step(st, events, i);
    if i < 0 || i >= events.len() {
        lemma_openai_silent(st, s);
    } else {
        let parsed = json::json_parse(events[i].data);
        let first = openai_compatible::event_step(
            st,
            events[i],
            parsed,
            openai_compatible::stream_error(events[i].data),
        );
        match parsed {
            Ok(value) => {
                lemma_openai_chunk(st, value);
            },
            Err(_) => {},
        }
        if first.events.len() == 0 && first.state.text == st.text && first.state.usage == st.usage
            && first.state.usage_seen == st.usage_seen {
            lemma_openai_silent(st, first);
        }
        law_openai_stream_shows_its_text(first.state, events, i + 1);
        lemma_openai_after(
            st,
            first,
            openai_compatible::events_step(first.state, events, i + 1),
        );
    }
}

/// Once an OpenAI-compatible stream has said that it is done, the next event fails
/// and changes nothing.
pub proof fn law_openai_stream_ends_once(
    st: OpenAiState,
    event: SseEventView,
    parsed: Result<JsonView, Seq<char>>,
    told: ModelFault,
)
    requires
        st.done,
    ensures
        openai_compatible::event_step(st, event, parsed, told).result is Err,
        openai_compatible::event_step(st, event, parsed, told).state == st,
        openai_compatible::event_step(st, event, parsed, told).events.len() == 0,
{
}

/// Whether every call can be executed: its arguments are an object.
pub open spec fn executable(calls: Seq<ToolCallView>) -> bool {
    forall|i: int| 0 <= i < calls.len() ==> (#[trigger] calls[i]).arguments is Object
}

proof fn lemma_openai_finish(
    calls: Map<nat, openai_compatible::PartialView>,
    k: nat,
    done: Seq<ToolCallView>,
)
    requires
        executable(done),
    ensures
        match openai_compatible::finish_calls_spec(calls, k, done) {
            Ok(all) => executable(all),
            Err(_) => true,
        },
    decreases openai_compatible::MAX_TOOL_CALLS - k,
{
    if k < openai_compatible::MAX_TOOL_CALLS && calls.contains_key(k) {
        match openai_compatible::finish_call_spec(
            calls[k],
            json::json_parse(calls[k].arguments),
        ) {
            Ok(call) => {
                lemma_openai_finish(calls, k + 1, done.push(call));
            },
            Err(_) => {},
        }
    }
}

/// A response is made of an OpenAI-compatible stream only after it said that it is
/// done and why it stopped, and every call of the response is complete.
pub proof fn law_openai_stream_responses_are_complete(
    st: OpenAiState,
    request_id: Option<Seq<char>>,
    first_byte_ms: u64,
)
    ensures
        match openai_compatible::finish_spec(st, request_id, first_byte_ms) {
            Ok(r) => st.done && st.finish_reason == Some(r.finish_reason) && r.text == st.text
                && r.usage == st.usage && executable(r.tool_calls),
            Err(_) => true,
        },
{
    lemma_openai_finish(st.tool_calls, 0, Seq::empty());
}

/// Whether a step of a Gemini stream shows what it adds, lets no counter fall, keeps
/// the text and the number of calls within their limits, and takes back no call.
pub open spec fn gemini_advances(st: GeminiState, s: GeminiStep) -> bool {
    &&& s.state.text == st.text + shown(s.events)
    &&& grown(st.usage_seen, st.usage, s.state.usage_seen, s.state.usage)
    &&& text::utf8_len(st.text) <= gemini::MAX_TEXT_BYTES ==> text::utf8_len(s.state.text)
        <= gemini::MAX_TEXT_BYTES
    &&& st.calls.len() <= s.state.calls.len()
    &&& s.state.calls.take(st.calls.len() as int) == st.calls
    &&& st.calls.len() <= gemini::MAX_TOOL_CALLS ==> s.state.calls.len() <= gemini::MAX_TOOL_CALLS
    &&& executable(st.calls) ==> executable(s.state.calls)
}

proof fn lemma_gemini_after(st: GeminiState, first: GeminiStep, second: GeminiStep)
    requires
        gemini_advances(st, first),
        gemini_advances(first.state, second),
    ensures
        gemini_advances(st, gemini::after(first, second)),
{
    lemma_shown_concat(first.events, second.events);
    assert(st.text + (shown(first.events) + shown(second.events)) =~= st.text + shown(first.events)
        + shown(second.events));
    assert(second.state.calls.take(st.calls.len() as int) =~= second.state.calls.take(
        first.state.calls.len() as int,
    ).take(st.calls.len() as int));
}

proof fn lemma_gemini_silent(st: GeminiState, s: GeminiStep)
    requires
        s.state.text == st.text,
        s.state.usage == st.usage,
        s.state.usage_seen == st.usage_seen,
        s.state.calls == st.calls,
        shown(s.events).len() == 0,
    ensures
        gemini_advances(st, s),
{
    assert(st.text + shown(s.events) =~= st.text);
    assert(st.calls.take(st.calls.len() as int) =~= st.calls);
}

proof fn lemma_gemini_parts(so_far: gemini::PartsView, parts: Seq<JsonView>, i: int)
    requires
        executable(so_far.calls),
    ensures
        match gemini::parts_spec(so_far, parts, i) {
            Ok(p) => executable(p.calls),
            Err(_) => true,
        },
    decreases parts.len() - i,
{
    if 0 <= i < parts.len() {
        match gemini::part_spec(so_far, parts[i]) {
            Ok(next) => {
                lemma_gemini_parts(next, parts, i + 1);
            },
            Err(_) => {},
        }
    }
}

proof fn lemma_gemini_calls(st: GeminiState, calls: Seq<ToolCallView>, i: int)
    requires
        executable(calls),
    ensures
        gemini_advances(st, gemini::calls_step(st, calls, i)),
    decreases calls.len() - i,
{
    let s = gemini::calls_step(st, calls, i);
    if i < 0 || i >= calls.len() {
        lemma_gemini_silent(st, s);
    } else {
        let first = gemini::call_step(
            st,
            calls[i],
            gemini::fingerprint_spec(calls[i]),
            text::utf8_len(json::json_text(calls[i].arguments)),
        );
        if first.events.len() > 0 {
            let a = seq![first.events[0]];
            let b = seq![first.events[1]];
            assert(first.events =~= a + b);
            lemma_shown_one(first.events[0]);
            lemma_shown_one(first.events[1]);
            lemma_shown_concat(a, b);
            assert(st.text + shown(first.events) =~= st.text);
            assert(st.calls.push(calls[i]).take(st.calls.len() as int) =~= st.calls);
        } else {
            lemma_gemini_silent(st, first);
        }
        lemma_gemini_calls(first.state, calls, i + 1);
        lemma_gemini_after(st, first, gemini::calls_step(first.state, calls, i + 1));
    }
}

proof fn lemma_gemini_candidate(st: GeminiState, candidate: JsonView)
    ensures
        gemini_advances(st, gemini::candidate_step(st, candidate)),
{
    let s = gemini::candidate_step(st, candidate);
    match gemini::candidate_parts_spec(candidate) {
        Err(_) => {
            lemma_gemini_silent(st, s);
        },
        Ok(parts) => {
            lemma_gemini_parts(
                gemini::PartsView { text: Seq::empty(), calls: Seq::empty() },
                gemini::parts_of(candidate),
                0,
            );
            let first = gemini::text_step(st, parts.text);
            text::lemma_encode_concat(st.text, parts.text);
            if first.events.len() > 0 {
                lemma_shown_one(StreamEventView::TextDelta { text: parts.text });
            }
            if first.result is Err || parts.text.len() == 0 {
                assert(st.text + parts.text =~= st.text || first.result is Err);
                lemma_gemini_silent(st, first);
            } else {
                assert(st.calls.take(st.calls.len() as int) =~= st.calls);
            }
            let second = gemini::calls_step(first.state, parts.calls, 0);
            lemma_gemini_calls(first.state, parts.calls, 0);
            let third = gemini::reason_step(second.state, candidate);
            lemma_gemini_silent(second.state, third);
            lemma_gemini_after(first.state, second, third);
            lemma_gemini_after(st, first, gemini::after(second, third));
        },
    }
}

proof fn lemma_gemini_chunk(st: GeminiState, value: JsonView)
    ensures
        gemini_advances(st, gemini::chunk_step(st, value)),
{
    let s = gemini::chunk_step(st, value);
    match gemini::block_reason(value) {
        Some(_) => {
            lemma_gemini_silent(st, s);
        },
        None => {
            let first = gemini::id_step(st, value);
            lemma_gemini_silent(st, first);
            let second = gemini::version_step(first.state, value);
            lemma_gemini_silent(first.state, second);
            let third = gemini::usage_step(second.state, value);
            if third.events.len() > 0 {
                assert(third.events =~= seq![third.events[0]]);
                lemma_shown_one(third.events[0]);
            }
            assert(second.state.text + shown(third.events) =~= second.state.text);
            assert(st.calls.take(st.calls.len() as int) =~= st.calls);
            let fourth = match gemini::candidate_spec(value) {
                Err(e) => GeminiStep { state: third.state, events: Seq::empty(), result: Err(e) },
                Ok(None) => gemini::quiet(third.state),
                Ok(Some(candidate)) => gemini::candidate_step(third.state, candidate),
            };
            match gemini::candidate_spec(value) {
                Ok(Some(candidate)) => {
                    lemma_gemini_candidate(third.state, candidate);
                },
                _ => {
                    lemma_gemini_silent(third.state, fourth);
                },
            }
            lemma_gemini_after(second.state, third, fourth);
            lemma_gemini_after(first.state, second, gemini::after(third, fourth));
            lemma_gemini_after(
                st,
                first,
                gemini::after(second, gemini::after(third, fourth)),
            );
        },
    }
}

/// A Gemini stream shows its observer exactly the text that it collects, in order;
/// its counters never fall; its text and the number of its calls stay within their
/// limits; and a call, once taken, stays. This holds up to any failure, too.
pub proof fn law_gemini_stream_shows_its_text(st: GeminiState, events: Seq<SseEventView>, i: int)
    ensures
        gemini_advances(st, gemini::events_step(st, events, i)),
    decreases events.len() - i,
{
    let s = gemini::events_step(st, events, i);
    if i < 0 || i >= events.len() {
        lemma_gemini_silent(st, s);
    } else {
        let parsed = json::json_parse(events[i].data);
        let first = gemini::event_step(
            st,
            events[i],
            parsed,
            openai_compatible::stream_error(events[i].data),
        );
        match parsed {
            Ok(value) => {
                lemma_gemini_chunk(st, value);
            },
            Err(_) => {},
        }
        if first.events.len() == 0 && first.state == st {
            lemma_gemini_silent(st, first);
        }
        law_gemini_stream_shows_its_text(first.state, events, i + 1);
        lemma_gemini_after(st, first, gemini::events_step(first.state, events, i + 1));
    }
}

/// A response is made of a Gemini stream only after it said why it stopped, and every
/// call of the response is complete.
pub proof fn law_gemini_stream_responses_are_complete(
    events: Seq<SseEventView>,
    request_id: Option<Seq<char>>,
    first_byte_ms: u64,
)
    ensures
        ({
            let st = gemini::events_step(GeminiState::fresh(), events, 0).state;
            match gemini::finish_spec(st, request_id, first_byte_ms) {
                Ok(r) => st.finish_reason == Some(r.finish_reason) && r.text == st.text && r.usage
                    == st.usage && executable(r.tool_calls),
                Err(_) => true,
            }
        }),
{
    law_gemini_stream_shows_its_text(GeminiState::fresh(), events, 0);
}

/// Whether a step of an Anthropic stream shows what it adds, lets no counter fall,
/// keeps the text and the blocks' numbers within their limits, and forgets no block.
pub open spec fn anthropic_advances(st: AnthropicState, s: AnthropicStep) -> bool {
    &&& s.state.text == st.text + shown(s.events)
    &&& grown(st.usage_seen, st.usage, s.state.usage_seen, s.state.usage)
    &&& text::utf8_len(st.text) <= anthropic::MAX_TEXT_BYTES ==> text::utf8_len(s.state.text)
        <= anthropic::MAX_TEXT_BYTES
    &&& forall|k: nat|
        #![trigger s.state.blocks.contains_key(k)]
        #![trigger st.blocks.contains_key(k)]
        st.blocks.contains_key(k) ==> s.state.blocks.contains_key(k)
    &&& forall|k: nat|
        #![trigger s.state.blocks.contains_key(k)]
        s.state.blocks.contains_key(k) ==> st.blocks.contains_key(k) || k
            < anthropic::MAX_CONTENT_BLOCKS
    &&& st.done ==> s.state.done
    &&& st.message_started ==> s.state.message_started
}

proof fn lemma_anthropic_after(st: AnthropicState, first: AnthropicStep, second: AnthropicStep)
    requires
        anthropic_advances(st, first),
        anthropic_advances(first.state, second),
    ensures
        anthropic_advances(st, anthropic::after(first, second)),
{
    lemma_shown_concat(first.events, second.events);
    assert(st.text + (shown(first.events) + shown(second.events)) =~= st.text + shown(first.events)
        + shown(second.events));
}

proof fn lemma_anthropic_text(st: AnthropicState, delta: Seq<char>)
    ensures
        anthropic_advances(st, anthropic::text_step(st, delta)),
{
    let s = anthropic::text_step(st, delta);
    text::lemma_encode_concat(st.text, delta);
    if s.events.len() > 0 {
        lemma_shown_one(StreamEventView::TextDelta { text: delta });
    }
    if delta.len() == 0 {
        assert(st.text + delta =~= st.text);
    }
    assert(s.state.text =~= st.text + shown(s.events));
}

/// A step that touches neither text, counters nor blocks and shows no text.
proof fn lemma_anthropic_still(st: AnthropicState, s: AnthropicStep)
    requires
        s.state.text == st.text,
        s.state.usage == st.usage,
        s.state.usage_seen == st.usage_seen,
        s.state.blocks == st.blocks,
        st.done ==> s.state.done,
        st.message_started ==> s.state.message_started,
        shown(s.events).len() == 0,
    ensures
        anthropic_advances(st, s),
{
    assert(st.text + shown(s.events) =~= st.text);
}

/// A step that files one block and shows no text.
proof fn lemma_anthropic_block(st: AnthropicState, index: nat, block: BlockView, s: AnthropicStep)
    requires
        s.state == anthropic::with_block(st, index, block),
        st.blocks.contains_key(index) || index < anthropic::MAX_CONTENT_BLOCKS,
        shown(s.events).len() == 0,
    ensures
        anthropic_advances(st, s),
{
    assert(st.text + shown(s.events) =~= st.text);
}

proof fn lemma_anthropic_usage(st: AnthropicState, next: Usage)
    ensures
        anthropic_advances(st, anthropic::usage_step(st, next)),
{
    let s = anthropic::usage_step(st, next);
    lemma_shown_one(StreamEventView::UsageUpdate { usage: next });
    assert(st.text + shown(s.events) =~= st.text);
}

proof fn lemma_anthropic_start(st: AnthropicState, value: JsonView)
    ensures
        anthropic_advances(st, anthropic::start_message_step(st, value)),
{
    let s = anthropic::start_message_step(st, value);
    let begun = AnthropicState { message_started: true, ..st };
    match json::member(value, "message"@) {
        Some(message) => {
            match json::member(message, "usage"@) {
                Some(usage) => {
                    lemma_anthropic_usage(begun, anthropic::usage_spec(usage));
                    lemma_shown_one(
                        StreamEventView::UsageUpdate { usage: anthropic::usage_spec(usage) },
                    );
                },
                None => {},
            }
        },
        None => {},
    }
    assert(st.text + shown(s.events) =~= st.text);
}

proof fn lemma_anthropic_start_block(st: AnthropicState, value: JsonView)
    ensures
        anthropic_advances(st, anthropic::start_block_step(st, value)),
{
    let s = anthropic::start_block_step(st, value);
    match (anthropic::index_spec(value), json::member(value, "content_block"@)) {
        (Ok(index), Some(block)) => {
            if s.result is Err {
                let first = anthropic::text_step(st, anthropic::block_text(block));
                lemma_anthropic_text(st, anthropic::block_text(block));
                lemma_anthropic_still(st, s);
            } else if json::text_member(block, "type"@) == Some("text"@) {
                let first = anthropic::text_step(st, anthropic::block_text(block));
                let filed = BlockView::Text { stopped: false };
                let second = anthropic::quiet(anthropic::with_block(first.state, index, filed));
                lemma_anthropic_text(st, anthropic::block_text(block));
                lemma_anthropic_block(first.state, index, filed, second);
                lemma_anthropic_after(st, first, second);
            } else {
                if s.events.len() > 0 {
                    assert(s.events =~= seq![s.events[0]]);
                    lemma_shown_one(s.events[0]);
                }
                lemma_anthropic_block(st, index, s.state.blocks[index], s);
            }
        },
        _ => {
            lemma_anthropic_still(st, s);
        },
    }
}

proof fn lemma_anthropic_delta(st: AnthropicState, value: JsonView)
    ensures
        anthropic_advances(st, anthropic::delta_step(st, value)),
{
    let s = anthropic::delta_step(st, value);
    match (anthropic::index_spec(value), json::member(value, "delta"@)) {
        (Ok(index), Some(delta)) if st.blocks.contains_key(index) => {
            let block = st.blocks[index];
            if block is Text && json::text_member(delta, "text"@) is Some {
                lemma_anthropic_text(st, json::text_member(delta, "text"@)->0);
                if s.events.len() == 0 && s.state == st {
                    lemma_anthropic_still(st, s);
                }
            } else if block is Tool {
                if s.events.len() > 0 {
                    assert(s.events =~= seq![s.events[0]]);
                    lemma_shown_one(s.events[0]);
                    lemma_anthropic_block(st, index, s.state.blocks[index], s);
                } else {
                    lemma_anthropic_still(st, s);
                }
            } else {
                lemma_anthropic_still(st, s);
            }
        },
        _ => {
            lemma_anthropic_still(st, s);
        },
    }
}

proof fn lemma_anthropic_message_delta(st: AnthropicState, value: JsonView)
    ensures
        anthropic_advances(st, anthropic::message_delta_step(st, value)),
{
    let s = anthropic::message_delta_step(st, value);
    if !st.active() {
        lemma_anthropic_still(st, s);
    } else {
        let first = anthropic::reason_step(st, value);
        lemma_anthropic_still(st, first);
        let second = anthropic::output_step(first.state, value);
        match json::member(value, "usage"@) {
            Some(usage) => {
                lemma_anthropic_usage(
                    first.state,
                    Usage {
                        output_tokens: fields::number_spec(usage, "output_tokens"@),
                        ..first.state.usage
                    },
                );
            },
            None => {
                lemma_anthropic_still(first.state, second);
            },
        }
        lemma_anthropic_after(st, first, second);
    }
}

proof fn lemma_anthropic_event(
    st: AnthropicState,
    name: Option<Seq<char>>,
    parsed: Result<JsonView, Seq<char>>,
)
    ensures
        anthropic_advances(st, anthropic::event_step(st, name, parsed)),
{
    let s = anthropic::event_step(st, name, parsed);
    match parsed {
        Ok(value) => {
            lemma_anthropic_start(st, value);
            lemma_anthropic_start_block(st, value);
            lemma_anthropic_delta(st, value);
            lemma_anthropic_message_delta(st, value);
            let stop = anthropic::stop_step(st, value);
            match anthropic::index_spec(value) {
                Ok(index) if stop.result is Ok => {
                    lemma_anthropic_block(st, index, st.blocks[index].ended(), stop);
                },
                _ => {
                    lemma_anthropic_still(st, stop);
                },
            }
        },
        Err(_) => {},
    }
    if s.events.len() == 0 && s.state.text == st.text && s.state.usage == st.usage
        && s.state.usage_seen == st.usage_seen && s.state.blocks == st.blocks
        && s.state.message_started == st.message_started && (st.done ==> s.state.done) {
        lemma_anthropic_still(st, s);
    }
}

/// An Anthropic stream shows its observer exactly the text that it collects, in
/// order; its counters never fall; its text and its blocks' numbers stay within their
/// limits; and it forgets neither a block nor that it has begun or ended. This holds
/// up to any failure, too.
pub proof fn law_anthropic_stream_shows_its_text(
    st: AnthropicState,
    events: Seq<SseEventView>,
    i: int,
)
    ensures
        anthropic_advances(st, anthropic::events_step(st, events, i)),
    decreases events.len() - i,
{
    assert(st.text + Seq::<char>::empty() =~= st.text);
    if 0 <= i < events.len() {
        let first = anthropic::event_step(st, events[i].event, json::json_parse(events[i].data));
        lemma_anthropic_event(st, events[i].event, json::json_parse(events[i].data));
        law_anthropic_stream_shows_its_text(first.state, events, i + 1);
        lemma_anthropic_after(st, first, anthropic::events_step(first.state, events, i + 1));
    }
}

proof fn lemma_anthropic_finish(
    blocks: Map<nat, BlockView>,
    k: nat,
    done: Seq<ToolCallView>,
)
    requires
        executable(done),
    ensures
        match anthropic::finish_blocks_spec(blocks, k, done) {
            Ok(all) => executable(all) && forall|j: nat|
                k <= j && #[trigger] blocks.contains_key(j) ==> blocks[j].has_stopped(),
            Err(_) => true,
        },
    decreases anthropic::MAX_CONTENT_BLOCKS - k,
{
    if k < anthropic::MAX_CONTENT_BLOCKS && blocks.contains_key(k) {
        match anthropic::finish_block_spec(
            blocks[k],
            json::json_parse(anthropic::collected(blocks[k])),
        ) {
            Ok(Some(call)) => {
                lemma_anthropic_finish(blocks, k + 1, done.push(call));
            },
            Ok(None) => {
                lemma_anthropic_finish(blocks, k + 1, done);
            },
            Err(_) => {},
        }
    }
}

/// A response is made of an Anthropic stream only after its message ended and said
/// why it stopped, every block of it ended, and every call of the response is
/// complete.
pub proof fn law_anthropic_stream_responses_are_complete(
    st: AnthropicState,
    request_id: Option<Seq<char>>,
    first_byte_ms: u64,
)
    ensures
        match anthropic::finish_spec(st, request_id, first_byte_ms) {
            Ok(r) => st.done && st.finish_reason == Some(r.finish_reason) && r.text == st.text
                && r.usage == st.usage && executable(r.tool_calls) && forall|j: nat| #[trigger]
                st.blocks.contains_key(j) ==> st.blocks[j].has_stopped(),
            Err(_) => true,
        },
{
    lemma_anthropic_finish(st.blocks, 0, Seq::empty());
}

proof fn lemma_other_messages(conversation: Seq<ItemView>)
    ensures
        match openai_compatible::other_messages(conversation) {
            Ok(m) => forall|i: int|
                0 <= i < m.len() ==> !openai_compatible::is_system_message(#[trigger] m[i]),
            Err(_) => true,
        },
    decreases conversation.len(),
{
    if conversation.len() > 0 {
        lemma_other_messages(conversation.drop_last());
        reveal_strlit("system");
        reveal_strlit("user");
        reveal_strlit("assistant");
        reveal_strlit("tool");
        reveal_strlit("role");
        reveal_strlit("content");
        reveal_strlit("tool_calls");
        reveal_strlit("tool_call_id");
        reveal_strlit("name");
        assert("system"@.len() != "user"@.len());
        assert("system"@.len() != "assistant"@.len());
        assert("system"@.len() != "tool"@.len());
        assert("role"@.len() != "content"@.len());
        assert("role"@.len() != "tool_calls"@.len());
        assert("role"@.len() != "tool_call_id"@.len());
        assert("role"@[0] != "name"@[0]);
    }
}

/// On an OpenAI-compatible wire a conversation has at most one system message, and
/// that one leads.
pub proof fn law_one_leading_system_message(conversation: Seq<ItemView>)
    ensures
        match openai_compatible::canonical_spec(conversation) {
            Ok(m) => forall|i: int|
                1 <= i < m.len() ==> !openai_compatible::is_system_message(#[trigger] m[i]),
            Err(_) => true,
        },
{
    lemma_other_messages(conversation);
    match openai_compatible::canonical_spec(conversation) {
        Ok(m) => {
            match openai_compatible::other_messages(conversation) {
                Ok(others) => {
                    assert forall|i: int|
                        1 <= i < m.len() implies !openai_compatible::is_system_message(
                        #[trigger] m[i],
                    ) by {
                        if m.len() == others.len() {
                            assert(m[i] == others[i]);
                        } else {
                            assert(m[i] == others[i - 1]);
                        }
                    }
                },
                Err(_) => {},
            }
        },
        Err(_) => {},
    }
}

} // verus!
