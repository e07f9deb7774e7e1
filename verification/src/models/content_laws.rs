//! Laws of whole replies: the text and the calls that are read from a reply are those that
//! it holds, in its order.

use crate::json;
use crate::json::JsonView;
use crate::models::anthropic;
use crate::models::gemini;
use crate::models::openai_compatible;
use crate::models::openai_responses;
use crate::models::types;
use crate::models::types::{FinishReason, ToolCallView};
use crate::models::wire_laws;
use crate::models::attachments::ImageWire;
use vstd::prelude::*;

verus! {

/// The blocks of one kind, in order.
pub open spec fn of_kind(blocks: Seq<JsonView>, kind: Seq<char>) -> Seq<JsonView>
    decreases blocks.len(),
{
    if blocks.len() == 0 {
        Seq::empty()
    } else if wire_laws::has_text(blocks.last(), "type"@, kind) {
        of_kind(blocks.drop_last(), kind).push(blocks.last())
    } else {
        of_kind(blocks.drop_last(), kind)
    }
}

/// The texts of blocks, one behind the other; a block without one has an empty one.
pub open spec fn texts(blocks: Seq<JsonView>) -> Seq<char>
    decreases blocks.len(),
{
    if blocks.len() == 0 {
        Seq::empty()
    } else {
        texts(blocks.drop_last()) + (match json::text_member(blocks.last(), "text"@) {
            Some(t) => t,
            None => Seq::empty(),
        })
    }
}

proof fn lemma_kinds()
    ensures
        "text"@ != "tool_use"@,
        "message"@ != "function_call"@,
        "message"@ != "reasoning"@,
        "function_call"@ != "reasoning"@,
        "thinking"@ != "tool_use"@,
        "thinking"@ != "text"@,
        "redacted_thinking"@ != "tool_use"@,
        "redacted_thinking"@ != "text"@,
        "output_text"@ != "refusal"@,
{
    reveal_strlit("text");
    reveal_strlit("tool_use");
    reveal_strlit("message");
    reveal_strlit("function_call");
    reveal_strlit("reasoning");
    reveal_strlit("thinking");
    reveal_strlit("redacted_thinking");
    reveal_strlit("output_text");
    reveal_strlit("refusal");
    assert("text"@.len() == 4 && "tool_use"@.len() == 8 && "message"@.len() == 7
        && "function_call"@.len() == 13 && "reasoning"@.len() == 9 && "thinking"@.len() == 8
        && "redacted_thinking"@.len() == 17 && "output_text"@.len() == 11 && "refusal"@.len() == 7);
    assert("thinking"@[1] != "tool_use"@[1]);
}

/// Whether what was read are the texts and the calls of blocks on Anthropic's wire.
spec fn read_of(c: anthropic::ContentView, blocks: Seq<JsonView>) -> bool {
    &&& c.text == texts(of_kind(blocks, "text"@))
    &&& c.calls.len() == of_kind(blocks, "tool_use"@).len()
    &&& forall|k: int|
        0 <= k < c.calls.len() ==> wire_laws::tells_call(
            ImageWire::Messages,
            of_kind(blocks, "tool_use"@)[k],
            #[trigger] c.calls[k],
        )
}

proof fn lemma_anthropic_blocks(so_far: anthropic::ContentView, blocks: Seq<JsonView>, i: int)
    requires
        0 <= i <= blocks.len(),
        read_of(so_far, blocks.take(i)),
    ensures
        match anthropic::blocks_spec(so_far, blocks, i) {
            Ok(c) => read_of(c, blocks),
            Err(_) => true,
        },
    decreases blocks.len() - i,
{
    if i < blocks.len() {
        lemma_kinds();
        let before = blocks.take(i);
        let more = blocks.take(i + 1);
        assert(more.drop_last() =~= before);
        assert(more.last() == blocks[i]);
        match anthropic::block_spec(so_far, blocks[i]) {
            Ok(next) => {
                let texts_before = of_kind(before, "text"@);
                let calls_before = of_kind(before, "tool_use"@);
                assert(texts_before.push(blocks[i]).drop_last() =~= texts_before);
                assert(read_of(next, more));
                lemma_anthropic_blocks(next, blocks, i + 1);
            },
            Err(_) => {},
        }
    } else {
        assert(blocks.take(i) =~= blocks);
    }
}

/// A reply of Anthropic is read whole: its text is the texts of its text blocks, and its
/// calls are those of its tool-use blocks, each with the id, the name and the input that
/// the block holds, in order.
pub proof fn law_anthropic_replies_are_read_whole(value: JsonView, request_id: Option<Seq<char>>)
    ensures
        match anthropic::response_spec(value, request_id) {
            Ok(r) => {
                &&& json::array_member(value, "content"@) matches Some(blocks)
                &&& r.text == texts(of_kind(blocks, "text"@))
                &&& r.tool_calls.len() == of_kind(blocks, "tool_use"@).len()
                &&& forall|k: int|
                    0 <= k < r.tool_calls.len() ==> wire_laws::tells_call(
                        ImageWire::Messages,
                        of_kind(blocks, "tool_use"@)[k],
                        #[trigger] r.tool_calls[k],
                    )
                &&& r.provider_request_id == request_id
                &&& r.finish_reason == FinishReason::ToolCalls ==> r.tool_calls.len() > 0
            },
            Err(_) => true,
        },
{
    match json::array_member(value, "content"@) {
        Some(blocks) => {
            let none = anthropic::ContentView { text: Seq::empty(), calls: Seq::empty() };
            assert(blocks.take(0) =~= Seq::empty());
            assert(read_of(none, blocks.take(0)));
            lemma_anthropic_blocks(none, blocks, 0);
        },
        None => {},
    }
}

/// Whether a call is what an item of a reply on an OpenAI-compatible wire says.
pub open spec fn is_call_of(call: ToolCallView, item: JsonView) -> bool {
    &&& wire_laws::has_text(item, "id"@, call.id)
    &&& json::member(item, "function"@) matches Some(function)
    &&& wire_laws::has_text(function, "name"@, call.name)
    &&& json::text_member(function, "arguments"@) matches Some(arguments)
    &&& json::json_parse(arguments) == Ok::<JsonView, Seq<char>>(call.arguments)
}

proof fn lemma_chat_calls(items: Seq<JsonView>)
    ensures
        match openai_compatible::tool_calls_spec(items) {
            Ok(calls) => {
                &&& calls.len() == items.len()
                &&& forall|k: int|
                    0 <= k < calls.len() ==> is_call_of(#[trigger] calls[k], items[k])
            },
            Err(_) => true,
        },
    decreases items.len(),
{
    if items.len() > 0 {
        lemma_chat_calls(items.drop_last());
    }
}

/// A reply on an OpenAI-compatible wire is read whole: the text of its first choice, and
/// its calls, each with the id, the name and the arguments that the reply gives it.
pub proof fn law_chat_replies_are_read_whole(value: JsonView, request_id: Option<Seq<char>>)
    ensures
        match openai_compatible::response_spec(value, request_id) {
            Ok(r) => {
                &&& json::array_member(value, "choices"@) matches Some(choices)
                &&& choices.len() > 0
                &&& json::member(choices[0], "message"@) matches Some(message)
                &&& match json::text_member(message, "content"@) {
                    Some(t) => r.text == t,
                    None => r.text.len() == 0,
                }
                &&& match json::array_member(message, "tool_calls"@) {
                    Some(items) => {
                        &&& r.tool_calls.len() == items.len()
                        &&& forall|k: int|
                            0 <= k < items.len() ==> is_call_of(
                                #[trigger] r.tool_calls[k],
                                items[k],
                            )
                    },
                    None => r.tool_calls.len() == 0,
                }
                &&& r.provider_request_id == request_id
            },
            Err(_) => true,
        },
{
    match json::array_member(value, "choices"@) {
        Some(choices) => {
            if choices.len() > 0 {
                match json::member(choices[0], "message"@) {
                    Some(message) => {
                        match json::array_member(message, "tool_calls"@) {
                            Some(items) => {
                                lemma_chat_calls(items);
                            },
                            None => {},
                        }
                    },
                    None => {},
                }
            }
        },
        None => {},
    }
}

/// Whether a call is what an output item of a Responses reply says.
pub open spec fn is_call_in_output(call: ToolCallView, item: JsonView) -> bool {
    &&& wire_laws::has_text(item, "call_id"@, call.id)
    &&& wire_laws::has_text(item, "name"@, call.name)
    &&& json::text_member(item, "arguments"@) matches Some(arguments)
    &&& json::json_parse(arguments) == Ok::<JsonView, Seq<char>>(call.arguments)
}

/// The text of the messages among output items.
pub open spec fn messages_text(items: Seq<JsonView>) -> Seq<char>
    decreases items.len(),
{
    if items.len() == 0 {
        Seq::empty()
    } else {
        messages_text(items.drop_last()) + (if wire_laws::has_text(
            items.last(),
            "type"@,
            "message"@,
        ) {
            match json::array_member(items.last(), "content"@) {
                Some(parts) => texts(of_kind(parts, "output_text"@)),
                None => Seq::empty(),
            }
        } else {
            Seq::empty()
        })
    }
}

proof fn lemma_responses_parts(out: openai_responses::OutputView, parts: Seq<JsonView>, i: int, t: Seq<char>)
    requires
        0 <= i <= parts.len(),
        out.text == t + texts(of_kind(parts.take(i), "output_text"@)),
    ensures
        match openai_responses::parts_spec(out, parts, i) {
            Ok(r) => {
                &&& r.text == t + texts(of_kind(parts, "output_text"@))
                &&& r.calls == out.calls
            },
            Err(_) => true,
        },
    decreases parts.len() - i,
{
    if i < parts.len() {
        lemma_kinds();
        let before = parts.take(i);
        let more = parts.take(i + 1);
        assert(more.drop_last() =~= before);
        match openai_responses::part_spec(out, parts[i]) {
            Ok(next) => {
                let picked = of_kind(before, "output_text"@);
                assert(picked.push(parts[i]).drop_last() =~= picked);
                assert(next.text =~= t + texts(of_kind(more, "output_text"@)));
                lemma_responses_parts(next, parts, i + 1, t);
            },
            Err(_) => {},
        }
    } else {
        assert(parts.take(i) =~= parts);
    }
}

spec fn output_of(out: openai_responses::OutputView, items: Seq<JsonView>) -> bool {
    &&& out.text == messages_text(items)
    &&& out.calls.len() == of_kind(items, "function_call"@).len()
    &&& forall|k: int|
        0 <= k < out.calls.len() ==> is_call_in_output(
            #[trigger] out.calls[k],
            of_kind(items, "function_call"@)[k],
        )
}

proof fn lemma_responses_items(out: openai_responses::OutputView, items: Seq<JsonView>, i: int)
    requires
        0 <= i <= items.len(),
        output_of(out, items.take(i)),
    ensures
        match openai_responses::items_spec(out, items, i) {
            Ok(r) => output_of(r, items),
            Err(_) => true,
        },
    decreases items.len() - i,
{
    if i < items.len() {
        lemma_kinds();
        let before = items.take(i);
        let more = items.take(i + 1);
        assert(more.drop_last() =~= before);
        assert(more.last() == items[i]);
        match openai_responses::item_spec(out, items[i]) {
            Ok(next) => {
                if wire_laws::has_text(items[i], "type"@, "message"@) {
                    match json::array_member(items[i], "content"@) {
                        Some(parts) => {
                            assert(parts.take(0) =~= Seq::empty());
                            assert(out.text =~= out.text + texts(
                                of_kind(parts.take(0), "output_text"@),
                            ));
                            lemma_responses_parts(out, parts, 0, out.text);
                        },
                        None => {},
                    }
                } else {
                    assert(messages_text(more) =~= messages_text(before));
                }
                assert(output_of(next, more));
                lemma_responses_items(next, items, i + 1);
            },
            Err(_) => {},
        }
    } else {
        assert(items.take(i) =~= items);
    }
}

/// A Responses reply is read whole: its text is that of its messages, and its calls are
/// those of its function-call items, each with the id, the name and the arguments that the
/// item gives it, in order. The first call carries all output items as they came.
pub proof fn law_responses_replies_are_read_whole(value: JsonView, request_id: Option<Seq<char>>)
    ensures
        match openai_responses::response_spec(value, request_id) {
            Ok(r) => {
                &&& json::array_member(value, "output"@) matches Some(items)
                &&& r.text == messages_text(items)
                &&& r.tool_calls.len() == of_kind(items, "function_call"@).len()
                &&& forall|k: int|
                    0 <= k < r.tool_calls.len() ==> is_call_in_output(
                        #[trigger] r.tool_calls[k],
                        of_kind(items, "function_call"@)[k],
                    )
                &&& r.tool_calls.len() > 0 ==> wire_laws::recorded(r.tool_calls) == Some(
                    JsonView::Array(items),
                )
                &&& r.provider_request_id == request_id
            },
            Err(_) => true,
        },
{
    match json::array_member(value, "output"@) {
        Some(items) => {
            assert(items.take(0) =~= Seq::empty());
            lemma_responses_items(openai_responses::no_output(), items, 0);
        },
        None => {},
    }
}

/// What is kept of a reply are its members under the given keys, as they are, and no
/// others.
pub proof fn law_kept_members_are_those_of_the_reply(
    value: JsonView,
    keys: Seq<Seq<char>>,
    k: Seq<char>,
)
    ensures
        ({
            let kept = openai_compatible::kept_members(value, keys);
            &&& kept.contains_key(k) <==> keys.contains(k) && json::member(value, k) is Some
            &&& kept.contains_key(k) ==> json::member(value, k) == Some(kept[k])
        }),
    decreases keys.len(),
{
    if keys.len() > 0 {
        let before = keys.drop_last();
        law_kept_members_are_those_of_the_reply(value, before, k);
        if before.contains(k) {
            let i = choose|i: int| 0 <= i < before.len() && before[i] == k;
            assert(keys[i] == k);
        }
        if keys.contains(k) && keys.last() != k {
            let i = choose|i: int| 0 <= i < keys.len() && keys[i] == k;
            assert(before[i] == k);
        }
        assert(keys[keys.len() - 1] == keys.last());
    }
}

/// Counters are added, and stay at the largest number where the sum is larger.
pub proof fn law_counters_are_added(a: u64, b: u64)
    ensures
        a + b <= u64::MAX ==> types::capped_sum(a, b) == a + b,
        a + b > u64::MAX ==> types::capped_sum(a, b) == u64::MAX,
{
}

} // verus!
