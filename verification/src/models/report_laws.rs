//! Laws of reports: what a probe observed, and which events tell a whole response.

use crate::json;
use crate::json::JsonView;
use crate::models::driver;
use crate::models::probe;
use crate::models::probe::ProbeObservation;
use crate::models::types::{FinishReason, ResponseView, StreamEventView, ToolCallView};
use vstd::prelude::*;

verus! {

/// Whether a call brings a marker back to the probe.
pub open spec fn brings(call: ToolCallView, marker: Seq<char>) -> bool {
    call.name == "pactrail_capability_probe"@ && json::text_member(call.arguments, "nonce"@) == Some(
        marker,
    )
}

/// Whether the calls of the probe's tool all have ids of their own.
pub open spec fn ids_differ(calls: Seq<ToolCallView>) -> bool {
    forall|i: int, j: int|
        0 <= i < j < calls.len() ==> (#[trigger] calls[i]).id != (#[trigger] calls[j]).id
}

proof fn lemma_brings(calls: Seq<ToolCallView>, marker: Seq<char>)
    requires
        ids_differ(calls),
    ensures
        probe::came_back(calls, marker) <==> exists|i: int|
            0 <= i < calls.len() && brings(#[trigger] calls[i], marker),
{
    if exists|i: int| 0 <= i < calls.len() && brings(#[trigger] calls[i], marker) {
        let i = choose|i: int| 0 <= i < calls.len() && brings(#[trigger] calls[i], marker);
        assert(probe::carries(calls, i, marker));
    }
    if probe::came_back(calls, marker) {
        let i = choose|i: int| 0 <= i < calls.len() && #[trigger] probe::carries(calls, i, marker);
        assert(brings(calls[i], marker));
    }
}

/// A probe reports what it observed: tools if a call brought one of the two markers back,
/// parallel tools if both came back, streaming if a stream began and said so, and caching
/// if tokens were cached.
pub proof fn law_probes_report_what_they_observe(
    adapter: Seq<char>,
    model: Seq<char>,
    stream_started: bool,
    response: ResponseView,
)
    requires
        ids_differ(response.tool_calls),
    ensures
        match probe::report_spec(adapter, model, stream_started, response) {
            Ok(r) => {
                let first = exists|i: int|
                    0 <= i < response.tool_calls.len() && brings(
                        #[trigger] response.tool_calls[i],
                        "alpha"@,
                    );
                let second = exists|i: int|
                    0 <= i < response.tool_calls.len() && brings(
                        #[trigger] response.tool_calls[i],
                        "beta"@,
                    );
                &&& r.adapter == adapter
                &&& r.model == model
                &&& r.finish_reason == response.finish_reason
                &&& r.usage == response.usage
                &&& r.native_tools == ProbeObservation::Observed <==> first || second
                &&& r.parallel_tools == ProbeObservation::Observed <==> first && second
                &&& r.streaming == ProbeObservation::Observed <==> stream_started
                    && response.extensions.contains_key("streaming"@)
                    && response.extensions["streaming"@] == JsonView::Bool(true)
                &&& r.prompt_cache == ProbeObservation::Observed
                    <==> response.usage.cached_input_tokens > 0
            },
            Err(_) => response.finish_reason == FinishReason::ContentFilter,
        },
{
    lemma_brings(response.tool_calls, "alpha"@);
    lemma_brings(response.tool_calls, "beta"@);
}

proof fn lemma_announced(calls: Seq<ToolCallView>, i: int)
    requires
        0 <= i <= calls.len(),
    ensures
        ({
            let events = driver::announced(calls, i);
            &&& events.len() == calls.len() - i
            &&& forall|k: int|
                0 <= k < events.len() ==> #[trigger] events[k] == (
                StreamEventView::ToolCallStarted {
                    index: (i + k) as nat,
                    id: calls[i + k].id,
                    name: calls[i + k].name,
                })
        }),
    decreases calls.len() - i,
{
    if i < calls.len() {
        lemma_announced(calls, i + 1);
        let rest = driver::announced(calls, i + 1);
        let events = driver::announced(calls, i);
        assert forall|k: int| 0 <= k < events.len() implies #[trigger] events[k] == (
        StreamEventView::ToolCallStarted {
            index: (i + k) as nat,
            id: calls[i + k].id,
            name: calls[i + k].name,
        }) by {
            if k > 0 {
                assert(events[k] == rest[k - 1]);
            }
        }
    }
}

/// A response that came at once is told as if it had been streamed: that it began, its
/// text if it has one, each of its calls in order, and its counters.
pub proof fn law_whole_responses_are_told(r: ResponseView)
    ensures
        ({
            let events = driver::complete_events(r);
            let before: int = if r.text.len() > 0 {
                2
            } else {
                1
            };
            &&& events.len() == before + r.tool_calls.len() + 1
            &&& events[0] matches StreamEventView::ResponseStarted { provider_request_id, .. }
                && provider_request_id == r.provider_request_id
            &&& r.text.len() > 0 ==> events[1] == (StreamEventView::TextDelta { text: r.text })
            &&& forall|k: int|
                0 <= k < r.tool_calls.len() ==> #[trigger] events[before + k] == (
                StreamEventView::ToolCallStarted {
                    index: k as nat,
                    id: r.tool_calls[k].id,
                    name: r.tool_calls[k].name,
                })
            &&& events.last() == (StreamEventView::UsageUpdate { usage: r.usage })
        }),
{
    lemma_announced(r.tool_calls, 0);
    let events = driver::complete_events(r);
    let before: int = if r.text.len() > 0 {
        2
    } else {
        1
    };
    let told = driver::announced(r.tool_calls, 0);
    assert forall|k: int| 0 <= k < r.tool_calls.len() implies #[trigger] events[before + k] == (
    StreamEventView::ToolCallStarted {
        index: k as nat,
        id: r.tool_calls[k].id,
        name: r.tool_calls[k].name,
    }) by {
        assert(events[before + k] == told[k]);
    }
}

} // verus!
