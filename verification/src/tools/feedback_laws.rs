//! What holds of the evidence shown after every edit.

use crate::text;
use crate::tools::feedback;
use crate::tools::feedback::{
    LineView, PreviewView, Showing, MAX_MUTATION_FEEDBACK_LINES, MAX_MUTATION_FEEDBACK_LINE_BYTES,
    MAX_MUTATION_FEEDBACK_TEXT_BYTES,
};
use vstd::prelude::*;

verus! {

/// Number of bytes of text in shown lines.
pub open spec fn line_bytes(lines: Seq<LineView>) -> nat
    decreases lines.len(),
{
    if lines.len() == 0 {
        0
    } else {
        line_bytes(lines.drop_last()) + text::utf8_len(lines.last().text)
    }
}

/// Number of bytes of text in previews.
pub open spec fn shown_bytes(previews: Seq<PreviewView>) -> nat
    decreases previews.len(),
{
    if previews.len() == 0 {
        0
    } else {
        shown_bytes(previews.drop_last()) + line_bytes(previews.last().lines)
    }
}

/// Number of lines in previews.
pub open spec fn shown_lines(previews: Seq<PreviewView>) -> nat
    decreases previews.len(),
{
    if previews.len() == 0 {
        0
    } else {
        shown_lines(previews.drop_last()) + previews.last().lines.len()
    }
}

/// Whether no line shows more bytes than one line may.
pub open spec fn lines_are_short(lines: Seq<LineView>) -> bool {
    forall|i: int|
        0 <= i < lines.len() ==> text::utf8_len((#[trigger] lines[i]).text)
            <= MAX_MUTATION_FEEDBACK_LINE_BYTES
}

proof fn lemma_lines_bounded(lines: Seq<Seq<char>>, from: nat, end: nat, s: Showing)
    requires
        lines_are_short(s.lines),
        from <= end + 1,
    ensures
        ({
            let r = feedback::show_lines(lines, from, end, s);
            &&& line_bytes(r.lines) + r.remaining == line_bytes(s.lines) + s.remaining
            &&& r.lines.len() <= s.lines.len() + (end + 1 - from)
            &&& lines_are_short(r.lines)
            &&& s.cut ==> r.cut
        }),
    decreases end + 1 - from,
{
    if from > end || from == 0 || from > lines.len() || s.remaining == 0 {
    } else {
        let limit = feedback::smaller(
            s.remaining as int,
            MAX_MUTATION_FEEDBACK_LINE_BYTES as int,
        ) as nat;
        feedback::lemma_truncated(lines[from - 1], limit);
        let shown = feedback::truncated_line(lines[from - 1], limit);
        let next = Showing {
            lines: s.lines.push(LineView { line: from, text: shown.0, text_truncated: shown.1 }),
            remaining: (s.remaining - text::utf8_len(shown.0)) as nat,
            cut: s.cut || shown.1,
        };
        assert(next.lines.drop_last() =~= s.lines);
        lemma_lines_bounded(lines, from + 1, end, next);
    }
}

/// Whether ranges have at most `count` lines between them.
pub open spec fn range_lines(ranges: Seq<(nat, nat)>, count: int) -> int
    decreases count,
{
    if count <= 0 {
        0
    } else {
        range_lines(ranges, count - 1) + ranges[count - 1].1 + 1 - ranges[count - 1].0
    }
}

proof fn lemma_ranges_bounded(lines: Seq<Seq<char>>, ranges: Seq<(nat, nat)>, count: int)
    requires
        0 <= count <= ranges.len(),
        forall|i: int| 0 <= i < ranges.len() ==> (#[trigger] ranges[i]).0 <= ranges[i].1,
    ensures
        ({
            let r = feedback::show_ranges(lines, ranges, count);
            &&& shown_bytes(r.previews) + r.remaining == MAX_MUTATION_FEEDBACK_TEXT_BYTES
            &&& shown_lines(r.previews) <= range_lines(ranges, count)
            &&& forall|i: int|
                0 <= i < r.previews.len() ==> lines_are_short((#[trigger] r.previews[i]).lines)
        }),
    decreases count,
{
    if count > 0 {
        lemma_ranges_bounded(lines, ranges, count - 1);
        let before = feedback::show_ranges(lines, ranges, count - 1);
        let (start, end) = ranges[count - 1];
        let s = Showing { lines: Seq::empty(), remaining: before.remaining, cut: before.cut };
        lemma_lines_bounded(lines, start, end, s);
        let shown = feedback::show_lines(lines, start, end, s);
        let r = feedback::show_ranges(lines, ranges, count);
        if shown.lines.len() > 0 {
            assert(r.previews.drop_last() =~= before.previews);
        }
    }
}

/// Whatever is edited, the evidence holds at most the fixed numbers of lines, of bytes,
/// and of bytes of any one line.
pub proof fn law_feedback_is_bounded(before: Option<Seq<char>>, after: Seq<char>)
    ensures
        shown_lines(feedback::feedback(before, after).previews) <= MAX_MUTATION_FEEDBACK_LINES,
        shown_bytes(feedback::feedback(before, after).previews)
            <= MAX_MUTATION_FEEDBACK_TEXT_BYTES,
        forall|i: int|
            0 <= i < feedback::feedback(before, after).previews.len() ==> lines_are_short(
                (#[trigger] feedback::feedback(before, after).previews[i]).lines,
            ),
{
    let f = feedback::feedback(before, after);
    let lines = text::lines_spec(after);
    let ranges = feedback::preview_ranges(f.changed_start, f.changed_end, lines.len());
    feedback::lemma_preview_ranges(f.changed_start, f.changed_end, lines.len());
    lemma_ranges_bounded(lines, ranges, ranges.len() as int);
    reveal_with_fuel(range_lines, 3);
}

/// The lines `from` to `end` of a file, whole.
pub open spec fn whole_lines(lines: Seq<Seq<char>>, from: nat, end: nat) -> Seq<LineView> {
    Seq::new(
        (end + 1 - from) as nat,
        |i: int|
            LineView {
                line: (from + i) as nat,
                text: lines[from + i - 1],
                text_truncated: false,
            },
    )
}

proof fn lemma_uncut(lines: Seq<Seq<char>>, from: nat, end: nat, s: Showing)
    requires
        1 <= from <= end + 1,
        end <= lines.len(),
        !feedback::show_lines(lines, from, end, s).cut,
    ensures
        feedback::show_lines(lines, from, end, s).lines == s.lines + whole_lines(lines, from, end),
        !s.cut,
    decreases end + 1 - from,
{
    if from > end {
        assert(s.lines + whole_lines(lines, from, end) =~= s.lines);
    } else if s.remaining == 0 {
    } else {
        let limit = feedback::smaller(
            s.remaining as int,
            MAX_MUTATION_FEEDBACK_LINE_BYTES as int,
        ) as nat;
        feedback::lemma_truncated(lines[from - 1], limit);
        let shown = feedback::truncated_line(lines[from - 1], limit);
        let next = Showing {
            lines: s.lines.push(LineView { line: from, text: shown.0, text_truncated: shown.1 }),
            remaining: (s.remaining - text::utf8_len(shown.0)) as nat,
            cut: s.cut || shown.1,
        };
        lemma_uncut(lines, from + 1, end, next);
        assert(next.lines + whole_lines(lines, from + 1, end) =~= s.lines + whole_lines(
            lines,
            from,
            end,
        ));
    }
}

/// Whether previews show whole lines.
pub open spec fn previews_are_whole(lines: Seq<Seq<char>>, previews: Seq<PreviewView>) -> bool {
    forall|i: int|
        0 <= i < previews.len() ==> (#[trigger] previews[i]).lines == whole_lines(
            lines,
            previews[i].start_line,
            previews[i].end_line,
        )
}

proof fn lemma_ranges_uncut(lines: Seq<Seq<char>>, ranges: Seq<(nat, nat)>, count: int)
    requires
        0 <= count <= ranges.len(),
        forall|i: int|
            0 <= i < ranges.len() ==> 1 <= (#[trigger] ranges[i]).0 <= ranges[i].1 <= lines.len(),
        !feedback::show_ranges(lines, ranges, count).cut,
    ensures
        previews_are_whole(lines, feedback::show_ranges(lines, ranges, count).previews),
    decreases count,
{
    if count > 0 {
        let before = feedback::show_ranges(lines, ranges, count - 1);
        let (start, end) = ranges[count - 1];
        let s = Showing { lines: Seq::empty(), remaining: before.remaining, cut: before.cut };
        lemma_uncut(lines, start, end, s);
        lemma_ranges_uncut(lines, ranges, count - 1);
        assert(Seq::<LineView>::empty() + whole_lines(lines, start, end) =~= whole_lines(
            lines,
            start,
            end,
        ));
    }
}

/// Whether preview `i` spans line `n`.
pub open spec fn spans(previews: Seq<PreviewView>, i: int, n: nat) -> bool {
    0 <= i < previews.len() && previews[i].start_line <= n <= previews[i].end_line
}

proof fn lemma_covered(previews: Seq<PreviewView>, i: int, cursor: nat, end: nat, n: nat)
    requires
        0 <= i,
        feedback::covered(previews, i, cursor, end),
        cursor <= n <= end,
    ensures
        exists|k: int| spans(previews, k, n),
    decreases previews.len() - i,
{
    if previews[i].start_line <= cursor && previews[i].end_line >= cursor {
        if n <= previews[i].end_line {
            assert(spans(previews, i, n));
        } else {
            lemma_covered(previews, i + 1, previews[i].end_line + 1, end, n);
        }
    } else {
        lemma_covered(previews, i + 1, cursor, end, n);
    }
}

/// Whether a preview shows line `n` of a file, whole.
pub open spec fn shows_line(previews: Seq<PreviewView>, n: nat, line: Seq<char>) -> bool {
    exists|i: int, k: int|
        0 <= i < previews.len() && 0 <= k < previews[i].lines.len()
            && #[trigger] previews[i].lines[k] == (LineView {
            line: n,
            text: line,
            text_truncated: false,
        })
}

/// Evidence that claims to show the changed lines in full shows every one of them, whole
/// and as the file now holds it.
pub proof fn law_full_evidence_is_complete(before: Option<Seq<char>>, after: Seq<char>, n: nat)
    requires
        feedback::feedback(before, after).fully_shown,
        feedback::feedback(before, after).changed_start <= n <= feedback::feedback(
            before,
            after,
        ).changed_end,
    ensures
        1 <= n <= text::lines_spec(after).len(),
        shows_line(
            feedback::feedback(before, after).previews,
            n,
            text::lines_spec(after)[n - 1],
        ),
{
    let f = feedback::feedback(before, after);
    let lines = text::lines_spec(after);
    let ranges = feedback::preview_ranges(f.changed_start, f.changed_end, lines.len());
    feedback::lemma_preview_ranges(f.changed_start, f.changed_end, lines.len());
    lemma_ranges_uncut(lines, ranges, ranges.len() as int);
    lemma_spans_within(lines, ranges, ranges.len() as int);
    lemma_covered(f.previews, 0, f.changed_start, f.changed_end, n);
    let k = choose|k: int| spans(f.previews, k, n);
    let p = f.previews[k];
    let at = n - p.start_line;
    assert(p.lines[at] == (LineView { line: n, text: lines[n - 1], text_truncated: false }));
}

proof fn lemma_spans_within(lines: Seq<Seq<char>>, ranges: Seq<(nat, nat)>, count: int)
    requires
        0 <= count <= ranges.len(),
        forall|i: int|
            0 <= i < ranges.len() ==> 1 <= (#[trigger] ranges[i]).0 <= ranges[i].1 <= lines.len(),
    ensures
        forall|i: int|
            0 <= i < feedback::show_ranges(lines, ranges, count).previews.len() ==> {
                let p = #[trigger] feedback::show_ranges(lines, ranges, count).previews[i];
                1 <= p.start_line <= p.end_line <= lines.len()
            },
    decreases count,
{
    if count > 0 {
        lemma_spans_within(lines, ranges, count - 1);
        let before = feedback::show_ranges(lines, ranges, count - 1);
        let now = feedback::show_ranges(lines, ranges, count);
        let range = ranges[count - 1];
        assert forall|i: int| 0 <= i < now.previews.len() implies {
            let p = #[trigger] now.previews[i];
            1 <= p.start_line <= p.end_line <= lines.len()
        } by {
            if i < before.previews.len() {
                assert(now.previews[i] == before.previews[i]);
            }
        }
    }
}

/// Cut lines are cut between characters: what is shown of a line is a beginning of it,
/// and the line itself where it is not marked as cut.
pub proof fn law_cuts_keep_characters_whole(line: Seq<char>, max: nat)
    ensures
        ({
            let (shown, cut) = feedback::truncated_line(line, max);
            &&& text::utf8_len(shown) <= max
            &&& shown == line.take(shown.len() as int)
            &&& !cut ==> shown == line
        }),
{
    feedback::lemma_truncated(line, max);
}

} // verus!
