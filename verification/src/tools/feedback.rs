//! Bounded evidence of what a file holds after an edit.

use crate::digest;
use crate::json;
use crate::json::{Json, JsonView};
use crate::text;
use vstd::prelude::*;
use vstd::utf8::*;

verus! {

/// Largest number of lines shown after one edit.
pub const MAX_MUTATION_FEEDBACK_LINES: usize = 80;

/// Largest number of bytes of source text shown after one edit.
pub const MAX_MUTATION_FEEDBACK_TEXT_BYTES: usize = 12288;

/// Largest number of bytes shown of one line.
pub const MAX_MUTATION_FEEDBACK_LINE_BYTES: usize = 2048;

/// Number of unchanged lines shown on either side of a change.
pub const MUTATION_CONTEXT_LINES: usize = 3;

/// From `i` characters on: how many characters two texts have in common at their
/// beginnings.
pub open spec fn prefix_from(a: Seq<char>, b: Seq<char>, i: int) -> int
    decreases a.len() - i,
{
    if 0 <= i < a.len() && i < b.len() && a[i] == b[i] {
        prefix_from(a, b, i + 1)
    } else {
        i
    }
}

/// From `k` characters on: how many characters, at most `limit`, two texts have in
/// common at their ends.
pub open spec fn suffix_from(a: Seq<char>, b: Seq<char>, limit: int, k: int) -> int
    decreases limit - k,
{
    if 0 <= k < limit && a[a.len() - 1 - k] == b[b.len() - 1 - k] {
        suffix_from(a, b, limit, k + 1)
    } else {
        k
    }
}

/// Number of line feeds in a text.
pub open spec fn line_feeds(s: Seq<char>) -> nat
    decreases s.len(),
{
    if s.len() == 0 {
        0
    } else {
        line_feeds(s.drop_last()) + (if s.last() == '\n' {
            1nat
        } else {
            0
        })
    }
}

/// The larger of two numbers.
pub open spec fn larger(a: nat, b: nat) -> nat {
    if a >= b {
        a
    } else {
        b
    }
}

/// The smaller of two numbers.
pub open spec fn smaller(a: int, b: int) -> int {
    if a <= b {
        a
    } else {
        b
    }
}

/// The first and the last line of `after` that differ from `before`: those between what
/// the texts have in common at their beginnings and at their ends.
pub open spec fn changed_span(before: Seq<char>, after: Seq<char>) -> (nat, nat) {
    if before == after {
        let line = larger(text::lines_spec(after).len(), 1);
        (line, line)
    } else {
        let prefix = prefix_from(before, after, 0);
        let limit = smaller(before.len() as int, after.len() as int) - prefix;
        let end = after.len() - suffix_from(before, after, limit, 0);
        let start_line = line_feeds(after.take(prefix)) + 1;
        let end_line = if end > prefix {
            line_feeds(after.take(end - 1)) + 1
        } else {
            start_line
        };
        (start_line, larger(end_line, start_line))
    }
}

fn count_line_feeds(chars: &Vec<char>, to: usize) -> (r: usize)
    requires
        to <= chars@.len(),
    ensures
        r == line_feeds(chars@.take(to as int)),
        r <= to,
{
    let mut n: usize = 0;
    let mut i: usize = 0;
    while i < to
        invariant
            i <= to <= chars@.len(),
            n == line_feeds(chars@.take(i as int)),
            n <= i,
        decreases to - i,
    {
        assert(chars@.take(i as int + 1).drop_last() =~= chars@.take(i as int));
        if chars[i] == '\n' {
            n += 1;
        }
        i += 1;
    }
    n
}

/// The first and the last line of `after` that differ from `before`.
pub fn changed_line_span(before: &str, after: &str) -> (r: (usize, usize))
    requires
        after@.len() < usize::MAX,
    ensures
        (r.0 as nat, r.1 as nat) == changed_span(before@, after@),
        1 <= r.0 <= r.1,
{
    if text::same(before, after) {
        let all = text::lines(after);
        proof {
            assert(text::views(all@).len() == all@.len());
        }
        let line: usize = if all.len() >= 1 {
            all.len()
        } else {
            1
        };
        return (line, line);
    }
    let old_chars = text::chars_of(before);
    let new_chars = text::chars_of(after);
    let mut prefix: usize = 0;
    while prefix < old_chars.len() && prefix < new_chars.len() && old_chars[prefix]
        == new_chars[prefix]
        invariant
            prefix <= old_chars@.len(),
            prefix <= new_chars@.len(),
            prefix_from(old_chars@, new_chars@, 0) == prefix_from(
                old_chars@,
                new_chars@,
                prefix as int,
            ),
        decreases old_chars@.len() - prefix,
    {
        prefix += 1;
    }
    let limit: usize = if old_chars.len() <= new_chars.len() {
        old_chars.len() - prefix
    } else {
        new_chars.len() - prefix
    };
    let mut suffix: usize = 0;
    while suffix < limit && old_chars[old_chars.len() - 1 - suffix] == new_chars[new_chars.len() - 1
        - suffix]
        invariant
            suffix <= limit,
            limit <= old_chars@.len(),
            limit <= new_chars@.len(),
            suffix_from(old_chars@, new_chars@, limit as int, 0) == suffix_from(
                old_chars@,
                new_chars@,
                limit as int,
                suffix as int,
            ),
        decreases limit - suffix,
    {
        suffix += 1;
    }
    let end: usize = new_chars.len() - suffix;
    let start_line: usize = count_line_feeds(&new_chars, prefix) + 1;
    let end_line: usize = if end > prefix {
        count_line_feeds(&new_chars, end - 1) + 1
    } else {
        start_line
    };
    if end_line >= start_line {
        (start_line, end_line)
    } else {
        (start_line, start_line)
    }
}

/// `x` held between `low` and `high`.
pub open spec fn clamped(x: nat, low: nat, high: nat) -> nat {
    if x < low {
        low
    } else if x > high {
        high
    } else {
        x
    }
}

/// A change with its context, within the file.
pub open spec fn shown_span(start: nat, end: nat, total: nat) -> (nat, nat) {
    let first = clamped(start, 1, total);
    let last = clamped(end, first, total);
    (
        if first > MUTATION_CONTEXT_LINES {
            (first - MUTATION_CONTEXT_LINES) as nat
        } else {
            1
        },
        if last + MUTATION_CONTEXT_LINES < total {
            (last + MUTATION_CONTEXT_LINES) as nat
        } else {
            total
        },
    )
}

/// The lines `from` to `to`, or the two ends of that where it is too long.
pub open spec fn bounded_span(from: nat, to: nat) -> Seq<(nat, nat)> {
    if to - from + 1 <= MAX_MUTATION_FEEDBACK_LINES {
        seq![(from, to)]
    } else {
        let half = MAX_MUTATION_FEEDBACK_LINES / 2;
        seq![(from, (from + half - 1) as nat), ((to - half + 1) as nat, to)]
    }
}

/// The ranges of lines shown for a change: the change with its context, or the two ends
/// of that where it is too long.
pub open spec fn preview_ranges(start: nat, end: nat, total: nat) -> Seq<(nat, nat)> {
    if total == 0 {
        Seq::empty()
    } else {
        let span = shown_span(start, end, total);
        bounded_span(span.0, span.1)
    }
}

/// The shown ranges lie within the file.
pub proof fn lemma_preview_ranges(start: nat, end: nat, total: nat)
    ensures
        forall|i: int|
            0 <= i < preview_ranges(start, end, total).len() ==> {
                let range = #[trigger] preview_ranges(start, end, total)[i];
                1 <= range.0 <= range.1 <= total
            },
        preview_ranges(start, end, total).len() <= 2,
{
    if total > 0 {
        let span = shown_span(start, end, total);
        assert(1 <= span.0 <= span.1 <= total);
    }
}

/// Ranges by their numbers.
pub open spec fn range_views(ranges: Seq<(usize, usize)>) -> Seq<(nat, nat)> {
    Seq::new(ranges.len(), |i: int| (ranges[i].0 as nat, ranges[i].1 as nat))
}

/// The ranges of lines shown for a change.
pub fn mutation_preview_ranges(start: usize, end: usize, total_lines: usize) -> (r: Vec<
    (usize, usize),
>)
    requires
        total_lines < usize::MAX,
    ensures
        range_views(r@) == preview_ranges(start as nat, end as nat, total_lines as nat),
{
    let mut out: Vec<(usize, usize)> = Vec::new();
    if total_lines == 0 {
        assert(range_views(out@) =~= Seq::<(nat, nat)>::empty());
        return out;
    }
    let first: usize = if start < 1 {
        1
    } else if start > total_lines {
        total_lines
    } else {
        start
    };
    let last: usize = if end < first {
        first
    } else if end > total_lines {
        total_lines
    } else {
        end
    };
    let from: usize = if first > MUTATION_CONTEXT_LINES {
        first - MUTATION_CONTEXT_LINES
    } else {
        1
    };
    let to: usize = if last < total_lines && total_lines - last > MUTATION_CONTEXT_LINES {
        last + MUTATION_CONTEXT_LINES
    } else {
        total_lines
    };
    assert((from as nat, to as nat) == shown_span(start as nat, end as nat, total_lines as nat));
    if to - from + 1 <= MAX_MUTATION_FEEDBACK_LINES {
        out.push((from, to));
    } else {
        let half: usize = MAX_MUTATION_FEEDBACK_LINES / 2;
        out.push((from, from + half - 1));
        out.push((to - half + 1, to));
    }
    assert(range_views(out@) =~= bounded_span(from as nat, to as nat));
    out
}

/// A line cut to a number of bytes, and whether anything was cut off.
pub open spec fn truncated_line(line: Seq<char>, max: nat) -> (Seq<char>, bool) {
    if text::utf8_len(line) <= max {
        (line, false)
    } else {
        (text::fitting(line, max), true)
    }
}

/// A line cut to a number of bytes, on a boundary between characters, and whether
/// anything was cut off.
pub fn truncate_source_line(line: &str, max_bytes: usize) -> (r: (String, bool))
    ensures
        (r.0@, r.1) == truncated_line(line@, max_bytes as nat),
{
    if text::byte_len(line) <= max_bytes {
        return (line.to_owned(), false);
    }
    let chars = text::chars_of(line);
    let count: usize = text::fit(&chars, 0, max_bytes);
    assert(chars@.skip(0) =~= line@);
    assert(chars@.subrange(0, count as int) =~= line@.take(count as int));
    (text::text_of(&chars, 0, count), true)
}

/// A line that is shown.
pub struct ShownLine {
    pub line: usize,
    pub text: String,
    pub text_truncated: bool,
}

/// A [`ShownLine`] by its text.
pub struct LineView {
    pub line: nat,
    pub text: Seq<char>,
    pub text_truncated: bool,
}

impl DeepView for ShownLine {
    type V = LineView;

    open spec fn deep_view(&self) -> LineView {
        LineView {
            line: self.line as nat,
            text: self.text@,
            text_truncated: self.text_truncated,
        }
    }
}

/// A run of lines that are shown.
pub struct Preview {
    pub start_line: usize,
    pub end_line: usize,
    pub lines: Vec<ShownLine>,
}

/// A [`Preview`] by its lines' texts.
pub struct PreviewView {
    pub start_line: nat,
    pub end_line: nat,
    pub lines: Seq<LineView>,
}

impl DeepView for Preview {
    type V = PreviewView;

    open spec fn deep_view(&self) -> PreviewView {
        PreviewView {
            start_line: self.start_line as nat,
            end_line: self.end_line as nat,
            lines: self.lines.deep_view(),
        }
    }
}

/// The lines shown so far, the bytes that may still be shown, and whether text was left
/// out.
pub struct Showing {
    pub lines: Seq<LineView>,
    pub remaining: nat,
    pub cut: bool,
}

/// Showing the lines `from` to `end`.
pub open spec fn show_lines(lines: Seq<Seq<char>>, from: nat, end: nat, s: Showing) -> Showing
    decreases end + 1 - from,
{
    if from > end || from == 0 || from > lines.len() {
        s
    } else if s.remaining == 0 {
        Showing { cut: true, ..s }
    } else {
        let limit = smaller(s.remaining as int, MAX_MUTATION_FEEDBACK_LINE_BYTES as int) as nat;
        let shown = truncated_line(lines[from - 1], limit);
        show_lines(
            lines,
            from + 1,
            end,
            Showing {
                lines: s.lines.push(
                    LineView { line: from, text: shown.0, text_truncated: shown.1 },
                ),
                remaining: (s.remaining - text::utf8_len(shown.0)) as nat,
                cut: s.cut || shown.1,
            },
        )
    }
}

/// What is shown of a file, the bytes that could still be shown, and whether text was
/// left out.
pub struct EvidenceView {
    pub previews: Seq<PreviewView>,
    pub remaining: nat,
    pub cut: bool,
}

/// Showing the first `count` ranges.
pub open spec fn show_ranges(
    lines: Seq<Seq<char>>,
    ranges: Seq<(nat, nat)>,
    count: int,
) -> EvidenceView
    decreases count,
{
    if count <= 0 {
        EvidenceView {
            previews: Seq::empty(),
            remaining: MAX_MUTATION_FEEDBACK_TEXT_BYTES as nat,
            cut: false,
        }
    } else {
        let before = show_ranges(lines, ranges, count - 1);
        let (start, end) = ranges[count - 1];
        let shown = show_lines(
            lines,
            start,
            end,
            Showing { lines: Seq::empty(), remaining: before.remaining, cut: before.cut },
        );
        EvidenceView {
            previews: if shown.lines.len() == 0 {
                before.previews
            } else {
                before.previews.push(
                    PreviewView { start_line: start, end_line: end, lines: shown.lines },
                )
            },
            remaining: shown.remaining,
            cut: shown.cut,
        }
    }
}

/// From line `cursor` on: whether the previews from `i` on reach past line `end` without
/// a gap.
pub open spec fn covered(previews: Seq<PreviewView>, i: int, cursor: nat, end: nat) -> bool
    decreases previews.len() - i,
{
    if i < 0 || i >= previews.len() {
        false
    } else if previews[i].start_line <= cursor && previews[i].end_line >= cursor {
        previews[i].end_line + 1 > end || covered(
            previews,
            i + 1,
            previews[i].end_line + 1,
            end,
        )
    } else {
        covered(previews, i + 1, cursor, end)
    }
}

/// What is shown after an edit.
pub struct FeedbackView {
    pub total_lines: nat,
    pub changed_start: nat,
    pub changed_end: nat,
    pub previews: Seq<PreviewView>,
    pub fully_shown: bool,
}

/// What is shown after an edit that made `after` out of `before`, or out of nothing.
pub open spec fn feedback(before: Option<Seq<char>>, after: Seq<char>) -> FeedbackView {
    let lines = text::lines_spec(after);
    let (start, end) = match before {
        None => (1nat, larger(lines.len(), 1)),
        Some(b) => changed_span(b, after),
    };
    let ranges = preview_ranges(start, end, lines.len());
    let shown = show_ranges(lines, ranges, ranges.len() as int);
    FeedbackView {
        total_lines: lines.len(),
        changed_start: start,
        changed_end: end,
        previews: shown.previews,
        fully_shown: !shown.cut && start <= end && covered(shown.previews, 0, start, end),
    }
}

/// A shown line as JSON.
pub open spec fn line_json(l: LineView) -> JsonView {
    json::obj3(
        "line"@,
        json::num(l.line),
        "text"@,
        JsonView::Text(l.text),
        "text_truncated"@,
        JsonView::Bool(l.text_truncated),
    )
}

/// A preview as JSON.
pub open spec fn preview_json(p: PreviewView) -> JsonView {
    json::obj3(
        "start_line"@,
        json::num(p.start_line),
        "end_line"@,
        json::num(p.end_line),
        "lines"@,
        JsonView::Array(p.lines.map_values(|l: LineView| line_json(l))),
    )
}

/// What the evidence may be used for.
pub open spec fn guidance(fully_shown: bool) -> Seq<char> {
    if fully_shown {
        "This is current source from the isolated candidate after the mutation."@
    } else {
        "Post-edit evidence is bounded. Use read_file with path and a narrow start_line/end_line range before relying on omitted changed source."@
    }
}

/// The evidence as JSON, with the digest of the file's new content.
pub open spec fn feedback_json(
    path: Seq<char>,
    content_digest: Seq<char>,
    before: Option<Seq<char>>,
    after: Seq<char>,
) -> JsonView {
    let f = feedback(before, after);
    let base = json::obj4(
        "path"@,
        JsonView::Text(path),
        "digest"@,
        JsonView::Text(content_digest),
        "bytes"@,
        json::num(text::utf8_len(after)),
        "total_lines"@,
        json::num(f.total_lines),
    );
    let span = json::with_member(
        json::with_member(base, "changed_line_start"@, json::num(f.changed_start)),
        "changed_line_end"@,
        json::num(f.changed_end),
    );
    let shown = json::with_member(
        json::with_member(span, "changed_lines_fully_shown"@, JsonView::Bool(f.fully_shown)),
        "previews"@,
        JsonView::Array(f.previews.map_values(|p: PreviewView| preview_json(p))),
    );
    json::with_member(shown, "guidance"@, JsonView::Text(guidance(f.fully_shown)))
}

/// A cut line is a beginning of the line that fits.
pub proof fn lemma_truncated(line: Seq<char>, max: nat)
    ensures
        text::utf8_len(truncated_line(line, max).0) <= max,
        truncated_line(line, max).0.len() <= line.len(),
        truncated_line(line, max).0 == line.take(truncated_line(line, max).0.len() as int),
        truncated_line(line, max).1 <==> truncated_line(line, max).0 != line,
{
    if text::utf8_len(line) > max {
        assert(line.take(0) =~= Seq::<char>::empty());
        assert(encode_utf8(line.take(0)) =~= Seq::<u8>::empty());
        text::lemma_fitting(line, max, 0);
        assert(text::fitting(line, max) =~= line.take(text::fitting(line, max).len() as int));
    } else {
        assert(line =~= line.take(line.len() as int));
    }
}

fn show(
    lines: &Vec<String>,
    start: usize,
    end: usize,
    remaining: &mut usize,
    cut: &mut bool,
) -> (r: Vec<ShownLine>)
    requires
        1 <= start <= end <= lines@.len(),
        end < usize::MAX,
    ensures
        (Showing { lines: r.deep_view(), remaining: *final(remaining) as nat, cut: *final(cut) })
            == show_lines(
            text::views(lines@),
            start as nat,
            end as nat,
            Showing { lines: Seq::empty(), remaining: *old(remaining) as nat, cut: *old(cut) },
        ),
{
    let ghost views = text::views(lines@);
    let ghost first = Showing {
        lines: Seq::empty(),
        remaining: *old(remaining) as nat,
        cut: *old(cut),
    };
    let mut out: Vec<ShownLine> = Vec::new();
    let mut number: usize = start;
    assert(out.deep_view() =~= Seq::<LineView>::empty());
    while number <= end
        invariant
            1 <= start <= number <= end + 1,
            end <= lines@.len(),
            end < usize::MAX,
            views == text::views(lines@),
            first == (Showing {
                lines: Seq::empty(),
                remaining: *old(remaining) as nat,
                cut: *old(cut),
            }),
            show_lines(views, start as nat, end as nat, first) == show_lines(
                views,
                number as nat,
                end as nat,
                Showing { lines: out.deep_view(), remaining: *remaining as nat, cut: *cut },
            ),
        decreases end + 1 - number,
    {
        assert(views.len() == lines@.len());
        if *remaining == 0 {
            *cut = true;
            return out;
        }
        let limit: usize = if *remaining <= MAX_MUTATION_FEEDBACK_LINE_BYTES {
            *remaining
        } else {
            MAX_MUTATION_FEEDBACK_LINE_BYTES
        };
        assert(views[number - 1] == lines@[number - 1]@);
        let (shown, shown_cut) = truncate_source_line(lines[number - 1].as_str(), limit);
        proof {
            lemma_truncated(views[number - 1], limit as nat);
        }
        *remaining = *remaining - text::byte_len(shown.as_str());
        *cut = *cut || shown_cut;
        let ghost before = out.deep_view();
        out.push(ShownLine { line: number, text: shown, text_truncated: shown_cut });
        assert(out.deep_view() =~= before.push(
            LineView { line: number as nat, text: shown@, text_truncated: shown_cut },
        ));
        number += 1;
    }
    out
}

/// Whether the previews show the lines `start` to `end` without a gap.
pub fn previews_cover_range(previews: &Vec<Preview>, start: usize, end: usize) -> (r: bool)
    requires
        forall|i: int|
            0 <= i < previews@.len() ==> (#[trigger] previews@[i]).end_line < usize::MAX,
    ensures
        r == covered(previews.deep_view(), 0, start as nat, end as nat),
{
    let mut cursor: usize = start;
    let mut i: usize = 0;
    while i < previews.len()
        invariant
            i <= previews@.len(),
            forall|i: int|
                0 <= i < previews@.len() ==> (#[trigger] previews@[i]).end_line < usize::MAX,
            covered(previews.deep_view(), 0, start as nat, end as nat) == covered(
                previews.deep_view(),
                i as int,
                cursor as nat,
                end as nat,
            ),
        decreases previews@.len() - i,
    {
        let preview = &previews[i];
        assert(previews.deep_view()[i as int] == preview.deep_view());
        if preview.start_line <= cursor && preview.end_line >= cursor {
            cursor = preview.end_line + 1;
            if cursor > end {
                return true;
            }
        }
        i += 1;
    }
    false
}

fn line_value(l: &ShownLine) -> (r: Json)
    ensures
        r.deep_view() == line_json(l.deep_view()),
{
    Json::object3(
        "line",
        Json::count(l.line),
        "text",
        Json::text(l.text.as_str()),
        "text_truncated",
        Json::boolean(l.text_truncated),
    )
}

fn preview_value(p: &Preview) -> (r: Json)
    ensures
        r.deep_view() == preview_json(p.deep_view()),
{
    let mut items: Vec<Json> = Vec::new();
    let mut i: usize = 0;
    while i < p.lines.len()
        invariant
            i <= p.lines@.len(),
            items@.len() == i,
            forall|k: int|
                0 <= k < i ==> (#[trigger] items@[k]).deep_view() == line_json(
                    p.lines@[k].deep_view(),
                ),
        decreases p.lines@.len() - i,
    {
        items.push(line_value(&p.lines[i]));
        i += 1;
    }
    assert(items.deep_view() =~= p.deep_view().lines.map_values(|l: LineView| line_json(l)));
    Json::object3(
        "start_line",
        Json::count(p.start_line),
        "end_line",
        Json::count(p.end_line),
        "lines",
        Json::array(items),
    )
}

fn preview_values(previews: &Vec<Preview>) -> (r: Json)
    ensures
        r.deep_view() == JsonView::Array(
            previews.deep_view().map_values(|p: PreviewView| preview_json(p)),
        ),
{
    let mut items: Vec<Json> = Vec::new();
    let mut i: usize = 0;
    while i < previews.len()
        invariant
            i <= previews@.len(),
            items@.len() == i,
            forall|k: int|
                0 <= k < i ==> (#[trigger] items@[k]).deep_view() == preview_json(
                    previews@[k].deep_view(),
                ),
        decreases previews@.len() - i,
    {
        items.push(preview_value(&previews[i]));
        i += 1;
    }
    assert(items.deep_view() =~= previews.deep_view().map_values(
        |p: PreviewView| preview_json(p),
    ));
    Json::array(items)
}

/// The evidence of an edit, with a digest of the file's new content that the caller
/// supplies.
pub fn feedback_with_digest(
    path: &str,
    content_digest: &str,
    before: Option<&str>,
    after: &str,
) -> (r: Json)
    requires
        after@.len() < usize::MAX,
    ensures
        r.deep_view() == feedback_json(
            path@,
            content_digest@,
            match before {
                Some(b) => Some(b@),
                None => None,
            },
            after@,
        ),
{
    let lines = text::lines(after);
    let ghost views = text::lines_spec(after@);
    let total_lines: usize = lines.len();
    proof {
        text::lemma_lines_bounded(after@);
        assert(text::views(lines@).len() == lines@.len());
    }
    let (changed_start, changed_end) = match before {
        None => if total_lines >= 1 {
            (1, total_lines)
        } else {
            (1, 1)
        },
        Some(b) => changed_line_span(b, after),
    };
    let ranges = mutation_preview_ranges(changed_start, changed_end, total_lines);
    let ghost wanted = range_views(ranges@);
    let mut remaining: usize = MAX_MUTATION_FEEDBACK_TEXT_BYTES;
    let mut cut: bool = false;
    let mut previews: Vec<Preview> = Vec::new();
    let mut i: usize = 0;
    assert(previews.deep_view() =~= Seq::<PreviewView>::empty());
    while i < ranges.len()
        invariant
            i <= ranges@.len(),
            views == text::views(lines@),
            total_lines == lines@.len(),
            total_lines < usize::MAX,
            wanted == range_views(ranges@),
            wanted == preview_ranges(
                changed_start as nat,
                changed_end as nat,
                total_lines as nat,
            ),
            (EvidenceView { previews: previews.deep_view(), remaining: remaining as nat, cut })
                == show_ranges(views, wanted, i as int),
            forall|k: int|
                0 <= k < previews@.len() ==> (#[trigger] previews@[k]).end_line < usize::MAX,
        decreases ranges@.len() - i,
    {
        let (start, end) = ranges[i];
        proof {
            lemma_preview_ranges(changed_start as nat, changed_end as nat, total_lines as nat);
            assert(wanted[i as int] == (start as nat, end as nat));
        }
        let ghost before_previews = previews.deep_view();
        let shown = show(&lines, start, end, &mut remaining, &mut cut);
        if shown.len() > 0 {
            let preview = Preview { start_line: start, end_line: end, lines: shown };
            let ghost view = preview.deep_view();
            previews.push(preview);
            assert(previews.deep_view() =~= before_previews.push(view));
        }
        i += 1;
    }
    let fully_shown = !cut && changed_start <= changed_end && previews_cover_range(
        &previews,
        changed_start,
        changed_end,
    );
    let mut content = Json::object4(
        "path",
        Json::text(path),
        "digest",
        Json::text(content_digest),
        "bytes",
        Json::count(text::byte_len(after)),
        "total_lines",
        Json::count(total_lines),
    );
    content.set_member("changed_line_start", Json::count(changed_start));
    content.set_member("changed_line_end", Json::count(changed_end));
    content.set_member("changed_lines_fully_shown", Json::boolean(fully_shown));
    content.set_member("previews", preview_values(&previews));
    content.set_member(
        "guidance",
        Json::text(
            if fully_shown {
                "This is current source from the isolated candidate after the mutation."
            } else {
                "Post-edit evidence is bounded. Use read_file with path and a narrow start_line/end_line range before relying on omitted changed source."
            },
        ),
    );
    content
}

/// The evidence of an edit that made `after` out of `before`, or out of nothing.
pub fn mutation_feedback(path: &str, before: Option<&str>, after: &str) -> (r: Json)
    requires
        after@.len() < usize::MAX,
    ensures
        r.deep_view() == feedback_json(
            path@,
            digest::blake3_hex(encode_utf8(after@)),
            match before {
                Some(b) => Some(b@),
                None => None,
            },
            after@,
        ),
{
    feedback_with_digest(path, digest::text_digest(after).as_str(), before, after)
}

} // verus!
