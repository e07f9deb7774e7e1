//! Laws of the evidence that tools return: what an edit changed, what a batch read, and
//! what was recalled.

use crate::json;
use crate::json::JsonView;
use crate::text;
use crate::tools::batch;
use crate::tools::batch::{BatchView, MemoryView};
use crate::tools::feedback;
use crate::tools::feedback::{LineView, PreviewView, Showing};
use crate::tools::patch::{AppliedView, PatchOperation, PatchView, MAX_PATCH_FILE_BYTES};
use crate::tools::patching;
use crate::tools::writing;
use crate::workspace::changes::ChangeView;
use vstd::prelude::*;
use vstd::utf8::*;

verus! {

/// How many line feeds stand among the first `n` characters.
pub open spec fn feeds_before(s: Seq<char>, n: int) -> nat
    decreases n,
{
    if n <= 0 {
        0
    } else if s[n - 1] == '\n' {
        feeds_before(s, n - 1) + 1
    } else {
        feeds_before(s, n - 1)
    }
}

proof fn lemma_feeds(s: Seq<char>, n: int)
    requires
        0 <= n <= s.len(),
    ensures
        feedback::line_feeds(s.take(n)) == feeds_before(s, n),
    decreases n,
{
    if n > 0 {
        lemma_feeds(s, n - 1);
        assert(s.take(n).drop_last() =~= s.take(n - 1));
    }
}

/// Whether two texts have `p` characters in common at their beginnings and, behind those,
/// `q` at their ends, and no more.
pub open spec fn in_common(a: Seq<char>, b: Seq<char>, p: int, q: int) -> bool {
    &&& 0 <= p && 0 <= q
    &&& p + q <= a.len() && p + q <= b.len()
    &&& forall|k: int| 0 <= k < p ==> #[trigger] a[k] == b[k]
    &&& forall|k: int| 1 <= k <= q ==> #[trigger] a[a.len() - k] == b[b.len() - k]
    &&& p < a.len() && p < b.len() ==> a[p] != b[p]
    &&& p + q < a.len() && p + q < b.len() ==> a[a.len() - 1 - q] != b[b.len() - 1 - q]
}

proof fn lemma_prefix(a: Seq<char>, b: Seq<char>, i: int)
    requires
        0 <= i <= a.len(),
        i <= b.len(),
        forall|k: int| 0 <= k < i ==> #[trigger] a[k] == b[k],
    ensures
        ({
            let p = feedback::prefix_from(a, b, i);
            &&& i <= p <= a.len() && p <= b.len()
            &&& forall|k: int| 0 <= k < p ==> #[trigger] a[k] == b[k]
            &&& p < a.len() && p < b.len() ==> a[p] != b[p]
        }),
    decreases a.len() - i,
{
    if i < a.len() && i < b.len() && a[i] == b[i] {
        lemma_prefix(a, b, i + 1);
    }
}

proof fn lemma_suffix(a: Seq<char>, b: Seq<char>, limit: int, k: int)
    requires
        0 <= k <= limit,
        limit <= a.len(),
        limit <= b.len(),
        forall|j: int| 1 <= j <= k ==> #[trigger] a[a.len() - j] == b[b.len() - j],
    ensures
        ({
            let q = feedback::suffix_from(a, b, limit, k);
            &&& k <= q <= limit
            &&& forall|j: int| 1 <= j <= q ==> #[trigger] a[a.len() - j] == b[b.len() - j]
            &&& q < limit ==> a[a.len() - 1 - q] != b[b.len() - 1 - q]
        }),
    decreases limit - k,
{
    if k < limit && a[a.len() - 1 - k] == b[b.len() - 1 - k] {
        assert forall|j: int| 1 <= j <= k + 1 implies #[trigger] a[a.len() - j] == b[b.len() - j] by {
            if j == k + 1 {
                assert(a[a.len() - 1 - k] == b[b.len() - 1 - k]);
            }
        }
        lemma_suffix(a, b, limit, k + 1);
    }
}

/// The changed lines are those in which the new text differs from the old one: the first
/// is the line in which what both have in common at their beginnings ends, and the last is
/// the line of the last character before what both have in common at their ends.
pub proof fn law_changed_lines_hold_the_change(before: Seq<char>, after: Seq<char>)
    requires
        before != after,
    ensures
        ({
            let (first, last) = feedback::changed_span(before, after);
            exists|p: int, q: int|
                #![trigger in_common(before, after, p, q)]
                in_common(before, after, p, q) && first == feeds_before(after, p) + 1 && last == (
                if p < after.len() - q {
                    feeds_before(after, after.len() - q - 1) + 1
                } else {
                    first
                })
        }),
{
    let p = feedback::prefix_from(before, after, 0);
    lemma_prefix(before, after, 0);
    let limit = feedback::smaller(before.len() as int, after.len() as int) - p;
    let q = feedback::suffix_from(before, after, limit, 0);
    lemma_suffix(before, after, limit, 0);
    assert(in_common(before, after, p, q));
    lemma_feeds(after, p);
    if p < after.len() - q {
        lemma_feeds(after, after.len() - q - 1);
        lemma_feeds_grow(after, p, after.len() - q - 1);
    }
}

proof fn lemma_feeds_grow(s: Seq<char>, a: int, b: int)
    requires
        0 <= a <= b,
    ensures
        feeds_before(s, a) <= feeds_before(s, b),
    decreases b - a,
{
    if a < b {
        lemma_feeds_grow(s, a, b - 1);
    }
}

/// Whether a shown line is the line of its number, or a beginning of it if it says that it
/// was cut.
pub open spec fn is_shown_of(l: LineView, lines: Seq<Seq<char>>) -> bool {
    &&& 1 <= l.line <= lines.len()
    &&& l.text.len() <= lines[l.line - 1].len()
    &&& l.text == lines[l.line - 1].take(l.text.len() as int)
    &&& l.text_truncated <==> l.text.len() < lines[l.line - 1].len()
}

spec fn run_of(shown: Seq<LineView>, lines: Seq<Seq<char>>, start: nat) -> bool {
    forall|k: int|
        0 <= k < shown.len() ==> is_shown_of(#[trigger] shown[k], lines) && shown[k].line == start
            + k
}

proof fn lemma_shown(lines: Seq<Seq<char>>, from: nat, end: nat, s: Showing, start: nat)
    requires
        run_of(s.lines, lines, start),
        from == start + s.lines.len(),
        1 <= start,
    ensures
        run_of(feedback::show_lines(lines, from, end, s).lines, lines, start),
    decreases end + 1 - from,
{
    if from <= end && from <= lines.len() && s.remaining > 0 {
        let limit = feedback::smaller(
            s.remaining as int,
            feedback::MAX_MUTATION_FEEDBACK_LINE_BYTES as int,
        ) as nat;
        let line = lines[from - 1];
        let shown = feedback::truncated_line(line, limit);
        feedback::lemma_truncated(line, limit);
        let next = LineView { line: from, text: shown.0, text_truncated: shown.1 };
        if shown.1 {
            if shown.0.len() == line.len() {
                assert(shown.0 =~= line);
            }
        } else {
            assert(line.take(line.len() as int) =~= line);
        }
        assert(is_shown_of(next, lines));
        let more = Showing {
            lines: s.lines.push(next),
            remaining: (s.remaining - text::utf8_len(shown.0)) as nat,
            cut: s.cut || shown.1,
        };
        assert(run_of(more.lines, lines, start));
        lemma_shown(lines, from + 1, end, more, start);
    }
}

/// Whether a preview shows lines that follow each other, as they are.
pub open spec fn is_preview_of(p: PreviewView, lines: Seq<Seq<char>>) -> bool {
    forall|k: int|
        0 <= k < p.lines.len() ==> is_shown_of(#[trigger] p.lines[k], lines) && p.lines[k].line
            == p.start_line + k
}

proof fn lemma_ranges_shown(lines: Seq<Seq<char>>, ranges: Seq<(nat, nat)>, count: int)
    requires
        0 <= count <= ranges.len(),
        forall|i: int| 0 <= i < ranges.len() ==> 1 <= (#[trigger] ranges[i]).0,
    ensures
        ({
            let e = feedback::show_ranges(lines, ranges, count);
            forall|i: int|
                0 <= i < e.previews.len() ==> is_preview_of(#[trigger] e.previews[i], lines)
        }),
    decreases count,
{
    if count > 0 {
        lemma_ranges_shown(lines, ranges, count - 1);
        let before = feedback::show_ranges(lines, ranges, count - 1);
        let e = feedback::show_ranges(lines, ranges, count);
        let (start, end) = ranges[count - 1];
        let none = Showing { lines: Seq::empty(), remaining: before.remaining, cut: before.cut };
        assert(run_of(none.lines, lines, start));
        lemma_shown(lines, start, end, none, start);
        assert forall|i: int| 0 <= i < e.previews.len() implies is_preview_of(
            #[trigger] e.previews[i],
            lines,
        ) by {
            if i < before.previews.len() {
                assert(e.previews[i] == before.previews[i]);
            }
        }
    }
}

/// What is shown after an edit are lines of the new text, each under its number, as they
/// are or cut at their end.
pub proof fn law_previews_show_the_new_text(before: Option<Seq<char>>, after: Seq<char>)
    ensures
        ({
            let f = feedback::feedback(before, after);
            &&& f.total_lines == text::lines_spec(after).len()
            &&& forall|i: int|
                0 <= i < f.previews.len() ==> is_preview_of(
                    #[trigger] f.previews[i],
                    text::lines_spec(after),
                )
        }),
{
    let f = feedback::feedback(before, after);
    let lines = text::lines_spec(after);
    let ranges = feedback::preview_ranges(f.changed_start, f.changed_end, lines.len());
    feedback::lemma_preview_ranges(f.changed_start, f.changed_end, lines.len());
    assert forall|i: int| 0 <= i < ranges.len() implies 1 <= (#[trigger] ranges[i]).0 by {}
    lemma_ranges_shown(lines, ranges, ranges.len() as int);
}

/// A change is shown with three lines before and three lines behind, as far as the file
/// has them; of more than eighty lines the first forty and the last forty are shown.
pub proof fn law_changes_are_shown_in_context(start: nat, end: nat, total: nat)
    requires
        1 <= start <= end <= total,
    ensures
        ({
            let from = if start > 3 {
                start - 3
            } else {
                1
            };
            let to = if end + 3 < total {
                end + 3
            } else {
                total
            };
            let ranges = feedback::preview_ranges(start, end, total);
            if to - from < 80 {
                ranges == seq![(from as nat, to as nat)]
            } else {
                ranges == seq![(from as nat, (from + 39) as nat), ((to - 39) as nat, to as nat)]
            }
        }),
{
}

proof fn lemma_names()
    ensures
        "path"@.len() == 4,
        "lines"@.len() == 5,
        "bytes"@.len() == 5,
        "files"@.len() == 5,
        "content"@.len() == 7,
        "changes"@.len() == 7,
        "total_bytes"@.len() == 11,
        "bytes_added"@.len() == 11,
        "after_digest"@.len() == 12,
        "before_digest"@.len() == 13,
        "bytes_removed"@.len() == 13,
        "after_unix_mode"@.len() == 15,
        "before_unix_mode"@.len() == 16,
        "lines"@ != "bytes"@,
        "before_digest"@ != "bytes_removed"@,
{
    reveal_strlit("path");
    reveal_strlit("lines");
    reveal_strlit("bytes");
    reveal_strlit("files");
    reveal_strlit("content");
    reveal_strlit("changes");
    reveal_strlit("total_bytes");
    reveal_strlit("bytes_added");
    reveal_strlit("after_digest");
    reveal_strlit("before_digest");
    reveal_strlit("bytes_removed");
    reveal_strlit("after_unix_mode");
    reveal_strlit("before_unix_mode");
    assert("lines"@[0] != "bytes"@[0]);
    assert("before_digest"@[1] != "bytes_removed"@[1]);
}

/// A batch takes over one more file behind the others: its path, its whole text, and how
/// many bytes it has. The others stay as they are.
pub proof fn law_batches_take_files_over_whole(
    b: BatchView,
    relative: Seq<char>,
    path: Seq<char>,
    bytes: Seq<u8>,
)
    ensures
        match batch::batch_with(b, relative, path, bytes) {
            Ok(next) => {
                &&& next.files.drop_last() == b.files
                &&& json::text_member(next.files.last(), "path"@) == Some(relative)
                &&& valid_utf8(bytes)
                &&& json::text_member(next.files.last(), "content"@) == Some(decode_utf8(bytes))
                &&& json::u64_member(next.files.last(), "bytes"@) == Some(bytes.len() as u64)
                &&& next.total_bytes == b.total_bytes + bytes.len()
                &&& bytes.len() <= 256 * 1024
                &&& next.total_bytes <= 1024 * 1024
            },
            Err(_) => !valid_utf8(bytes) || bytes.len() > 256 * 1024 || b.total_bytes + bytes.len()
                > 1024 * 1024,
        },
{
    lemma_names();
    if valid_utf8(bytes) {
        decode_utf8_encode_utf8(bytes);
    }
    match batch::batch_with(b, relative, path, bytes) {
        Ok(next) => {
            assert(next.files.drop_last() =~= b.files);
        },
        Err(_) => {},
    }
}

/// Whether a value is a text, or null for none.
pub open spec fn is_text_or_null(j: Option<JsonView>, t: Option<Seq<char>>) -> bool {
    j == Some(
        match t {
            Some(s) => JsonView::Text(s),
            None => JsonView::Null,
        },
    )
}

/// Whether a value is a number, or null for none.
pub open spec fn is_number_or_null(j: Option<JsonView>, n: Option<u32>) -> bool {
    match n {
        Some(m) => j matches Some(v) && json::u64_of(v) == Some(m as u64),
        None => j == Some(JsonView::Null),
    }
}

/// Whether a value tells a change.
pub open spec fn tells_change(j: JsonView, c: ChangeView) -> bool {
    &&& json::text_member(j, "path"@) == Some(c.path)
    &&& is_text_or_null(json::member(j, "before_digest"@), c.before_digest)
    &&& is_text_or_null(json::member(j, "after_digest"@), c.after_digest)
    &&& is_number_or_null(json::member(j, "before_unix_mode"@), c.before_unix_mode)
    &&& is_number_or_null(json::member(j, "after_unix_mode"@), c.after_unix_mode)
    &&& json::u64_member(j, "bytes_added"@) == Some(c.bytes_added)
    &&& json::u64_member(j, "bytes_removed"@) == Some(c.bytes_removed)
}

/// What the inspection of a transaction returns are its changes, each whole, and how many
/// there are.
pub proof fn law_inspections_tell_every_change(all: Seq<ChangeView>)
    requires
        all.len() <= u64::MAX,
    ensures
        ({
            let output = batch::changes_output(all);
            &&& json::array_member(output.content, "changes"@) matches Some(items)
            &&& items.len() == all.len()
            &&& forall|i: int| 0 <= i < all.len() ==> tells_change(#[trigger] items[i], all[i])
            &&& json::u64_member(output.content, "files"@) == Some(all.len() as u64)
        }),
{
    lemma_names();
    let items = all.map_values(|c: ChangeView| batch::change_json(c));
    assert forall|i: int| 0 <= i < all.len() implies tells_change(#[trigger] items[i], all[i]) by {
        assert(items[i] == batch::change_json(all[i]));
    }
}

/// One more memory is recalled behind the others if it may be shown and there is room, and
/// changes nothing else.
pub proof fn law_eligible_memories_are_recalled(items: Seq<MemoryView>, max: nat, count: int)
    requires
        0 <= count < items.len(),
    ensures
        ({
            let before = batch::eligible_memories(items, max, count);
            let now = batch::eligible_memories(items, max, count + 1);
            if items[count].eligible && before.len() < max {
                now.len() == before.len() + 1 && now.last() == items[count].memory
                    && now.drop_last() == before
            } else {
                now == before
            }
        }),
{
    let before = batch::eligible_memories(items, max, count);
    assert(before.push(items[count].memory).drop_last() =~= before);
}

proof fn lemma_more_names()
    ensures
        "path"@.len() == 4,
        "edits"@.len() == 5,
        "bytes"@.len() == 5,
        "digest"@.len() == 6,
        "previews"@.len() == 8,
        "guidance"@.len() == 8,
        "post_edit"@.len() == 9,
        "total_lines"@.len() == 11,
        "replacements"@.len() == 12,
        "result_bytes"@.len() == 12,
        "changed_line_end"@.len() == 16,
        "changed_line_start"@.len() == 18,
        "changed_lines_fully_shown"@.len() == 25,
        "edits"@ != "bytes"@,
        "previews"@ != "guidance"@,
        "replacements"@ != "result_bytes"@,
{
    reveal_strlit("path");
    reveal_strlit("edits");
    reveal_strlit("bytes");
    reveal_strlit("digest");
    reveal_strlit("previews");
    reveal_strlit("guidance");
    reveal_strlit("post_edit");
    reveal_strlit("total_lines");
    reveal_strlit("replacements");
    reveal_strlit("result_bytes");
    reveal_strlit("changed_line_end");
    reveal_strlit("changed_line_start");
    reveal_strlit("changed_lines_fully_shown");
    assert("edits"@[0] != "bytes"@[0]);
    assert("previews"@[0] != "guidance"@[0]);
    assert("replacements"@[2] != "result_bytes"@[2]);
}

/// The evidence of an edit names the file, its new digest and size, and the changed lines.
pub proof fn law_evidence_names_the_change(
    path: Seq<char>,
    content_digest: Seq<char>,
    before: Option<Seq<char>>,
    after: Seq<char>,
)
    requires
        text::utf8_len(after) <= u32::MAX,
        feedback::feedback(before, after).changed_start <= u64::MAX,
        feedback::feedback(before, after).changed_end <= u64::MAX,
    ensures
        ({
            let j = feedback::feedback_json(path, content_digest, before, after);
            let f = feedback::feedback(before, after);
            &&& json::text_member(j, "path"@) == Some(path)
            &&& json::text_member(j, "digest"@) == Some(content_digest)
            &&& json::u64_member(j, "bytes"@) == Some(text::utf8_len(after) as u64)
            &&& json::u64_member(j, "changed_line_start"@) == Some(f.changed_start as u64)
            &&& json::u64_member(j, "changed_line_end"@) == Some(f.changed_end as u64)
            &&& json::member(j, "changed_lines_fully_shown"@) == Some(
                JsonView::Bool(f.fully_shown),
            )
            &&& json::array_member(j, "previews"@) matches Some(previews)
            &&& previews.len() == f.previews.len()
        }),
{
    lemma_more_names();
}

/// What an edit returns names the file, its new digest and size, how many edits and
/// replacements were made, and the evidence of the change from the old to the new text.
pub proof fn law_edits_return_what_was_done(
    request: writing::EditFileView,
    content: Seq<char>,
    done: (Seq<char>, nat),
    content_digest: Seq<char>,
)
    requires
        text::utf8_len(done.0) <= u32::MAX,
        done.1 <= u64::MAX,
        request.edits.len() <= u64::MAX,
    ensures
        ({
            let output = writing::edit_output(request, content, done, content_digest);
            &&& output.succeeded
            &&& json::text_member(output.content, "path"@) == Some(request.path)
            &&& json::u64_member(output.content, "edits"@) == Some(request.edits.len() as u64)
            &&& json::u64_member(output.content, "replacements"@) == Some(done.1 as u64)
            &&& json::u64_member(output.content, "result_bytes"@) == Some(
                text::utf8_len(done.0) as u64,
            )
            &&& json::text_member(output.content, "digest"@) == Some(content_digest)
            &&& json::member(output.content, "post_edit"@) == Some(
                feedback::feedback_json(request.path, content_digest, Some(content), done.0),
            )
        }),
{
    lemma_more_names();
}

/// What a replacement returns names the file, its new digest and size, how many
/// replacements were made, and the evidence of the change from the old to the new text.
pub proof fn law_replacements_return_what_was_done(
    request: writing::ReplaceTextView,
    content: Seq<char>,
    done: (Seq<char>, nat),
    content_digest: Seq<char>,
)
    requires
        text::utf8_len(done.0) <= u32::MAX,
        done.1 <= u64::MAX,
    ensures
        ({
            let output = writing::replace_output(request, content, done, content_digest);
            &&& output.succeeded
            &&& json::text_member(output.content, "path"@) == Some(request.path)
            &&& json::u64_member(output.content, "replacements"@) == Some(done.1 as u64)
            &&& json::u64_member(output.content, "result_bytes"@) == Some(
                text::utf8_len(done.0) as u64,
            )
            &&& json::text_member(output.content, "digest"@) == Some(content_digest)
            &&& json::member(output.content, "post_edit"@) == Some(
                feedback::feedback_json(request.path, content_digest, Some(content), done.0),
            )
        }),
{
    lemma_more_names();
}

/// What a write returns names the file, the digest and the size of what was written, and
/// the evidence of a file made out of nothing.
pub proof fn law_writes_return_what_was_done(
    request: writing::WriteFileView,
    content_digest: Seq<char>,
)
    requires
        text::utf8_len(request.content) <= u32::MAX,
    ensures
        ({
            let output = writing::write_output(request, content_digest);
            &&& output.succeeded
            &&& json::text_member(output.content, "path"@) == Some(request.path)
            &&& json::text_member(output.content, "digest"@) == Some(content_digest)
            &&& json::u64_member(output.content, "bytes"@) == Some(
                text::utf8_len(request.content) as u64,
            )
            &&& json::member(output.content, "post_edit"@) == Some(
                feedback::feedback_json(request.path, content_digest, None, request.content),
            )
        }),
{
    lemma_more_names();
}

proof fn lemma_patch_names()
    ensures
        "hunks"@.len() == 5,
        "operation"@.len() == 9,
        "operation"@ != "post_edit"@,
        "lines_added"@.len() == 11,
        "lines_removed"@.len() == 13,
        "exists_in_candidate"@.len() == 19,
{
    reveal_strlit("hunks");
    reveal_strlit("operation");
    reveal_strlit("post_edit");
    reveal_strlit("lines_added");
    reveal_strlit("lines_removed");
    reveal_strlit("exists_in_candidate");
    assert("operation"@[0] != "post_edit"@[0]);
}

/// What a patch returns names the file, what was done to it, how many hunks it has and how
/// many lines came and went, and the size of the new content. A file that is still there
/// has the digest and the evidence of its new content, and a removed one has neither.
pub proof fn law_patches_return_what_was_done(
    patch: PatchView,
    original: Seq<char>,
    applied: AppliedView,
    content_digest: Seq<char>,
)
    requires
        patch.hunks.len() <= u64::MAX,
        applied.lines_added <= u64::MAX,
        applied.lines_removed <= u64::MAX,
        text::utf8_len(applied.text) <= u64::MAX,
    ensures
        ({
            let output = patching::patch_output(patch, original, applied, content_digest);
            let content = output.content;
            let removed = patch.operation is Delete;
            &&& output.succeeded
            &&& !output.truncated
            &&& output.observed_effects == seq![
                (if removed {
                    "fs.delete:"@
                } else {
                    "fs.write:"@
                }) + patch.path,
            ]
            &&& json::text_member(content, "path"@) == Some(patch.path)
            &&& json::text_member(content, "operation"@) == Some(
                match patch.operation {
                    PatchOperation::Add => "add"@,
                    PatchOperation::Update => "update"@,
                    PatchOperation::Delete => "delete"@,
                },
            )
            &&& json::u64_member(content, "hunks"@) == Some(patch.hunks.len() as u64)
            &&& json::u64_member(content, "lines_added"@) == Some(applied.lines_added as u64)
            &&& json::u64_member(content, "lines_removed"@) == Some(applied.lines_removed as u64)
            &&& json::u64_member(content, "result_bytes"@) == Some(
                text::utf8_len(applied.text) as u64,
            )
            &&& json::member(content, "exists_in_candidate"@) == Some(JsonView::Bool(!removed))
            &&& !removed ==> json::text_member(content, "digest"@) == Some(content_digest)
            &&& !removed ==> json::member(content, "post_edit"@) == Some(
                feedback::feedback_json(patch.path, content_digest, Some(original), applied.text),
            )
            &&& removed ==> json::member(content, "digest"@) == Some(JsonView::Null)
            &&& removed ==> json::member(content, "post_edit"@) == Some(JsonView::Null)
        }),
{
    lemma_more_names();
    lemma_patch_names();
}

/// A patch that adds a file starts from nothing, and only where no file is. Any other starts
/// from the whole text of the file, if that is UTF-8 and not too large.
pub proof fn law_patches_start_from_the_file(
    patch: PatchView,
    there: bool,
    path: Seq<char>,
    bytes: Seq<u8>,
)
    ensures
        ({
            let start = patching::starting_text(patch, there, path, bytes);
            &&& patch.operation is Add ==> (start is Ok <==> !there)
            &&& patch.operation is Add ==> (start matches Ok(t) ==> t.len() == 0)
            &&& !(patch.operation is Add) ==> (start is Ok <==> valid_utf8(bytes) && bytes.len()
                <= MAX_PATCH_FILE_BYTES)
            &&& !(patch.operation is Add) ==> (start matches Ok(t) ==> encode_utf8(t) == bytes)
        }),
{
    if valid_utf8(bytes) {
        decode_utf8_encode_utf8(bytes);
    }
}

} // verus!
