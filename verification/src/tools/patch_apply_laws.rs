//! Laws of applying a patch: each hunk is applied where it says, and all else is kept.

use crate::text;
use crate::tools::patch;
use crate::tools::patch::{HunkLineView, HunkView, PatchOperation, PatchView, ProgressView};
use crate::tools::patch_laws;
use vstd::prelude::*;

verus! {

/// The lines of a hunk that the source holds: those that are kept and those that are
/// removed.
pub open spec fn before_lines(lines: Seq<HunkLineView>) -> Seq<Seq<char>>
    decreases lines.len(),
{
    if lines.len() == 0 {
        Seq::empty()
    } else {
        let before = before_lines(lines.drop_last());
        match lines.last() {
            HunkLineView::Context(t) => before.push(t),
            HunkLineView::Remove(t) => before.push(t),
            HunkLineView::Add(_) => before,
        }
    }
}

/// The lines of a hunk that the patched file holds: those that are kept and those that are
/// added.
pub open spec fn after_lines(lines: Seq<HunkLineView>) -> Seq<Seq<char>>
    decreases lines.len(),
{
    if lines.len() == 0 {
        Seq::empty()
    } else {
        let before = after_lines(lines.drop_last());
        match lines.last() {
            HunkLineView::Context(t) => before.push(t),
            HunkLineView::Add(t) => before.push(t),
            HunkLineView::Remove(_) => before,
        }
    }
}

/// How many lines the first `n` hunks add.
pub open spec fn added_lines(hunks: Seq<HunkView>, n: int) -> nat
    decreases n,
{
    if n <= 0 {
        0
    } else {
        added_lines(hunks, n - 1) + hunks[n - 1].lines.filter(|l: HunkLineView| l is Add).len()
    }
}

/// How many lines the first `n` hunks remove.
pub open spec fn removed_lines(hunks: Seq<HunkView>, n: int) -> nat
    decreases n,
{
    if n <= 0 {
        0
    } else {
        removed_lines(hunks, n - 1) + hunks[n - 1].lines.filter(
            |l: HunkLineView| l is Remove,
        ).len()
    }
}

/// The first `n` gaps and hunks, one behind the other, on one side.
pub open spec fn woven(
    hunks: Seq<HunkView>,
    gaps: Seq<Seq<Seq<char>>>,
    before: bool,
    n: int,
) -> Seq<Seq<char>>
    decreases n,
{
    if n <= 0 {
        Seq::empty()
    } else {
        woven(hunks, gaps, before, n - 1) + gaps[n - 1] + (if before {
            before_lines(hunks[n - 1].lines)
        } else {
            after_lines(hunks[n - 1].lines)
        })
    }
}

/// The number of lines before the range that a header names: an empty range names the
/// line behind which it stands, any other its first line.
pub open spec fn lines_before(start: nat, count: nat) -> int {
    if count == 0 {
        start as int
    } else {
        start - 1
    }
}

/// Whether the hunks stand, on both sides, where their headers say.
pub open spec fn stand_where_they_say(hunks: Seq<HunkView>, gaps: Seq<Seq<Seq<char>>>) -> bool {
    forall|i: int|
        0 <= i < hunks.len() ==> {
            let h = #[trigger] hunks[i];
            &&& woven(hunks, gaps, true, i).len() + gaps[i].len() == lines_before(
                h.old_start,
                h.old_count,
            )
            &&& woven(hunks, gaps, false, i).len() + gaps[i].len() == lines_before(
                h.new_start,
                h.new_count,
            )
        }
}

proof fn lemma_sides(lines: Seq<HunkLineView>)
    ensures
        before_lines(lines) == patch::old_side(lines),
        after_lines(lines) == patch::new_side(lines),
    decreases lines.len(),
{
    if lines.len() > 0 {
        lemma_sides(lines.drop_last());
    }
}

proof fn lemma_woven_prefix(
    hunks: Seq<HunkView>,
    gaps: Seq<Seq<Seq<char>>>,
    gap: Seq<Seq<char>>,
    before: bool,
    n: int,
)
    requires
        0 <= n <= gaps.len(),
    ensures
        woven(hunks, gaps.push(gap), before, n) == woven(hunks, gaps, before, n),
    decreases n,
{
    if n > 0 {
        lemma_woven_prefix(hunks, gaps, gap, before, n - 1);
        assert(gaps.push(gap)[n - 1] == gaps[n - 1]);
    }
}

spec fn stand_below(hunks: Seq<HunkView>, gaps: Seq<Seq<Seq<char>>>, n: int) -> bool {
    forall|i: int|
        0 <= i < n ==> {
            let h = #[trigger] hunks[i];
            &&& woven(hunks, gaps, true, i).len() + gaps[i].len() == lines_before(
                h.old_start,
                h.old_count,
            )
            &&& woven(hunks, gaps, false, i).len() + gaps[i].len() == lines_before(
                h.new_start,
                h.new_count,
            )
        }
}

proof fn lemma_one_hunk(h: HunkView, hunk: nat, source: Seq<Seq<char>>, at: ProgressView)
    requires
        at.cursor <= source.len(),
        patch::apply_hunk_spec(h, hunk, source, at) is Ok,
    ensures
        ({
            let next = patch::apply_hunk_spec(h, hunk, source, at)->Ok_0;
            let from = lines_before(h.old_start, h.old_count);
            let gap = source.subrange(at.cursor as int, from);
            &&& at.cursor <= from <= next.cursor <= source.len()
            &&& at.output.len() + gap.len() == lines_before(h.new_start, h.new_count)
            &&& source.take(next.cursor as int) == source.take(at.cursor as int) + gap
                + before_lines(h.lines)
            &&& next.output == at.output + gap + after_lines(h.lines)
        }),
{
    let from = lines_before(h.old_start, h.old_count);
    let gap = source.subrange(at.cursor as int, from);
    let start = ProgressView { output: at.output + gap, cursor: from as nat };
    let next = patch::apply_hunk_spec(h, hunk, source, at)->Ok_0;
    assert(patch::old_side(h.lines.take(0)) =~= Seq::<Seq<char>>::empty());
    assert(patch::new_side(h.lines.take(0)) =~= Seq::<Seq<char>>::empty());
    assert(source.subrange(from, from) =~= patch::old_side(h.lines.take(0)));
    assert(start.output =~= start.output + patch::new_side(h.lines.take(0)));
    patch_laws::lemma_hunk_lines(h.lines, 0, source, hunk, start, start);
    lemma_sides(h.lines);
    assert(source.take(next.cursor as int) =~= source.take(at.cursor as int) + gap + source.subrange(
        from,
        next.cursor as int,
    ));
}

proof fn lemma_stand_step(
    hunks: Seq<HunkView>,
    gaps: Seq<Seq<Seq<char>>>,
    gap: Seq<Seq<char>>,
    i: int,
)
    requires
        0 <= i < hunks.len(),
        gaps.len() == i,
        stand_below(hunks, gaps, i),
        woven(hunks, gaps, true, i).len() + gap.len() == lines_before(
            hunks[i].old_start,
            hunks[i].old_count,
        ),
        woven(hunks, gaps, false, i).len() + gap.len() == lines_before(
            hunks[i].new_start,
            hunks[i].new_count,
        ),
    ensures
        stand_below(hunks, gaps.push(gap), i + 1),
{
    let more = gaps.push(gap);
    assert forall|j: int| 0 <= j < i + 1 implies ({
        let h = #[trigger] hunks[j];
        &&& woven(hunks, more, true, j).len() + more[j].len() == lines_before(
            h.old_start,
            h.old_count,
        )
        &&& woven(hunks, more, false, j).len() + more[j].len() == lines_before(
            h.new_start,
            h.new_count,
        )
    }) by {
        lemma_woven_prefix(hunks, gaps, gap, true, j);
        lemma_woven_prefix(hunks, gaps, gap, false, j);
        if j < i {
            assert(more[j] == gaps[j]);
        } else {
            assert(more[j] == gap);
        }
    }
}

proof fn lemma_woven(
    hunks: Seq<HunkView>,
    i: int,
    source: Seq<Seq<char>>,
    at: ProgressView,
    gaps: Seq<Seq<Seq<char>>>,
) -> (all: Seq<Seq<Seq<char>>>)
    requires
        0 <= i <= hunks.len(),
        gaps.len() == i,
        at.cursor <= source.len(),
        woven(hunks, gaps, true, i) == source.take(at.cursor as int),
        woven(hunks, gaps, false, i) == at.output,
        stand_below(hunks, gaps, i),
        patch::apply_hunks_spec(hunks, i, source, at) is Ok,
    ensures
        all.len() == hunks.len(),
        stand_below(hunks, all, hunks.len() as int),
        ({
            let end = patch::apply_hunks_spec(hunks, i, source, at)->Ok_0;
            &&& end.cursor <= source.len()
            &&& woven(hunks, all, true, hunks.len() as int) == source.take(end.cursor as int)
            &&& woven(hunks, all, false, hunks.len() as int) == end.output
        }),
    decreases hunks.len() - i,
{
    if i == hunks.len() {
        gaps
    } else {
        let h = hunks[i];
        let next = patch::apply_hunk_spec(h, (i + 1) as nat, source, at)->Ok_0;
        let gap = source.subrange(at.cursor as int, lines_before(h.old_start, h.old_count));
        let more = gaps.push(gap);
        lemma_one_hunk(h, (i + 1) as nat, source, at);
        lemma_stand_step(hunks, gaps, gap, i);
        lemma_woven_prefix(hunks, gaps, gap, true, i);
        lemma_woven_prefix(hunks, gaps, gap, false, i);
        assert(more[i] == gap);
        assert(woven(hunks, more, true, i + 1) == source.take(next.cursor as int));
        assert(woven(hunks, more, false, i + 1) == next.output);
        lemma_woven(hunks, i + 1, source, next, more)
    }
}

/// Lines with a line ending between, and one behind the last if the text ends with one.
pub open spec fn put_together(lines: Seq<Seq<char>>, ending: Seq<char>, ended: bool) -> Seq<char>
    decreases lines.len(),
{
    if lines.len() == 0 {
        Seq::empty()
    } else if lines.len() == 1 {
        if ended {
            lines[0] + ending
        } else {
            lines[0]
        }
    } else {
        put_together(lines.drop_last(), ending, true) + (if ended {
            lines.last() + ending
        } else {
            lines.last()
        })
    }
}

proof fn lemma_put_together(lines: Seq<Seq<char>>, ending: Seq<char>, ended: bool)
    ensures
        put_together(lines, ending, ended) == (if ended && lines.len() > 0 {
            text::join_spec(lines, ending) + ending
        } else {
            text::join_spec(lines, ending)
        }),
    decreases lines.len(),
{
    if lines.len() > 1 {
        lemma_put_together(lines.drop_last(), ending, true);
        let front = text::join_spec(lines.drop_last(), ending) + ending;
        assert(front + (lines.last() + ending) =~= front + lines.last() + ending);
    }
}

/// How the lines of a text end.
pub open spec fn ending_of(source: Seq<char>) -> Seq<char> {
    if exists|i: int| 1 <= i < source.len() && source[i] == '\n' && #[trigger] source[i - 1] == '\r' {
        seq!['\r', '\n']
    } else {
        seq!['\n']
    }
}

/// Whether the patched file ends with a line ending: not if it is empty or a hunk says
/// so; else if the file is new or the last hunk reaches its end, and otherwise as before.
pub open spec fn is_ended(
    p: PatchView,
    source: Seq<char>,
    output: Seq<Seq<char>>,
    reaches_end: bool,
) -> bool {
    &&& output.len() > 0
    &&& forall|i: int| 0 <= i < p.hunks.len() ==> !(#[trigger] p.hunks[i]).new_no_newline
    &&& p.operation == PatchOperation::Add || reaches_end || (source.len() > 0 && source.last()
        == '\n')
}

proof fn lemma_layout(p: PatchView, source: Seq<char>) -> (gaps: Seq<Seq<Seq<char>>>)
    requires
        patch::apply_spec(p, source) is Ok,
    ensures
        ({
            let lines = patch::document_spec(source)->Ok_0.lines;
            let start = ProgressView { output: Seq::empty(), cursor: 0 };
            let end = patch::apply_hunks_spec(p.hunks, 0, lines, start)->Ok_0;
            let n = p.hunks.len() as int;
            &&& gaps.len() == n + 1
            &&& stand_where_they_say(p.hunks, gaps)
            &&& woven(p.hunks, gaps, true, n) + gaps[n] == lines
            &&& woven(p.hunks, gaps, false, n) == end.output
            &&& gaps[n] == lines.skip(end.cursor as int)
            &&& end.cursor <= lines.len()
        }),
{
    let lines = patch::document_spec(source)->Ok_0.lines;
    let start = ProgressView { output: Seq::empty(), cursor: 0 };
    let n = p.hunks.len() as int;
    assert(lines.take(0) =~= Seq::<Seq<char>>::empty());
    let part = lemma_woven(p.hunks, 0, lines, start, Seq::empty());
    let end = patch::apply_hunks_spec(p.hunks, 0, lines, start)->Ok_0;
    let tail = lines.skip(end.cursor as int);
    let gaps = part.push(tail);
    lemma_woven_prefix(p.hunks, part, tail, true, n);
    lemma_woven_prefix(p.hunks, part, tail, false, n);
    assert(lines.take(end.cursor as int) + tail =~= lines);
    assert forall|i: int| 0 <= i < p.hunks.len() implies ({
        let h = #[trigger] p.hunks[i];
        &&& woven(p.hunks, gaps, true, i).len() + gaps[i].len() == lines_before(
            h.old_start,
            h.old_count,
        )
        &&& woven(p.hunks, gaps, false, i).len() + gaps[i].len() == lines_before(
            h.new_start,
            h.new_count,
        )
    }) by {
        lemma_woven_prefix(p.hunks, part, tail, true, i);
        lemma_woven_prefix(p.hunks, part, tail, false, i);
        assert(gaps[i] == part[i]);
    }
    gaps
}

proof fn lemma_result(p: PatchView, source: Seq<char>)
    requires
        patch::apply_spec(p, source) is Ok,
    ensures
        ({
            let lines = patch::document_spec(source)->Ok_0.lines;
            let start = ProgressView { output: Seq::empty(), cursor: 0 };
            let end = patch::apply_hunks_spec(p.hunks, 0, lines, start)->Ok_0;
            let output = end.output + lines.skip(end.cursor as int);
            patch::apply_spec(p, source)->Ok_0.text == put_together(
                output,
                ending_of(source),
                is_ended(p, source, output, end.cursor == lines.len()),
            )
        }),
{
    let document = patch::document_spec(source)->Ok_0;
    let start = ProgressView { output: Seq::empty(), cursor: 0 };
    let end = patch::apply_hunks_spec(p.hunks, 0, document.lines, start)->Ok_0;
    let output = end.output + document.lines.skip(end.cursor as int);
    let reaches = end.cursor == document.lines.len();
    let newline = patch::final_newline(p, document, output, reaches);
    lemma_document_end(source);
    if patch::says_no_newline(p.hunks) {
        let i = choose|i: int| 0 <= i < p.hunks.len() && (#[trigger] p.hunks[i]).new_no_newline;
        assert(p.hunks[i].new_no_newline);
    }
    assert(newline == is_ended(p, source, output, reaches));
    lemma_put_together(output, document.line_ending.value_spec(), newline);
}

/// Whether a patched file is what the patch makes of the source, with the given lines
/// kept.
pub open spec fn is_made_of(
    made: Seq<char>,
    p: PatchView,
    source: Seq<char>,
    gaps: Seq<Seq<Seq<char>>>,
) -> bool {
    let n = p.hunks.len() as int;
    let output = woven(p.hunks, gaps, false, n) + gaps[n];
    &&& gaps.len() == n + 1
    &&& stand_where_they_say(p.hunks, gaps)
    &&& woven(p.hunks, gaps, true, n) + gaps[n] == patch::document_spec(source)->Ok_0.lines
    &&& made == put_together(
        output,
        ending_of(source),
        is_ended(p, source, output, gaps[n].len() == 0),
    )
}

/// A patch that applies is applied as it is written: the source is made of kept lines and
/// of the lines that the hunks expect, each hunk where its header says; the patched file is
/// made of the same kept lines and of the lines that the hunks leave, again where their
/// headers say. Its lines end as those of the source do.
pub proof fn law_patches_apply_as_written(p: PatchView, source: Seq<char>)
    requires
        patch::apply_spec(p, source) is Ok,
    ensures
        exists|gaps: Seq<Seq<Seq<char>>>|
            is_made_of(patch::apply_spec(p, source)->Ok_0.text, p, source, gaps),
{
    let gaps = lemma_layout(p, source);
    lemma_result(p, source);
    assert(is_made_of(patch::apply_spec(p, source)->Ok_0.text, p, source, gaps));
}

proof fn lemma_document_end(source: Seq<char>)
    requires
        patch::document_spec(source) is Ok,
    ensures
        ({
            let d = patch::document_spec(source)->Ok_0;
            &&& d.line_ending.value_spec() == ending_of(source)
            &&& d.ends_with_newline <==> source.len() > 0 && source.last() == '\n'
        }),
{
    reveal_strlit("\n");
    reveal_strlit("\r\n");
    assert("\n"@ =~= seq!['\n']);
    assert("\r\n"@ =~= seq!['\r', '\n']);
    if patch::has_crlf(source) {
        let i = choose|i: int| patch::crlf_at(source, i);
        assert(source[i - 1] == '\r' || source[i] == '\r');
    }
    if exists|i: int| 1 <= i < source.len() && source[i] == '\n' && #[trigger] source[i - 1] == '\r' {
        let i = choose|i: int| 1 <= i < source.len() && source[i] == '\n' && #[trigger] source[i - 1] == '\r';
        assert(patch::crlf_at(source, i) || patch::crlf_at(source, i - 1));
    }
}

proof fn lemma_counted(lines: Seq<HunkLineView>)
    ensures
        patch::added(lines) == lines.filter(|l: HunkLineView| l is Add).len(),
        patch::removed(lines) == lines.filter(|l: HunkLineView| l is Remove).len(),
    decreases lines.len(),
{
    reveal(Seq::filter);
    if lines.len() > 0 {
        lemma_counted(lines.drop_last());
    }
}

proof fn lemma_totals(hunks: Seq<HunkView>, n: int)
    requires
        0 <= n <= hunks.len(),
    ensures
        patch::total_added(hunks, n) == added_lines(hunks, n),
        patch::total_removed(hunks, n) == removed_lines(hunks, n),
    decreases n,
{
    if n > 0 {
        lemma_totals(hunks, n - 1);
        lemma_counted(hunks[n - 1].lines);
    }
}

/// What a patch is said to have added and removed are the lines that its hunks add and
/// remove.
pub proof fn law_changed_lines_are_counted(p: PatchView, source: Seq<char>)
    requires
        patch::apply_spec(p, source) is Ok,
    ensures
        patch::apply_spec(p, source)->Ok_0.lines_added == added_lines(
            p.hunks,
            p.hunks.len() as int,
        ),
        patch::apply_spec(p, source)->Ok_0.lines_removed == removed_lines(
            p.hunks,
            p.hunks.len() as int,
        ),
{
    lemma_totals(p.hunks, p.hunks.len() as int);
}

} // verus!
