//! What undoes a patch: the patch with its two sides exchanged.

use crate::text;
use crate::tools::error::ToolFault;
use crate::tools::patch;
use crate::tools::patch::{
    DocumentView, HunkLineView, HunkView, LineEnding, PatchOperation, PatchView, ProgressView,
    ScanView, MAX_PATCH_FILE_BYTES,
};
use crate::tools::patch_laws;
use vstd::prelude::*;

verus! {

/// A hunk line seen from the other side.
pub open spec fn exchanged_line(line: HunkLineView) -> HunkLineView {
    match line {
        HunkLineView::Context(t) => HunkLineView::Context(t),
        HunkLineView::Remove(t) => HunkLineView::Add(t),
        HunkLineView::Add(t) => HunkLineView::Remove(t),
    }
}

/// A hunk with its sides exchanged.
pub open spec fn exchanged_hunk(h: HunkView) -> HunkView {
    HunkView {
        old_start: h.new_start,
        old_count: h.new_count,
        new_start: h.old_start,
        new_count: h.old_count,
        lines: h.lines.map_values(|l: HunkLineView| exchanged_line(l)),
        new_no_newline: h.new_no_newline,
    }
}

/// A patch with its sides exchanged.
pub open spec fn exchanged(p: PatchView) -> PatchView {
    PatchView {
        path: p.path,
        operation: p.operation,
        hunks: p.hunks.map_values(|h: HunkView| exchanged_hunk(h)),
    }
}

proof fn lemma_exchanged_sides(lines: Seq<HunkLineView>)
    ensures
        ({
            let other = lines.map_values(|l: HunkLineView| exchanged_line(l));
            &&& patch::old_side(other) == patch::new_side(lines)
            &&& patch::new_side(other) == patch::old_side(lines)
            &&& patch::added(other) == patch::removed(lines)
            &&& patch::removed(other) == patch::added(lines)
        }),
    decreases lines.len(),
{
    let other = lines.map_values(|l: HunkLineView| exchanged_line(l));
    if lines.len() > 0 {
        lemma_exchanged_sides(lines.drop_last());
        assert(other.drop_last() =~= lines.drop_last().map_values(
            |l: HunkLineView| exchanged_line(l),
        ));
        assert(other.last() == exchanged_line(lines.last()));
    }
}

proof fn lemma_exchanged_totals(hunks: Seq<HunkView>, count: int)
    requires
        0 <= count <= hunks.len(),
    ensures
        ({
            let others = hunks.map_values(|h: HunkView| exchanged_hunk(h));
            &&& patch::total_added(others, count) == patch::total_removed(hunks, count)
            &&& patch::total_removed(others, count) == patch::total_added(hunks, count)
        }),
    decreases count,
{
    if count > 0 {
        lemma_exchanged_totals(hunks, count - 1);
        lemma_exchanged_sides(hunks[count - 1].lines);
    }
}

/// The old side of the first lines stands at the front of the whole old side.
proof fn lemma_old_side_front(lines: Seq<HunkLineView>, k: int)
    requires
        0 <= k <= lines.len(),
    ensures
        patch::old_side(lines.take(k)).len() <= patch::old_side(lines).len(),
        patch::old_side(lines).take(patch::old_side(lines.take(k)).len() as int)
            == patch::old_side(lines.take(k)),
    decreases lines.len() - k,
{
    if k == lines.len() {
        assert(lines.take(k) =~= lines);
        assert(patch::old_side(lines).take(patch::old_side(lines).len() as int)
            =~= patch::old_side(lines));
    } else {
        lemma_old_side_front(lines, k + 1);
        patch_laws::lemma_take_sides(lines, k);
        let shorter = patch::old_side(lines.take(k));
        assert(patch::old_side(lines).take(shorter.len() as int) =~= patch::old_side(
            lines.take(k + 1),
        ).take(shorter.len() as int));
        assert(patch::old_side(lines.take(k + 1)).take(shorter.len() as int) =~= shorter);
    }
}

/// A hunk whose old side the source holds reads it and writes its new side.
proof fn lemma_hunk_lines_succeed(
    lines: Seq<HunkLineView>,
    k: int,
    source: Seq<Seq<char>>,
    hunk: nat,
    start: ProgressView,
    at: ProgressView,
)
    requires
        0 <= k <= lines.len(),
        start.cursor + patch::old_side(lines).len() <= source.len(),
        source.subrange(
            start.cursor as int,
            (start.cursor + patch::old_side(lines).len()) as int,
        ) == patch::old_side(lines),
        at.cursor == start.cursor + patch::old_side(lines.take(k)).len(),
        at.output == start.output + patch::new_side(lines.take(k)),
    ensures
        patch::hunk_lines_spec(lines, k, source, hunk, at) == Ok::<ProgressView, ToolFault>(
            ProgressView {
                output: start.output + patch::new_side(lines),
                cursor: start.cursor + patch::old_side(lines).len(),
            },
        ),
    decreases lines.len() - k,
{
    if k == lines.len() {
        assert(lines.take(k) =~= lines);
    } else {
        patch_laws::lemma_take_sides(lines, k);
        lemma_old_side_front(lines, k);
        lemma_old_side_front(lines, k + 1);
        let before = patch::old_side(lines.take(k)).len() as int;
        let all = patch::old_side(lines);
        let next = match lines[k] {
            HunkLineView::Context(t) => ProgressView {
                output: at.output.push(t),
                cursor: at.cursor + 1,
            },
            HunkLineView::Remove(t) => ProgressView { output: at.output, cursor: at.cursor + 1 },
            HunkLineView::Add(t) => ProgressView { output: at.output.push(t), cursor: at.cursor },
        };
        if !(lines[k] is Add) {
            let t = patch::old_side(lines.take(k + 1))[before];
            assert(all.take(before + 1)[before] == t);
            assert(source.subrange(start.cursor as int, (start.cursor + all.len()) as int)[before]
                == source[start.cursor + before]);
            assert(source[at.cursor as int] == t);
        }
        assert(next.output =~= start.output + patch::new_side(lines.take(k + 1)));
        lemma_hunk_lines_succeed(lines, k + 1, source, hunk, start, next);
    }
}

/// Where one hunk led from the source to the output, the exchanged hunk leads back.
proof fn lemma_hunk_back(
    h: HunkView,
    hunk: nat,
    source: Seq<Seq<char>>,
    at: ProgressView,
    target: Seq<Seq<char>>,
)
    requires
        at.cursor <= source.len(),
        patch::apply_hunk_spec(h, hunk, source, at) is Ok,
        ({
            let next = patch::apply_hunk_spec(h, hunk, source, at)->Ok_0;
            next.output.len() <= target.len() && target.take(next.output.len() as int)
                == next.output
        }),
    ensures
        ({
            let next = patch::apply_hunk_spec(h, hunk, source, at)->Ok_0;
            &&& at.cursor <= next.cursor <= source.len()
            &&& at.output.len() <= next.output.len()
            &&& next.output.take(at.output.len() as int) == at.output
            &&& patch::apply_hunk_spec(
                exchanged_hunk(h),
                hunk,
                target,
                ProgressView {
                    output: source.take(at.cursor as int),
                    cursor: at.output.len(),
                },
            ) == Ok::<ProgressView, ToolFault>(
                ProgressView {
                    output: source.take(next.cursor as int),
                    cursor: next.output.len(),
                },
            )
        }),
{
    let other = exchanged_hunk(h);
    let next = patch::apply_hunk_spec(h, hunk, source, at)->Ok_0;
    let old_index = patch::range_index_spec(h.old_start, h.old_count, "old"@, hunk)->Ok_0;
    let new_index = patch::range_index_spec(h.new_start, h.new_count, "new"@, hunk)->Ok_0;
    let gap = source.subrange(at.cursor as int, old_index as int);
    let kept = at.output + gap;
    let start = ProgressView { output: kept, cursor: old_index };
    assert(patch::old_side(h.lines.take(0)) =~= Seq::<Seq<char>>::empty());
    assert(patch::new_side(h.lines.take(0)) =~= Seq::<Seq<char>>::empty());
    assert(source.subrange(old_index as int, old_index as int) =~= patch::old_side(
        h.lines.take(0),
    ));
    assert(start.output =~= start.output + patch::new_side(h.lines.take(0)));
    patch_laws::lemma_hunk_lines(h.lines, 0, source, hunk, start, start);
    assert(next.output.take(at.output.len() as int) =~= at.output);
    lemma_exchanged_sides(h.lines);
    let back = ProgressView { output: source.take(old_index as int), cursor: new_index };
    assert(forall|i: int| 0 <= i < next.output.len() ==> target[i] == next.output[i]) by {
        assert forall|i: int| 0 <= i < next.output.len() implies target[i] == next.output[i] by {
            assert(target.take(next.output.len() as int)[i] == target[i]);
        }
    }
    assert(source.take(at.cursor as int) + target.subrange(
        at.output.len() as int,
        new_index as int,
    ) =~= source.take(old_index as int));
    assert(target.subrange(
        new_index as int,
        (new_index + patch::new_side(h.lines).len()) as int,
    ) =~= patch::new_side(h.lines));
    assert(patch::old_side(other.lines.take(0)) =~= Seq::<Seq<char>>::empty());
    assert(patch::new_side(other.lines.take(0)) =~= Seq::<Seq<char>>::empty());
    assert(back.output =~= back.output + patch::new_side(other.lines.take(0)));
    lemma_hunk_lines_succeed(other.lines, 0, target, hunk, back, back);
    assert(source.take(old_index as int) + patch::old_side(h.lines) =~= source.take(
        next.cursor as int,
    )) by {
        assert forall|i: int| old_index <= i < next.cursor implies source[i] == patch::old_side(
            h.lines,
        )[i - old_index] by {
            assert(source.subrange(old_index as int, next.cursor as int)[i - old_index]
                == source[i]);
        }
    }
}

/// Where the hunks led from the source to the output, the exchanged hunks lead back.
proof fn lemma_hunks_back(
    hunks: Seq<HunkView>,
    i: int,
    source: Seq<Seq<char>>,
    at: ProgressView,
    target: Seq<Seq<char>>,
)
    requires
        0 <= i <= hunks.len(),
        at.cursor <= source.len(),
        patch::apply_hunks_spec(hunks, i, source, at) is Ok,
        ({
            let end = patch::apply_hunks_spec(hunks, i, source, at)->Ok_0;
            end.output.len() <= target.len() && target.take(end.output.len() as int) == end.output
        }),
    ensures
        ({
            let end = patch::apply_hunks_spec(hunks, i, source, at)->Ok_0;
            &&& at.cursor <= end.cursor <= source.len()
            &&& patch::apply_hunks_spec(
                hunks.map_values(|h: HunkView| exchanged_hunk(h)),
                i,
                target,
                ProgressView {
                    output: source.take(at.cursor as int),
                    cursor: at.output.len(),
                },
            ) == Ok::<ProgressView, ToolFault>(
                ProgressView {
                    output: source.take(end.cursor as int),
                    cursor: end.output.len(),
                },
            )
        }),
    decreases hunks.len() - i,
{
    if i < hunks.len() {
        let next = patch::apply_hunk_spec(hunks[i], (i + 1) as nat, source, at)->Ok_0;
        let end = patch::apply_hunks_spec(hunks, i, source, at)->Ok_0;
        lemma_hunk_moves(hunks[i], (i + 1) as nat, source, at);
        lemma_hunks_grow(hunks, i + 1, source, next);
        assert(target.take(next.output.len() as int) =~= end.output.take(
            next.output.len() as int,
        ));
        lemma_hunk_back(hunks[i], (i + 1) as nat, source, at, target);
        lemma_hunks_back(hunks, i + 1, source, next, target);
    }
}

/// A hunk reads on from where it starts and adds to what has been written.
proof fn lemma_hunk_moves(h: HunkView, hunk: nat, source: Seq<Seq<char>>, at: ProgressView)
    requires
        at.cursor <= source.len(),
        patch::apply_hunk_spec(h, hunk, source, at) is Ok,
    ensures
        ({
            let next = patch::apply_hunk_spec(h, hunk, source, at)->Ok_0;
            &&& next.cursor <= source.len()
            &&& at.output.len() <= next.output.len()
            &&& next.output.take(at.output.len() as int) == at.output
        }),
{
    let next = patch::apply_hunk_spec(h, hunk, source, at)->Ok_0;
    assert(next.output.take(next.output.len() as int) =~= next.output);
    lemma_hunk_back(h, hunk, source, at, next.output);
}

/// The hunks add to what has been written.
proof fn lemma_hunks_grow(hunks: Seq<HunkView>, i: int, source: Seq<Seq<char>>, at: ProgressView)
    requires
        0 <= i <= hunks.len(),
        at.cursor <= source.len(),
        patch::apply_hunks_spec(hunks, i, source, at) is Ok,
    ensures
        ({
            let end = patch::apply_hunks_spec(hunks, i, source, at)->Ok_0;
            &&& at.output.len() <= end.output.len()
            &&& end.output.take(at.output.len() as int) == at.output
        }),
    decreases hunks.len() - i,
{
    let end = patch::apply_hunks_spec(hunks, i, source, at)->Ok_0;
    if i < hunks.len() {
        let next = patch::apply_hunk_spec(hunks[i], (i + 1) as nat, source, at)->Ok_0;
        lemma_hunk_moves(hunks[i], (i + 1) as nat, source, at);
        lemma_hunks_grow(hunks, i + 1, source, next);
        assert(end.output.take(at.output.len() as int) =~= next.output.take(
            at.output.len() as int,
        ));
    } else {
        assert(end.output.take(at.output.len() as int) =~= at.output);
    }
}

/// Whether a text ends in a carriage return.
pub open spec fn ends_in_return(t: Seq<char>) -> bool {
    t.len() > 0 && t.last() == '\r'
}

/// Whether a line can stand in a file whose lines have the given ending, and be found
/// there again.
spec fn fits(line: Seq<char>, ending: LineEnding) -> bool {
    text::free_of(line, '\n') && (ending == LineEnding::CrLf || !ends_in_return(line))
}

/// Whether each line fits.
spec fn all_fit(lines: Seq<Seq<char>>, ending: LineEnding) -> bool {
    forall|i: int| 0 <= i < lines.len() ==> fits(#[trigger] lines[i], ending)
}

/// Whether each line that a hunk adds fits.
spec fn additions_fit(lines: Seq<HunkLineView>, ending: LineEnding) -> bool {
    forall|i: int|
        0 <= i < lines.len() ==> match #[trigger] lines[i] {
            HunkLineView::Add(t) => fits(t, ending),
            _ => true,
        }
}

proof fn lemma_hunk_fits(
    lines: Seq<HunkLineView>,
    k: int,
    source: Seq<Seq<char>>,
    hunk: nat,
    at: ProgressView,
    ending: LineEnding,
)
    requires
        0 <= k <= lines.len(),
        all_fit(source, ending),
        all_fit(at.output, ending),
        additions_fit(lines, ending),
        patch::hunk_lines_spec(lines, k, source, hunk, at) is Ok,
    ensures
        all_fit(patch::hunk_lines_spec(lines, k, source, hunk, at)->Ok_0.output, ending),
    decreases lines.len() - k,
{
    if k < lines.len() {
        let next = match lines[k] {
            HunkLineView::Context(t) => ProgressView {
                output: at.output.push(t),
                cursor: at.cursor + 1,
            },
            HunkLineView::Remove(t) => ProgressView { output: at.output, cursor: at.cursor + 1 },
            HunkLineView::Add(t) => ProgressView { output: at.output.push(t), cursor: at.cursor },
        };
        if lines[k] is Context {
            assert(fits(source[at.cursor as int], ending));
        }
        assert(all_fit(next.output, ending));
        lemma_hunk_fits(lines, k + 1, source, hunk, next, ending);
    }
}

proof fn lemma_hunks_fit(
    hunks: Seq<HunkView>,
    i: int,
    source: Seq<Seq<char>>,
    at: ProgressView,
    ending: LineEnding,
)
    requires
        0 <= i <= hunks.len(),
        at.cursor <= source.len(),
        all_fit(source, ending),
        all_fit(at.output, ending),
        forall|j: int| 0 <= j < hunks.len() ==> additions_fit((#[trigger] hunks[j]).lines, ending),
        patch::apply_hunks_spec(hunks, i, source, at) is Ok,
    ensures
        all_fit(patch::apply_hunks_spec(hunks, i, source, at)->Ok_0.output, ending),
    decreases hunks.len() - i,
{
    if i < hunks.len() {
        let h = hunks[i];
        let next = patch::apply_hunk_spec(h, (i + 1) as nat, source, at)->Ok_0;
        lemma_hunk_moves(h, (i + 1) as nat, source, at);
        let old_index = patch::range_index_spec(h.old_start, h.old_count, "old"@, (i + 1) as nat)->Ok_0;
        let kept = at.output + source.subrange(at.cursor as int, old_index as int);
        assert(all_fit(kept, ending));
        lemma_hunk_fits(
            h.lines,
            0,
            source,
            (i + 1) as nat,
            ProgressView { output: kept, cursor: old_index },
            ending,
        );
        lemma_hunks_fit(hunks, i + 1, source, next, ending);
    }
}

/// In a text without a carriage return before a line feed, no piece but the last ends
/// in a carriage return.
proof fn lemma_no_return_ends(s: Seq<char>)
    requires
        !patch::has_crlf(s),
    ensures
        forall|i: int|
            0 <= i < text::split_char(s, '\n').len() - 1 ==> !ends_in_return(
                #[trigger] text::split_char(s, '\n')[i],
            ),
    decreases s.len(),
{
    if s.len() > 0 {
        let t = s.drop_last();
        assert(!patch::has_crlf(t)) by {
            if patch::has_crlf(t) {
                let i = choose|i: int| patch::crlf_at(t, i);
                assert(patch::crlf_at(s, i));
            }
        }
        lemma_no_return_ends(t);
        text::lemma_split_nonempty(t, text::is_char('\n'));
        let before = text::split_char(t, '\n');
        let now = text::split_char(s, '\n');
        if t.len() > 0 {
            patch_laws::lemma_last_piece(t);
        }
        assert(!patch::crlf_at(s, s.len() - 1));
        assert forall|i: int| 0 <= i < now.len() - 1 implies !ends_in_return(#[trigger] now[i]) by {
            if s.last() == '\n' {
                assert(now[i] == before[i]);
                if i == before.len() - 1 {
                    assert(before[i] == before.last());
                }
            } else {
                assert(now[i] == before[i]);
            }
        }
    }
}

/// The lines of a file that ends in a line feed can be found again.
proof fn lemma_document_fits(s: Seq<char>)
    requires
        patch::document_spec(s) is Ok,
        s.len() > 0,
        s.last() == '\n',
    ensures
        ({
            let d = patch::document_spec(s)->Ok_0;
            all_fit(d.lines, d.line_ending) && d.lines.len() > 0
        }),
{
    let d = patch::document_spec(s)->Ok_0;
    let pieces = text::split_char(s, '\n');
    text::lemma_pieces_free(s, '\n');
    text::lemma_split_nonempty(s, text::is_char('\n'));
    patch_laws::lemma_last_piece(s);
    if !patch::has_crlf(s) {
        lemma_no_return_ends(s);
    }
    assert forall|i: int| 0 <= i < d.lines.len() implies fits(#[trigger] d.lines[i], d.line_ending) by {
        assert(text::free_of(pieces[i], '\n'));
    }
}

/// Lines with a carriage return and a line feed behind each are lines with a carriage
/// return at their end and a line feed behind each.
proof fn lemma_crlf_as_lf(lines: Seq<Seq<char>>)
    requires
        lines.len() > 0,
    ensures
        text::join_spec(lines, seq!['\r', '\n']) + seq!['\r', '\n'] == text::join_spec(
            lines.map_values(|l: Seq<char>| l.push('\r')),
            seq!['\n'],
        ) + seq!['\n'],
    decreases lines.len(),
{
    let marked = lines.map_values(|l: Seq<char>| l.push('\r'));
    let crlf = seq!['\r', '\n'];
    let lf = seq!['\n'];
    if lines.len() == 1 {
        assert(lines[0] + crlf =~= marked[0] + lf);
    } else {
        let front = lines.drop_last();
        lemma_crlf_as_lf(front);
        assert(marked.drop_last() =~= front.map_values(|l: Seq<char>| l.push('\r')));
        assert(marked.last() == lines.last().push('\r'));
        assert(text::join_spec(lines, crlf) + crlf =~= text::join_spec(front, crlf) + crlf
            + marked.last() + lf);
    }
}

/// Characters of a joined text: those of its lines, and the separators.
proof fn lemma_marked_ends(lines: Seq<Seq<char>>, s: Seq<char>, i: int)
    requires
        lines.len() > 0,
        forall|j: int| 0 <= j < lines.len() ==> text::free_of(#[trigger] lines[j], '\n'),
        s == text::join_spec(lines, seq!['\n']) + seq!['\n'],
        0 <= i < s.len(),
        s[i] == '\n',
    ensures
        exists|j: int| 0 <= j < lines.len() && ends_before(#[trigger] lines[j], s, i),
    decreases lines.len(),
{
    let last = lines.last();
    let lf = seq!['\n'];
    let joined = text::join_spec(lines, lf);
    assert(text::free_of(lines[lines.len() - 1], '\n'));
    if lines.len() == 1 {
        assert(joined == last);
        if i < joined.len() {
            assert(s[i] == last[i]);
        }
        assert(i == last.len());
        assert(s.subrange(0, i) =~= last);
        assert(ends_before(lines[0], s, i));
    } else {
        let front = lines.drop_last();
        let head = text::join_spec(front, lf) + lf;
        assert(joined =~= head + last);
        if i < head.len() {
            assert(head[i] == s[i]);
            assert forall|j: int| 0 <= j < front.len() implies text::free_of(
                #[trigger] front[j],
                '\n',
            ) by {
                assert(front[j] == lines[j]);
            }
            lemma_marked_ends(front, head, i);
            let j = choose|j: int| 0 <= j < front.len() && ends_before(#[trigger] front[j], head, i);
            let line = front[j];
            assert(line == lines[j]);
            assert(s.subrange(i - line.len(), i) =~= head.subrange(i - line.len(), i));
            if i != line.len() {
                assert(s[i - line.len() - 1] == head[i - line.len() - 1]);
            }
            assert(ends_before(lines[j], s, i));
        } else {
            if i < joined.len() {
                assert(s[i] == last[i - head.len()]);
            }
            assert(i == s.len() - 1);
            assert(s.subrange(i - last.len(), i) =~= last);
            assert(i == last.len() || s[i - last.len() - 1] == '\n') by {
                assert(head[head.len() - 1] == '\n');
                assert(s[head.len() - 1] == head[head.len() - 1]);
            }
            assert(ends_before(lines[lines.len() - 1], s, i));
        }
    }
}

/// Whether a line is what stands before a position, back to the line feed before it or to
/// the start of the text.
spec fn ends_before(line: Seq<char>, s: Seq<char>, i: int) -> bool {
    &&& line.len() <= i <= s.len()
    &&& s.subrange(i - line.len(), i) == line
    &&& i == line.len() || s[i - line.len() - 1] == '\n'
}

/// Lines that fit are found again in the file made of them.
proof fn lemma_rendered_lines(lines: Seq<Seq<char>>, ending: LineEnding)
    requires
        lines.len() > 0,
        all_fit(lines, ending),
    ensures
        patch::document_spec(patch::render_spec(lines, ending, true)) == Ok::<
            DocumentView,
            ToolFault,
        >(DocumentView { lines, line_ending: ending, ends_with_newline: true }),
{
    reveal_strlit("\n");
    reveal_strlit("\r\n");
    assert("\n"@ =~= seq!['\n']);
    assert("\r\n"@ =~= seq!['\r', '\n']);
    let lf = seq!['\n'];
    let s = patch::render_spec(lines, ending, true);
    let marked = if ending == LineEnding::CrLf {
        lines.map_values(|l: Seq<char>| l.push('\r'))
    } else {
        lines
    };
    if ending == LineEnding::CrLf {
        lemma_crlf_as_lf(lines);
    }
    assert(s == text::join_spec(marked, lf) + lf);
    assert forall|j: int| 0 <= j < marked.len() implies text::free_of(#[trigger] marked[j], '\n') by {
        assert(fits(lines[j], ending));
    }
    let pieces = marked.push(Seq::empty());
    patch_laws::lemma_join_push(marked, Seq::empty(), lf);
    assert(s =~= text::join_spec(pieces, lf));
    assert forall|j: int| 0 <= j < pieces.len() implies text::free_of(#[trigger] pieces[j], '\n') by {
        if j < marked.len() {
            assert(text::free_of(marked[j], '\n'));
        }
    }
    text::lemma_split_joined(pieces, '\n');
    assert(s.last() == '\n');
    if ending == LineEnding::CrLf {
        assert(!patch::has_bare_lf(s)) by {
            if patch::has_bare_lf(s) {
                let i = choose|i: int| patch::bare_lf_at(s, i);
                lemma_marked_ends(marked, s, i);
                let j = choose|j: int| 0 <= j < marked.len() && ends_before(#[trigger] marked[j], s, i);
                assert(marked[j] == lines[j].push('\r'));
                assert(s.subrange(i - marked[j].len(), i)[marked[j].len() - 1] == s[i - 1]);
            }
        }
        assert(patch::has_crlf(s)) by {
            let i = s.len() - 1;
            assert(!patch::bare_lf_at(s, i));
            assert(patch::crlf_at(s, i));
        }
        let clean = pieces.map_values(|l: Seq<char>| patch::without_cr(l));
        assert forall|j: int| 0 <= j < lines.len() implies clean[j] == lines[j] by {
            assert(pieces[j] == lines[j].push('\r'));
            assert(lines[j].push('\r').drop_last() =~= lines[j]);
        }
        assert(clean.drop_last() =~= lines);
    } else {
        assert(!patch::has_crlf(s)) by {
            if patch::has_crlf(s) {
                let i = choose|i: int| patch::crlf_at(s, i);
                lemma_marked_ends(marked, s, i);
                let j = choose|j: int| 0 <= j < marked.len() && ends_before(#[trigger] marked[j], s, i);
                assert(fits(lines[j], ending));
                if marked[j].len() > 0 {
                    assert(s.subrange(i - marked[j].len(), i)[marked[j].len() - 1] == s[i - 1]);
                }
            }
        }
        assert(pieces.drop_last() =~= lines);
    }
}

/// The text of a hunk line.
spec fn line_text(line: HunkLineView) -> Seq<char> {
    match line {
        HunkLineView::Context(t) => t,
        HunkLineView::Remove(t) => t,
        HunkLineView::Add(t) => t,
    }
}

spec fn without_feeds(lines: Seq<HunkLineView>) -> bool {
    forall|i: int| 0 <= i < lines.len() ==> text::free_of(line_text(#[trigger] lines[i]), '\n')
}

proof fn lemma_scanned_lines(lines: Seq<Seq<char>>, cursor: int, hunk: nat, seen: ScanView)
    requires
        0 <= cursor,
        forall|i: int| 0 <= i < lines.len() ==> text::free_of(#[trigger] lines[i], '\n'),
        without_feeds(seen.lines),
    ensures
        match patch::scan_spec(lines, cursor, hunk, seen) {
            Ok((body, _)) => without_feeds(body.lines),
            Err(_) => true,
        },
    decreases lines.len() - cursor,
{
    if !patch::at_hunk_end(lines, cursor) {
        if let Ok(next) = patch::scan_line_spec(lines[cursor], cursor as nat, hunk, seen) {
            let line = lines[cursor];
            assert(text::free_of(line, '\n'));
            assert(without_feeds(next.lines)) by {
                if line.len() > 0 {
                    assert forall|k: int| 0 <= k < line.drop_first().len() implies #[trigger] line.drop_first()[k]
                        != '\n' by {
                        assert(line[k + 1] != '\n');
                    }
                }
            }
            lemma_scanned_lines(lines, cursor + 1, hunk, next);
        }
    }
}

proof fn lemma_parsed_lines(lines: Seq<Seq<char>>, cursor: int, hunks: Seq<HunkView>)
    requires
        0 <= cursor,
        forall|i: int| 0 <= i < lines.len() ==> text::free_of(#[trigger] lines[i], '\n'),
        forall|i: int| 0 <= i < hunks.len() ==> without_feeds((#[trigger] hunks[i]).lines),
    ensures
        match patch::hunks_spec(lines, cursor, hunks) {
            Ok(all) => forall|i: int|
                0 <= i < all.len() ==> without_feeds((#[trigger] all[i]).lines),
            Err(_) => true,
        },
    decreases lines.len() - cursor,
{
    if cursor < lines.len() && patch::hunks_spec(lines, cursor, hunks) is Ok && !(
    lines[cursor].len() == 0 && cursor + 1 == lines.len()) {
        let nothing = ScanView { lines: Seq::empty(), no_newline: false };
        patch::lemma_scan_bounds(lines, cursor + 1, hunks.len() + 1, nothing);
        lemma_scanned_lines(lines, cursor + 1, hunks.len() + 1, nothing);
        let (hunk, next) = patch::hunk_spec(lines[cursor], lines, cursor + 1, hunks.len() + 1)->Ok_0;
        lemma_parsed_lines(lines, next, hunks.push(hunk));
    }
}

/// Whether some line that the hunks add ends in a carriage return.
pub open spec fn adds_return_ends(hunks: Seq<HunkView>) -> bool {
    exists|i: int, j: int|
        0 <= i < hunks.len() && 0 <= j < hunks[i].lines.len() && adds_return_end(
            #[trigger] hunks[i].lines[j],
        )
}

/// Whether a line is added and ends in a carriage return.
pub open spec fn adds_return_end(line: HunkLineView) -> bool {
    match line {
        HunkLineView::Add(t) => ends_in_return(t),
        _ => false,
    }
}

/// The exchanged patch undoes a patch: applied to the patched file it gives the source
/// back, and it adds as many lines as the patch removed and removes as many as it added.
/// So it is of every patch that updates a file that ends in a line feed and keeps the
/// line feed at its end. Left out are lines that are added with a carriage return at
/// their end to a file whose lines end in a line feed alone, since they change how the
/// lines end; and a file whose lines end in a carriage return and a line feed of which
/// nothing is left, since nothing is left to tell how its lines ended.
pub proof fn law_exchanged_patch_undoes(input: Seq<char>, source: Seq<char>)
    requires
        patch::patch_spec(input) is Ok,
        patch::patch_spec(input)->Ok_0.operation == PatchOperation::Update,
        !patch::says_no_newline(patch::patch_spec(input)->Ok_0.hunks),
        source.len() > 0,
        source.last() == '\n',
        text::utf8_len(source) <= MAX_PATCH_FILE_BYTES,
        patch::apply_spec(patch::patch_spec(input)->Ok_0, source) is Ok,
        patch::has_crlf(source) ==> patch::apply_spec(
            patch::patch_spec(input)->Ok_0,
            source,
        )->Ok_0.text.len() > 0,
        !patch::has_crlf(source) ==> !adds_return_ends(patch::patch_spec(input)->Ok_0.hunks),
    ensures
        ({
            let p = patch::patch_spec(input)->Ok_0;
            let there = patch::apply_spec(p, source)->Ok_0;
            patch::apply_spec(exchanged(p), there.text) == Ok::<patch::AppliedView, ToolFault>(
                patch::AppliedView {
                    text: source,
                    lines_added: there.lines_removed,
                    lines_removed: there.lines_added,
                },
            )
        }),
{
    let p = patch::patch_spec(input)->Ok_0;
    let other = exchanged(p);
    let document = patch::document_spec(source)->Ok_0;
    let ending = document.line_ending;
    let start = ProgressView { output: Seq::empty(), cursor: 0 };
    let end = patch::apply_hunks_spec(p.hunks, 0, document.lines, start)->Ok_0;
    let there = patch::apply_spec(p, source)->Ok_0;
    let tail = document.lines.skip(end.cursor as int);
    let target = end.output + tail;
    lemma_document_fits(source);
    assert forall|j: int| 0 <= j < p.hunks.len() implies additions_fit(
        (#[trigger] p.hunks[j]).lines,
        ending,
    ) by {
        let lines = patch::patch_lines(input);
        text::lemma_pieces_free(input, '\n');
        assert forall|i: int| 0 <= i < lines.len() implies text::free_of(#[trigger] lines[i], '\n') by {
            assert(text::free_of(text::split_char(input, '\n')[i], '\n'));
        }
        lemma_parsed_lines(lines, 2, Seq::empty());
        let body = p.hunks[j].lines;
        assert(without_feeds(body));
        assert forall|k: int| 0 <= k < body.len() implies match #[trigger] body[k] {
            HunkLineView::Add(t) => fits(t, ending),
            _ => true,
        } by {
            assert(text::free_of(line_text(body[k]), '\n'));
            if ending == LineEnding::Lf {
                assert(!adds_return_end(p.hunks[j].lines[k]));
            }
        }
    }
    lemma_hunks_fit(p.hunks, 0, document.lines, start, ending);
    assert(target.take(end.output.len() as int) =~= end.output);
    lemma_hunks_back(p.hunks, 0, document.lines, start, target);
    assert(document.lines.take(0) =~= Seq::<Seq<char>>::empty());
    assert(all_fit(target, ending));
    let newline = patch::final_newline(p, document, target, end.cursor == document.lines.len());
    assert(there.text == patch::render_spec(target, ending, newline));
    if target.len() > 0 {
        assert(newline);
        lemma_rendered_lines(target, ending);
    } else {
        assert(there.text.len() == 0);
        assert(patch::document_spec(there.text)->Ok_0.lines =~= target);
    }
    let back = patch::document_spec(there.text)->Ok_0;
    assert(back.lines == target);
    assert(back.line_ending == ending);
    let at = ProgressView {
        output: document.lines.take(end.cursor as int),
        cursor: end.output.len(),
    };
    assert(patch::apply_hunks_spec(other.hunks, 0, target, start) == Ok::<ProgressView, ToolFault>(
        at,
    ));
    assert(target.skip(end.output.len() as int) =~= tail);
    assert(at.output + tail =~= document.lines);
    assert(!patch::says_no_newline(other.hunks)) by {
        if patch::says_no_newline(other.hunks) {
            let i = choose|i: int|
                0 <= i < other.hunks.len() && (#[trigger] other.hunks[i]).new_no_newline;
            assert(p.hunks[i].new_no_newline);
        }
    }
    lemma_exchanged_totals(p.hunks, p.hunks.len() as int);
    patch_laws::law_document_round_trip(source);
}

} // verus!
