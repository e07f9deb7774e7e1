//! What holds of every patch that parses and every patch that applies.

use crate::text;
use crate::tools::patch;
use crate::tools::patch::{
    HunkLineView, HunkView, LineEnding, PatchOperation, PatchView, ProgressView, ScanView,
    MAX_PATCH_FILE_BYTES, MAX_PATCH_HUNKS,
};
use vstd::prelude::*;

verus! {

/// The lines of one side of a patched file: what precedes each of the first `n`
/// hunks, and the side of the hunk that follows it.
pub open spec fn weave(
    hunks: Seq<HunkView>,
    gaps: Seq<Seq<Seq<char>>>,
    old: bool,
    n: int,
) -> Seq<Seq<char>>
    decreases n,
{
    if n <= 0 {
        Seq::empty()
    } else {
        weave(hunks, gaps, old, n - 1) + gaps[n - 1] + (if old {
            patch::old_side(hunks[n - 1].lines)
        } else {
            patch::new_side(hunks[n - 1].lines)
        })
    }
}

proof fn lemma_weave_prefix(
    hunks: Seq<HunkView>,
    gaps: Seq<Seq<Seq<char>>>,
    more: Seq<Seq<char>>,
    old: bool,
    n: int,
)
    requires
        0 <= n <= gaps.len(),
    ensures
        weave(hunks, gaps.push(more), old, n) == weave(hunks, gaps, old, n),
    decreases n,
{
    if n > 0 {
        lemma_weave_prefix(hunks, gaps, more, old, n - 1);
        assert(gaps.push(more)[n - 1] == gaps[n - 1]);
    }
}

pub proof fn lemma_take_sides(lines: Seq<HunkLineView>, k: int)
    requires
        0 <= k < lines.len(),
    ensures
        patch::old_side(lines.take(k + 1)) == (match lines[k] {
            HunkLineView::Context(t) => patch::old_side(lines.take(k)).push(t),
            HunkLineView::Remove(t) => patch::old_side(lines.take(k)).push(t),
            HunkLineView::Add(_) => patch::old_side(lines.take(k)),
        }),
        patch::new_side(lines.take(k + 1)) == (match lines[k] {
            HunkLineView::Context(t) => patch::new_side(lines.take(k)).push(t),
            HunkLineView::Add(t) => patch::new_side(lines.take(k)).push(t),
            HunkLineView::Remove(_) => patch::new_side(lines.take(k)),
        }),
{
    assert(lines.take(k + 1).drop_last() =~= lines.take(k));
    assert(lines.take(k + 1).last() == lines[k]);
}

/// A hunk that applies reads its old side from the source and writes its new side.
pub proof fn lemma_hunk_lines(
    lines: Seq<HunkLineView>,
    k: int,
    source: Seq<Seq<char>>,
    hunk: nat,
    start: ProgressView,
    at: ProgressView,
)
    requires
        0 <= k <= lines.len(),
        start.cursor <= source.len(),
        at.cursor == start.cursor + patch::old_side(lines.take(k)).len(),
        at.cursor <= source.len(),
        source.subrange(start.cursor as int, at.cursor as int) == patch::old_side(lines.take(k)),
        at.output == start.output + patch::new_side(lines.take(k)),
        patch::hunk_lines_spec(lines, k, source, hunk, at) is Ok,
    ensures
        ({
            let end = patch::hunk_lines_spec(lines, k, source, hunk, at)->Ok_0;
            &&& end.cursor == start.cursor + patch::old_side(lines).len()
            &&& end.cursor <= source.len()
            &&& source.subrange(start.cursor as int, end.cursor as int) == patch::old_side(lines)
            &&& end.output == start.output + patch::new_side(lines)
        }),
    decreases lines.len() - k,
{
    if k == lines.len() {
        assert(lines.take(k) =~= lines);
    } else {
        lemma_take_sides(lines, k);
        let next = match lines[k] {
            HunkLineView::Context(t) => ProgressView {
                output: at.output.push(t),
                cursor: at.cursor + 1,
            },
            HunkLineView::Remove(t) => ProgressView { output: at.output, cursor: at.cursor + 1 },
            HunkLineView::Add(t) => ProgressView { output: at.output.push(t), cursor: at.cursor },
        };
        assert(source.subrange(start.cursor as int, next.cursor as int) =~= patch::old_side(
            lines.take(k + 1),
        ));
        assert(next.output =~= start.output + patch::new_side(lines.take(k + 1)));
        lemma_hunk_lines(lines, k + 1, source, hunk, start, next);
    }
}

proof fn lemma_weave(
    hunks: Seq<HunkView>,
    i: int,
    source: Seq<Seq<char>>,
    at: ProgressView,
    gaps: Seq<Seq<Seq<char>>>,
) -> (all: Seq<Seq<Seq<char>>>)
    requires
        0 <= i <= hunks.len(),
        gaps.len() == i,
        at.cursor <= source.len(),
        weave(hunks, gaps, true, i) == source.take(at.cursor as int),
        weave(hunks, gaps, false, i) == at.output,
        patch::apply_hunks_spec(hunks, i, source, at) is Ok,
    ensures
        all.len() == hunks.len(),
        ({
            let end = patch::apply_hunks_spec(hunks, i, source, at)->Ok_0;
            &&& end.cursor <= source.len()
            &&& weave(hunks, all, true, hunks.len() as int) == source.take(end.cursor as int)
            &&& weave(hunks, all, false, hunks.len() as int) == end.output
        }),
    decreases hunks.len() - i,
{
    if i == hunks.len() {
        gaps
    } else {
        let h = hunks[i];
        let old_index = patch::range_index_spec(h.old_start, h.old_count, "old"@, (i + 1) as nat)->Ok_0;
        let gap = source.subrange(at.cursor as int, old_index as int);
        let start = ProgressView { output: at.output + gap, cursor: old_index };
        let next = patch::apply_hunk_spec(h, (i + 1) as nat, source, at)->Ok_0;
        assert(patch::old_side(h.lines.take(0)) =~= Seq::<Seq<char>>::empty());
        assert(patch::new_side(h.lines.take(0)) =~= Seq::<Seq<char>>::empty());
        assert(source.subrange(old_index as int, old_index as int) =~= patch::old_side(h.lines.take(0)));
        assert(start.output =~= start.output + patch::new_side(h.lines.take(0)));
        lemma_hunk_lines(h.lines, 0, source, (i + 1) as nat, start, start);
        let more = gaps.push(gap);
        lemma_weave_prefix(hunks, gaps, gap, true, i);
        lemma_weave_prefix(hunks, gaps, gap, false, i);
        assert(weave(hunks, more, true, i + 1) =~= source.take(next.cursor as int));
        assert(weave(hunks, more, false, i + 1) =~= next.output);
        lemma_weave(hunks, i + 1, source, next, more)
    }
}

/// Whether a patched file differs from its source in the hunks alone: both are the
/// same kept lines with the old and the new sides of the hunks between them.
pub open spec fn differs_only_in_hunks(
    hunks: Seq<HunkView>,
    gaps: Seq<Seq<Seq<char>>>,
    source: Seq<Seq<char>>,
    output: Seq<Seq<char>>,
) -> bool {
    let n = hunks.len() as int;
    &&& gaps.len() == n + 1
    &&& source == weave(hunks, gaps, true, n) + gaps[n]
    &&& output == weave(hunks, gaps, false, n) + gaps[n]
}

/// A patch that applies replaces the old sides of its hunks by the new ones, each
/// where the source holds it, and keeps every other line.
pub proof fn law_apply_changes_only_the_hunks(p: PatchView, source: Seq<char>)
    requires
        patch::apply_spec(p, source) is Ok,
    ensures
        patch::document_spec(source) is Ok,
        exists|gaps: Seq<Seq<Seq<char>>>, output: Seq<Seq<char>>, newline: bool|
            #![trigger differs_only_in_hunks(
                p.hunks,
                gaps,
                patch::document_spec(source)->Ok_0.lines,
                output,
            ), patch::render_spec(output, patch::document_spec(source)->Ok_0.line_ending, newline)]
            differs_only_in_hunks(
                p.hunks,
                gaps,
                patch::document_spec(source)->Ok_0.lines,
                output,
            ) && patch::apply_spec(p, source)->Ok_0.text == patch::render_spec(
                output,
                patch::document_spec(source)->Ok_0.line_ending,
                newline,
            ),
{
    let document = patch::document_spec(source)->Ok_0;
    let start = ProgressView { output: Seq::empty(), cursor: 0 };
    let n = p.hunks.len() as int;
    assert(document.lines.take(0) =~= Seq::<Seq<char>>::empty());
    let gaps = lemma_weave(p.hunks, 0, document.lines, start, Seq::empty());
    let end = patch::apply_hunks_spec(p.hunks, 0, document.lines, start)->Ok_0;
    let tail = document.lines.skip(end.cursor as int);
    let output = end.output + tail;
    lemma_weave_prefix(p.hunks, gaps, tail, true, n);
    lemma_weave_prefix(p.hunks, gaps, tail, false, n);
    let all = gaps.push(tail);
    assert(document.lines =~= weave(p.hunks, all, true, n) + all[n]);
    assert(differs_only_in_hunks(p.hunks, all, document.lines, output));
    let touches_end = end.cursor == document.lines.len();
    let newline = patch::final_newline(p, document, output, touches_end);
    assert(patch::apply_spec(p, source)->Ok_0.text == patch::render_spec(
        output,
        document.line_ending,
        newline,
    ));
}

/// A patch that deletes its file leaves no text behind.
pub proof fn law_delete_leaves_nothing(p: PatchView, source: Seq<char>)
    requires
        p.operation == PatchOperation::Delete,
        patch::apply_spec(p, source) is Ok,
    ensures
        patch::apply_spec(p, source)->Ok_0.text.len() == 0,
{
}

/// A patched file is within the size limit.
pub proof fn law_patched_file_is_bounded(p: PatchView, source: Seq<char>)
    requires
        patch::apply_spec(p, source) is Ok,
    ensures
        text::utf8_len(patch::apply_spec(p, source)->Ok_0.text) <= MAX_PATCH_FILE_BYTES,
{
}

/// Whether a hunk's header tells how many lines its body has on each side, and the
/// body changes something.
pub open spec fn consistent(h: HunkView) -> bool {
    &&& patch::old_side(h.lines).len() == h.old_count
    &&& patch::new_side(h.lines).len() == h.new_count
    &&& patch::added(h.lines) + patch::removed(h.lines) > 0
    &&& h.old_count > 0 ==> h.old_start > 0
    &&& h.new_count > 0 ==> h.new_start > 0
}

proof fn lemma_hunks_consistent(lines: Seq<Seq<char>>, cursor: int, hunks: Seq<HunkView>)
    requires
        0 <= cursor,
        hunks.len() <= MAX_PATCH_HUNKS,
        forall|i: int| 0 <= i < hunks.len() ==> consistent(#[trigger] hunks[i]),
        patch::hunks_spec(lines, cursor, hunks) is Ok,
    ensures
        ({
            let all = patch::hunks_spec(lines, cursor, hunks)->Ok_0;
            &&& all.len() <= MAX_PATCH_HUNKS
            &&& forall|i: int| 0 <= i < all.len() ==> consistent(#[trigger] all[i])
        }),
    decreases lines.len() - cursor,
{
    if cursor >= lines.len() || lines[cursor].len() == 0 && cursor + 1 == lines.len() {
    } else {
        patch::lemma_scan_bounds(
            lines,
            cursor + 1,
            hunks.len() + 1,
            ScanView { lines: Seq::empty(), no_newline: false },
        );
        let (hunk, next) = patch::hunk_spec(lines[cursor], lines, cursor + 1, hunks.len() + 1)->Ok_0;
        assert(consistent(hunk));
        lemma_hunks_consistent(lines, next, hunks.push(hunk));
    }
}

/// A patch that parses has between one hunk and the limit, and each hunk's body has
/// the lines that its header declares and changes something.
pub proof fn law_parsed_hunks_are_consistent(input: Seq<char>)
    requires
        patch::patch_spec(input) is Ok,
    ensures
        ({
            let hunks = patch::patch_spec(input)->Ok_0.hunks;
            &&& 1 <= hunks.len() <= MAX_PATCH_HUNKS
            &&& forall|i: int| 0 <= i < hunks.len() ==> consistent(#[trigger] hunks[i])
        }),
{
    lemma_hunks_consistent(patch::patch_lines(input), 2, Seq::empty());
}

pub proof fn lemma_join_push(parts: Seq<Seq<char>>, last: Seq<char>, separator: Seq<char>)
    requires
        parts.len() > 0,
    ensures
        text::join_spec(parts.push(last), separator) == text::join_spec(parts, separator) + separator + last,
{
    assert(parts.push(last).drop_last() =~= parts);
}

proof fn lemma_join_extend_last(parts: Seq<Seq<char>>, c: char, separator: Seq<char>)
    requires
        parts.len() > 0,
    ensures
        text::join_spec(parts.update(parts.len() - 1, parts.last().push(c)), separator) == text::join_spec(
            parts,
            separator,
        ).push(c),
{
    let longer = parts.update(parts.len() - 1, parts.last().push(c));
    assert(longer.drop_last() =~= parts.drop_last());
    assert(longer.last() == parts.last().push(c));
    assert(text::join_spec(longer, separator) =~= text::join_spec(parts, separator).push(c));
}

/// Joining the pieces of a text with the character that separated them gives the
/// text back.
pub proof fn law_split_then_join(s: Seq<char>, c: char)
    ensures
        text::join_spec(text::split_char(s, c), seq![c]) == s,
    decreases s.len(),
{
    if s.len() == 0 {
        assert(text::join_spec(text::split_char(s, c), seq![c]) =~= s);
    } else {
        let before = text::split_char(s.drop_last(), c);
        law_split_then_join(s.drop_last(), c);
        text::lemma_split_nonempty(s.drop_last(), text::is_char(c));
        if s.last() == c {
            lemma_join_push(before, Seq::empty(), seq![c]);
            assert(text::join_spec(text::split_char(s, c), seq![c]) =~= s);
        } else {
            lemma_join_extend_last(before, s.last(), seq![c]);
            assert(text::join_spec(text::split_char(s, c), seq![c]) =~= s);
        }
    }
}

/// The pieces of a text with line feeds, each but the last without its carriage
/// return.
spec fn stripped_but_last(pieces: Seq<Seq<char>>) -> Seq<Seq<char>> {
    Seq::new(
        pieces.len(),
        |i: int|
            if i < pieces.len() - 1 {
                patch::without_cr(pieces[i])
            } else {
                pieces[i]
            },
    )
}

pub proof fn lemma_last_piece(s: Seq<char>)
    requires
        s.len() > 0,
    ensures
        s.last() == '\n' ==> text::split_char(s, '\n').last().len() == 0,
        s.last() != '\n' ==> text::split_char(s, '\n').last().len() > 0 && text::split_char(
            s,
            '\n',
        ).last().last() == s.last(),
        s.last() == '\n' ==> text::split_char(s, '\n').len() >= 2,
{
    text::lemma_split_nonempty(s.drop_last(), text::is_char('\n'));
}

proof fn lemma_split_then_join_crlf(s: Seq<char>)
    requires
        !patch::has_bare_lf(s),
    ensures
        text::join_spec(stripped_but_last(text::split_char(s, '\n')), seq!['\r', '\n']) == s,
    decreases s.len(),
{
    let crlf = seq!['\r', '\n'];
    if s.len() == 0 {
        assert(text::join_spec(stripped_but_last(text::split_char(s, '\n')), crlf) =~= s);
    } else {
        let t = s.drop_last();
        let before = text::split_char(t, '\n');
        let now = text::split_char(s, '\n');
        assert(!patch::has_bare_lf(t)) by {
            if patch::has_bare_lf(t) {
                let i = choose|i: int| patch::bare_lf_at(t, i);
                assert(patch::bare_lf_at(s, i));
            }
        }
        lemma_split_then_join_crlf(t);
        text::lemma_split_nonempty(t, text::is_char('\n'));
        let kept = stripped_but_last(before);
        if s.last() == '\n' {
            assert(!patch::bare_lf_at(s, s.len() - 1));
            assert(t.last() == '\r');
            lemma_last_piece(t);
            let bare = kept.update(kept.len() - 1, patch::without_cr(before.last()));
            assert(bare.update(bare.len() - 1, bare.last().push('\r')) =~= kept) by {
                assert(before.last() =~= patch::without_cr(before.last()).push('\r'));
            }
            lemma_join_extend_last(bare, '\r', crlf);
            assert(stripped_but_last(now) =~= bare.push(Seq::empty()));
            lemma_join_push(bare, Seq::empty(), crlf);
            assert(t == text::join_spec(bare, crlf).push('\r'));
            assert(s =~= t.push('\n'));
            assert(text::join_spec(stripped_but_last(now), crlf) =~= s);
        } else {
            assert(stripped_but_last(now) =~= kept.update(
                kept.len() - 1,
                kept.last().push(s.last()),
            ));
            lemma_join_extend_last(kept, s.last(), crlf);
            assert(text::join_spec(stripped_but_last(now), crlf) =~= s);
        }
    }
}

/// Taking a file apart into lines and putting them together again gives the file
/// back. Left out is a file whose lines end in a carriage return and a line feed
/// and whose last line ends in a carriage return alone.
pub proof fn law_document_round_trip(source: Seq<char>)
    requires
        patch::document_spec(source) is Ok,
        !(patch::has_crlf(source) && source.last() == '\r'),
    ensures
        ({
            let d = patch::document_spec(source)->Ok_0;
            patch::render_spec(d.lines, d.line_ending, d.ends_with_newline) == source
        }),
{
    reveal_strlit("\n");
    reveal_strlit("\r\n");
    let d = patch::document_spec(source)->Ok_0;
    let ending = d.line_ending.value_spec();
    let pieces = text::split_char(source, '\n');
    assert("\n"@ =~= seq!['\n']);
    assert("\r\n"@ =~= seq!['\r', '\n']);
    if source.len() == 0 {
        assert(patch::render_spec(d.lines, d.line_ending, d.ends_with_newline) =~= source);
    } else {
        lemma_last_piece(source);
        text::lemma_split_nonempty(source, text::is_char('\n'));
        let clean = if d.line_ending == LineEnding::CrLf {
            pieces.map_values(|l: Seq<char>| patch::without_cr(l))
        } else {
            pieces
        };
        if d.line_ending == LineEnding::CrLf {
            assert(!patch::has_bare_lf(source));
            lemma_split_then_join_crlf(source);
            assert(clean =~= stripped_but_last(pieces));
        } else {
            law_split_then_join(source, '\n');
        }
        assert(text::join_spec(clean, ending) == source);
        if source.last() == '\n' {
            assert(clean =~= clean.drop_last().push(clean.last()));
            lemma_join_push(clean.drop_last(), clean.last(), ending);
            assert(patch::render_spec(d.lines, d.line_ending, d.ends_with_newline) =~= source);
        }
    }
}

} // verus!
