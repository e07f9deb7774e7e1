//! What a patch's text stands for, character by character.

use crate::text;
use crate::tools::error::ToolFault;
use crate::tools::patch;
use crate::tools::patch::{HunkLineView, HunkView, PatchOperation, PatchView, ScanView};
use vstd::prelude::*;

verus! {

/// The line that says that a file has no newline at its end.
pub open spec fn marker() -> Seq<char> {
    "\\ No newline at end of file"@
}

/// A hunk line as it is written: its sign, and its text as it is.
pub open spec fn written(line: HunkLineView) -> Seq<char> {
    match line {
        HunkLineView::Context(t) => seq![' '] + t,
        HunkLineView::Remove(t) => seq!['-'] + t,
        HunkLineView::Add(t) => seq!['+'] + t,
    }
}

/// Hunk lines as they are written.
pub open spec fn all_written(lines: Seq<HunkLineView>) -> Seq<Seq<char>> {
    lines.map_values(|l: HunkLineView| written(l))
}

/// The lines from `from` up to `to` that are no newline markers.
pub open spec fn unmarked(lines: Seq<Seq<char>>, from: int, to: int) -> Seq<Seq<char>>
    decreases to - from,
{
    if from >= to {
        Seq::empty()
    } else if lines[from] == marker() {
        unmarked(lines, from + 1, to)
    } else {
        seq![lines[from]] + unmarked(lines, from + 1, to)
    }
}

/// Whether a line is a piece of a text, but for a carriage return at its end.
pub open spec fn is_line_of(line: Seq<char>, piece: Seq<char>) -> bool {
    if piece.len() > 0 && piece[piece.len() - 1] == '\r' {
        piece == line.push('\r')
    } else {
        piece == line
    }
}

/// Whether a hunk is what the lines from `start` up to `end` say: a header with its
/// ranges, and behind it, line by line, its body.
pub open spec fn says(lines: Seq<Seq<char>>, start: int, end: int, h: HunkView, number: nat) -> bool {
    &&& start < end <= lines.len()
    &&& lines[start].len() >= 3 && lines[start].take(3) == seq!['@', '@', ' ']
    &&& patch::hunk_header_spec(lines[start], number) == Ok::<
        (usize, usize, usize, usize),
        ToolFault,
    >((h.old_start as usize, h.old_count as usize, h.new_start as usize, h.new_count as usize))
    &&& h.old_start <= usize::MAX && h.old_count <= usize::MAX
    &&& h.new_start <= usize::MAX && h.new_count <= usize::MAX
    &&& all_written(h.lines) == unmarked(lines, start + 1, end)
    &&& h.new_no_newline == (end > start + 1 && lines[end - 1] == marker() && h.lines.len() > 0
        && !(h.lines.last() is Remove))
}

/// The end of the lines that are not empty at the end of a patch.
pub open spec fn is_end(lines: Seq<Seq<char>>, end: int) -> bool {
    end == lines.len() || (end == lines.len() - 1 && lines[end].len() == 0)
}

proof fn lemma_unmarked_split(lines: Seq<Seq<char>>, from: int, mid: int, to: int)
    requires
        from <= mid <= to,
    ensures
        unmarked(lines, from, to) == unmarked(lines, from, mid) + unmarked(lines, mid, to),
    decreases mid - from,
{
    if from == mid {
        assert(unmarked(lines, from, mid) + unmarked(lines, mid, to) =~= unmarked(lines, mid, to));
    } else {
        lemma_unmarked_split(lines, from + 1, mid, to);
        assert(unmarked(lines, from, to) =~= unmarked(lines, from, mid) + unmarked(lines, mid, to));
    }
}

proof fn lemma_scan_reads(lines: Seq<Seq<char>>, cursor: int, hunk: nat, seen: ScanView, start: int)
    requires
        0 <= start <= cursor <= lines.len(),
        all_written(seen.lines) == unmarked(lines, start, cursor),
        seen.no_newline == (cursor > start && lines[cursor - 1] == marker() && seen.lines.len() > 0
            && !(seen.lines.last() is Remove)),
        patch::scan_spec(lines, cursor, hunk, seen) is Ok,
    ensures
        ({
            let (body, next) = patch::scan_spec(lines, cursor, hunk, seen)->Ok_0;
            &&& cursor <= next <= lines.len()
            &&& all_written(body.lines) == unmarked(lines, start, next)
            &&& body.no_newline == (next > start && lines[next - 1] == marker() && body.lines.len()
                > 0 && !(body.lines.last() is Remove))
            &&& patch::at_hunk_end(lines, next)
        }),
    decreases lines.len() - cursor,
{
    if !patch::at_hunk_end(lines, cursor) {
        let line = lines[cursor];
        let after = patch::scan_line_spec(line, cursor as nat, hunk, seen)->Ok_0;
        lemma_unmarked_split(lines, start, cursor, cursor + 1);
        assert(unmarked(lines, cursor + 1, cursor + 1) =~= Seq::<Seq<char>>::empty());
        if line == marker() {
            assert(unmarked(lines, cursor, cursor + 1) =~= Seq::<Seq<char>>::empty());
            assert(unmarked(lines, start, cursor + 1) =~= all_written(after.lines));
        } else {
            assert(unmarked(lines, cursor, cursor + 1) =~= seq![line]);
            assert(seq![line[0]] + line.drop_first() =~= line);
            assert(written(after.lines.last()) == line);
            assert(all_written(after.lines) =~= all_written(seen.lines).push(line));
            assert(unmarked(lines, start, cursor + 1) =~= all_written(after.lines));
        }
        lemma_scan_reads(lines, cursor + 1, hunk, after, start);
    }
}

/// What has been read of a patch's hunks: where they start and end.
spec fn placed(lines: Seq<Seq<char>>, hunks: Seq<HunkView>, starts: Seq<int>, end: int) -> bool {
    &&& starts.len() == hunks.len() + 1
    &&& starts[0] == 2
    &&& starts.last() == end
    &&& forall|i: int|
        0 <= i < hunks.len() ==> says(
            lines,
            starts[i],
            starts[i + 1],
            #[trigger] hunks[i],
            (i + 1) as nat,
        )
}

proof fn lemma_hunks_placed(
    lines: Seq<Seq<char>>,
    cursor: int,
    hunks: Seq<HunkView>,
    starts: Seq<int>,
) -> (all: Seq<int>)
    requires
        2 <= cursor <= lines.len(),
        placed(lines, hunks, starts, cursor),
        patch::hunks_spec(lines, cursor, hunks) is Ok,
    ensures
        placed(lines, patch::hunks_spec(lines, cursor, hunks)->Ok_0, all, all.last()),
        is_end(lines, all.last()),
    decreases lines.len() - cursor,
{
    if cursor >= lines.len() || lines[cursor].len() == 0 && cursor + 1 == lines.len() {
        starts
    } else {
        let nothing = ScanView { lines: Seq::empty(), no_newline: false };
        assert(all_written(nothing.lines) =~= Seq::<Seq<char>>::empty());
        assert(unmarked(lines, cursor + 1, cursor + 1) =~= Seq::<Seq<char>>::empty());
        let number = hunks.len() + 1;
        let (hunk, next) = patch::hunk_spec(lines[cursor], lines, cursor + 1, number)->Ok_0;
        lemma_scan_reads(lines, cursor + 1, number, nothing, cursor + 1);
        reveal_strlit("@@ ");
        assert("@@ "@ =~= seq!['@', '@', ' ']);
        assert(says(lines, cursor, next, hunk, number));
        let more = hunks.push(hunk);
        let further = starts.push(next);
        assert forall|i: int| 0 <= i < more.len() implies says(
            lines,
            further[i],
            further[i + 1],
            #[trigger] more[i],
            (i + 1) as nat,
        ) by {
            if i < hunks.len() {
                assert(says(lines, starts[i], starts[i + 1], hunks[i], (i + 1) as nat));
            }
        }
        lemma_hunks_placed(lines, next, more, further)
    }
}

/// A patch says exactly what its text does. The text is cut into lines at its line feeds,
/// a carriage return before one belonging to the line's end. The first two name the file.
/// Behind them, up to an empty line at the end, stand the hunks: each a header and then
/// its body, in which every line but the newline markers is one line of the hunk, whose
/// kind is its first character and whose text is all that follows it.
pub proof fn law_patches_say_what_is_written(input: Seq<char>) -> (r: (
    Seq<Seq<char>>,
    Seq<int>,
))
    requires
        patch::patch_spec(input) is Ok,
    ensures
        ({
            let hunks = patch::patch_spec(input)->Ok_0.hunks;
            let pieces = text::split_char(input, '\n');
            let (lines, starts) = r;
            &&& lines.len() == pieces.len()
            &&& forall|k: int| 0 <= k < lines.len() ==> is_line_of(#[trigger] lines[k], pieces[k])
            &&& starts.len() == hunks.len() + 1
            &&& starts[0] == 2
            &&& is_end(lines, starts.last())
            &&& forall|i: int|
                0 <= i < hunks.len() ==> says(
                    lines,
                    starts[i],
                    starts[i + 1],
                    #[trigger] hunks[i],
                    (i + 1) as nat,
                )
        }),
{
    let lines = patch::patch_lines(input);
    let pieces = text::split_char(input, '\n');
    assert forall|k: int| 0 <= k < lines.len() implies is_line_of(#[trigger] lines[k], pieces[k]) by {
        let piece = pieces[k];
        if piece.len() > 0 && piece[piece.len() - 1] == '\r' {
            assert(piece.drop_last().push('\r') =~= piece);
        }
    }
    let starts = lemma_hunks_placed(lines, 2, Seq::empty(), seq![2int]);
    (lines, starts)
}

/// The file that a patch is for is the one that its first two lines name, with or without
/// the customary prefixes; `/dev/null` in place of the old or the new name adds or deletes
/// it.
pub proof fn law_headers_name_the_file(input: Seq<char>, path: Seq<char>)
    requires
        patch::patch_spec(input) is Ok,
        path.len() > 0,
        path != "/dev/null"@,
        path.len() < 2 || path.take(2) != seq!['a', '/'] && path.take(2) != seq!['b', '/'],
    ensures
        ({
            let p = patch::patch_spec(input)->Ok_0;
            let pieces = text::split_char(input, '\n');
            let old = pieces[0];
            let new = pieces[1];
            let named = |line: Seq<char>, sign: Seq<char>|
                line == sign + path || line == sign + seq!['a', '/'] + path || line == sign
                    + seq!['b', '/'] + path;
            let minus = seq!['-', '-', '-', ' '];
            let plus = seq!['+', '+', '+', ' '];
            &&& named(old, minus) && named(new, plus) && path.last() != '\r' ==> p.path == path
                && p.operation == PatchOperation::Update
            &&& old == minus + "/dev/null"@ && named(new, plus) && path.last() != '\r' ==> p.path
                == path && p.operation == PatchOperation::Add
            &&& named(old, minus) && new == plus + "/dev/null"@ && path.last() != '\r' ==> p.path
                == path && p.operation == PatchOperation::Delete
        }),
{
    reveal_strlit("--- ");
    reveal_strlit("+++ ");
    reveal_strlit("a/");
    reveal_strlit("b/");
    reveal_strlit("/dev/null");
    let minus = seq!['-', '-', '-', ' '];
    let plus = seq!['+', '+', '+', ' '];
    assert("--- "@ =~= minus);
    assert("+++ "@ =~= plus);
    assert("a/"@ =~= seq!['a', '/']);
    assert("b/"@ =~= seq!['b', '/']);
    let pieces = text::split_char(input, '\n');
    let lines = patch::patch_lines(input);
    lemma_header_path(lines[0], pieces[0], minus, path);
    lemma_header_path(lines[1], pieces[1], plus, path);
}

proof fn lemma_header_path(line: Seq<char>, piece: Seq<char>, sign: Seq<char>, path: Seq<char>)
    requires
        line == patch::without_cr(piece),
        sign.len() == 4,
        path.len() > 0,
        path != "/dev/null"@,
        path.len() < 2 || path.take(2) != seq!['a', '/'] && path.take(2) != seq!['b', '/'],
        patch::header_path_spec(line, sign) is Ok,
    ensures
        path.last() != '\r' && (piece == sign + path || piece == sign + seq!['a', '/'] + path
            || piece == sign + seq!['b', '/'] + path) ==> patch::header_path_spec(line, sign)
            == Ok::<Option<Seq<char>>, ToolFault>(Some(path)),
        piece == sign + "/dev/null"@ ==> patch::header_path_spec(line, sign) == Ok::<
            Option<Seq<char>>,
            ToolFault,
        >(None),
{
    reveal_strlit("a/");
    reveal_strlit("b/");
    reveal_strlit("/dev/null");
    assert("a/"@ =~= seq!['a', '/']);
    assert("b/"@ =~= seq!['b', '/']);
    let a = seq!['a', '/'];
    let b = seq!['b', '/'];
    if piece == sign + "/dev/null"@ {
        assert(line.skip(4) =~= "/dev/null"@);
    }
    if path.last() != '\r' && piece == sign + path {
        assert(piece.last() == path.last());
        assert(line.skip(4) =~= path);
    }
    if path.last() != '\r' && piece == sign + a + path {
        assert(piece.last() == path.last());
        let value = line.skip(4);
        assert(value =~= a + path);
        assert(value[0] == 'a');
        assert("/dev/null"@[0] == '/');
        assert(value.take(2) =~= a);
        assert(value.skip(2) =~= path);
    }
    if path.last() != '\r' && piece == sign + b + path {
        assert(piece.last() == path.last());
        let value = line.skip(4);
        assert(value =~= b + path);
        assert(value[0] == 'b');
        assert(a[0] == 'a');
        assert(value.take(2)[0] == 'b');
        assert("/dev/null"@[0] == '/');
        assert(value.take(2) =~= b);
        assert(value.skip(2) =~= path);
    }
}

/// Decimal notation consists of digits, and is read as the number that it writes.
pub proof fn law_decimal_is_read_back(n: nat)
    ensures
        text::decimal(n).len() > 0,
        text::all_digits(text::decimal(n)),
        text::digits_value(text::decimal(n)) == n,
    decreases n,
{
    if n < 10 {
        let s = text::decimal(n);
        assert(s.drop_last() =~= Seq::<char>::empty());
        assert(text::digits_value(s.drop_last()) == 0);
    } else {
        law_decimal_is_read_back(n / 10);
        let before = text::decimal(n / 10);
        let s = text::decimal(n);
        assert(s.drop_last() =~= before);
        assert forall|i: int| 0 <= i < s.len() implies '0' <= #[trigger] s[i] <= '9' by {
            if i < before.len() {
                assert(s[i] == before[i]);
            }
        }
    }
}

/// A number in decimal notation is parsed as itself.
proof fn lemma_parses(n: nat, max: nat)
    requires
        n <= max,
    ensures
        text::parse_number(text::decimal(n), max) == Some(n),
{
    law_decimal_is_read_back(n);
    let s = text::decimal(n);
    assert('0' <= s[0] <= '9');
}

/// A range as it is written, with its count or, where that is one, without.
pub open spec fn range_text(sign: char, start: nat, count: nat, short: bool) -> Seq<char> {
    if short {
        seq![sign] + text::decimal(start)
    } else {
        seq![sign] + text::decimal(start) + seq![','] + text::decimal(count)
    }
}

proof fn lemma_found(s: Seq<char>, pat: Seq<char>, i: int)
    requires
        text::occurs_at(s, pat, i),
        forall|j: int| 0 <= j < i ==> !#[trigger] text::occurs_at(s, pat, j),
    ensures
        text::find_from(s, pat, 0) == Some(i),
{
    text::lemma_find_from(s, pat, 0);
}

proof fn lemma_not_found(s: Seq<char>, pat: Seq<char>)
    requires
        forall|j: int| !#[trigger] text::occurs_at(s, pat, j),
    ensures
        text::find_from(s, pat, 0) is None,
{
    text::lemma_find_from(s, pat, 0);
}

proof fn lemma_range(sign: char, start: nat, count: nat, short: bool, hunk: nat)
    requires
        start <= usize::MAX,
        count <= usize::MAX,
        count > 0 ==> start > 0,
        short ==> count == 1,
    ensures
        patch::range_spec(range_text(sign, start, count, short), sign, hunk) == Ok::<
            (usize, usize),
            ToolFault,
        >((start as usize, count as usize)),
        forall|i: int|
            0 <= i < range_text(sign, start, count, short).len() ==> ({
                let c = #[trigger] range_text(sign, start, count, short)[i];
                c == sign || c == ',' || '0' <= c <= '9'
            }),
{
    reveal_strlit(",");
    reveal_strlit("1");
    assert(","@ =~= seq![',']);
    assert("1"@ =~= text::decimal(1));
    let value = range_text(sign, start, count, short);
    let body = value.drop_first();
    let a = text::decimal(start);
    let b = text::decimal(count);
    law_decimal_is_read_back(start);
    law_decimal_is_read_back(count);
    lemma_parses(start, usize::MAX as nat);
    lemma_parses(count, usize::MAX as nat);
    if short {
        assert(body =~= a);
        assert forall|j: int| !#[trigger] text::occurs_at(body, ","@, j) by {
            if text::occurs_at(body, ","@, j) {
                assert(body.subrange(j, j + 1)[0] == body[j]);
            }
        }
        lemma_not_found(body, ","@);
    } else {
        assert(body =~= a + seq![','] + b);
        let n = a.len() as int;
        assert(body.subrange(n, n + 1) =~= ","@);
        assert forall|j: int| 0 <= j < n implies !#[trigger] text::occurs_at(body, ","@, j) by {
            if text::occurs_at(body, ","@, j) {
                assert(body.subrange(j, j + 1)[0] == body[j]);
                assert(body[j] == a[j]);
            }
        }
        lemma_found(body, ","@, n);
        assert(body.take(n) =~= a);
        assert(body.skip(n + 1) =~= b);
    }
    assert forall|i: int| 0 <= i < value.len() implies ({
        let c = #[trigger] value[i];
        c == sign || c == ',' || '0' <= c <= '9'
    }) by {
        if i > 0 {
            assert(value[i] == body[i - 1]);
            if i - 1 < a.len() {
                assert(body[i - 1] == a[i - 1]);
            } else if i - 1 > a.len() {
                assert(body[i - 1] == b[i - 2 - a.len()]);
            }
        }
    }
}

proof fn lemma_one_word(s: Seq<char>, sep: spec_fn(char) -> bool)
    requires
        forall|i: int| 0 <= i < s.len() ==> !sep(#[trigger] s[i]),
    ensures
        text::split_where(s, sep) == seq![s],
    decreases s.len(),
{
    if s.len() == 0 {
        assert(s =~= Seq::<char>::empty());
        assert(text::split_where(s, sep) =~= seq![s]);
    } else {
        let t = s.drop_last();
        assert forall|i: int| 0 <= i < t.len() implies !sep(#[trigger] t[i]) by {
            assert(t[i] == s[i]);
        }
        lemma_one_word(t, sep);
        assert(!sep(s[s.len() - 1]));
        assert(t.push(s.last()) =~= s);
        assert(text::split_where(s, sep) =~= seq![s]);
    }
}

proof fn lemma_two_words(a: Seq<char>, b: Seq<char>, c: char, sep: spec_fn(char) -> bool)
    requires
        forall|i: int| 0 <= i < a.len() ==> !sep(#[trigger] a[i]),
        forall|i: int| 0 <= i < b.len() ==> !sep(#[trigger] b[i]),
        sep(c),
    ensures
        text::split_where(a + seq![c] + b, sep) == seq![a, b],
    decreases b.len(),
{
    let s = a + seq![c] + b;
    if b.len() == 0 {
        assert(s.drop_last() =~= a);
        assert(s.last() == c);
        lemma_one_word(a, sep);
        assert(b =~= Seq::<char>::empty());
        assert(text::split_where(s, sep) =~= seq![a, b]);
    } else {
        let t = b.drop_last();
        assert forall|i: int| 0 <= i < t.len() implies !sep(#[trigger] t[i]) by {
            assert(t[i] == b[i]);
        }
        lemma_two_words(a, t, c, sep);
        assert(s.drop_last() =~= a + seq![c] + t);
        assert(s.last() == b[b.len() - 1]);
        assert(!sep(b[b.len() - 1]));
        assert(t.push(b.last()) =~= b);
        assert(text::split_where(s, sep) =~= seq![a, b]);
    }
}

/// A hunk header tells the ranges that are written in it, whatever follows it: the number
/// of the first line and the count of lines, on the old and on the new side. A count that
/// is left out is one.
pub proof fn law_headers_tell_the_ranges(
    old: (nat, nat, bool),
    new: (nat, nat, bool),
    behind: Seq<char>,
    hunk: nat,
)
    requires
        old.0 <= usize::MAX && old.1 <= usize::MAX,
        new.0 <= usize::MAX && new.1 <= usize::MAX,
        old.1 > 0 ==> old.0 > 0,
        new.1 > 0 ==> new.0 > 0,
        old.2 ==> old.1 == 1,
        new.2 ==> new.1 == 1,
    ensures
        patch::hunk_header_spec(
            seq!['@', '@', ' '] + range_text('-', old.0, old.1, old.2) + seq![' '] + range_text(
                '+',
                new.0,
                new.1,
                new.2,
            ) + seq![' ', '@', '@'] + behind,
            hunk,
        ) == Ok::<(usize, usize, usize, usize), ToolFault>(
            (old.0 as usize, old.1 as usize, new.0 as usize, new.1 as usize),
        ),
{
    lemma_range('-', old.0, old.1, old.2, hunk);
    lemma_range('+', new.0, new.1, new.2, hunk);
    lemma_header(
        range_text('-', old.0, old.1, old.2),
        range_text('+', new.0, new.1, new.2),
        behind,
        hunk,
    );
}

proof fn lemma_header(a: Seq<char>, b: Seq<char>, behind: Seq<char>, hunk: nat)
    requires
        is_range_text(a),
        is_range_text(b),
        patch::range_spec(a, '-', hunk) is Ok,
        patch::range_spec(b, '+', hunk) is Ok,
    ensures
        patch::hunk_header_spec(
            seq!['@', '@', ' '] + a + seq![' '] + b + seq![' ', '@', '@'] + behind,
            hunk,
        ) == Ok::<(usize, usize, usize, usize), ToolFault>(
            (
                patch::range_spec(a, '-', hunk)->Ok_0.0,
                patch::range_spec(a, '-', hunk)->Ok_0.1,
                patch::range_spec(b, '+', hunk)->Ok_0.0,
                patch::range_spec(b, '+', hunk)->Ok_0.1,
            ),
        ),
{
    reveal_strlit("@@ ");
    reveal_strlit(" @@");
    let sign = seq!['@', '@', ' '];
    let close = seq![' ', '@', '@'];
    assert("@@ "@ =~= sign);
    assert(" @@"@ =~= close);
    let body = a + seq![' '] + b;
    let header = sign + a + seq![' '] + b + close + behind;
    let rest = header.skip(3);
    assert(header.take(3) =~= sign);
    assert(rest =~= body + close + behind);
    lemma_closing(a, b, behind);
    assert(rest.take(body.len() as int) =~= body);
    lemma_words_of_ranges(a, b);
}

/// Whether a text consists of the characters of a range.
spec fn is_range_text(s: Seq<char>) -> bool {
    s.len() > 0 && forall|i: int|
        0 <= i < s.len() ==> ({
            let c = #[trigger] s[i];
            c == '-' || c == '+' || c == ',' || '0' <= c <= '9'
        })
}

proof fn lemma_closing(a: Seq<char>, b: Seq<char>, behind: Seq<char>)
    requires
        is_range_text(a),
        is_range_text(b),
    ensures
        text::find_from(
            a + seq![' '] + b + seq![' ', '@', '@'] + behind,
            seq![' ', '@', '@'],
            0,
        ) == Some((a.len() + 1 + b.len()) as int),
{
    let close = seq![' ', '@', '@'];
    let body = a + seq![' '] + b;
    let rest = body + close + behind;
    let n = body.len() as int;
    assert(rest.subrange(n, n + 3) =~= close);
    assert forall|j: int| 0 <= j < n implies !#[trigger] text::occurs_at(rest, close, j) by {
        if text::occurs_at(rest, close, j) {
            assert(rest.subrange(j, j + 3)[0] == rest[j]);
            assert(rest.subrange(j, j + 3)[1] == rest[j + 1]);
            assert(close[0] == ' ' && close[1] == '@');
            if j < a.len() {
                assert(rest[j] == a[j]);
            } else if j > a.len() {
                assert(rest[j] == b[j - a.len() - 1]);
            } else {
                assert(rest[j + 1] == b[0]);
            }
        }
    }
    lemma_found(rest, close, n);
}

proof fn lemma_words_of_ranges(a: Seq<char>, b: Seq<char>)
    requires
        is_range_text(a),
        is_range_text(b),
    ensures
        text::words_spec(a + seq![' '] + b) == seq![a, b],
{
    let body = a + seq![' '] + b;
    let sep = |c: char| text::is_ascii_space(c);
    let kept = |w: Seq<char>| w.len() > 0;
    assert forall|i: int| 0 <= i < a.len() implies !sep(#[trigger] a[i]) by {}
    assert forall|i: int| 0 <= i < b.len() implies !sep(#[trigger] b[i]) by {}
    lemma_two_words(a, b, ' ', sep);
    let pieces = seq![a, b];
    let first = seq![a];
    assert(pieces.drop_last() =~= first);
    assert(first.drop_last() =~= Seq::<Seq<char>>::empty());
    reveal(Seq::filter);
    assert(Seq::<Seq<char>>::empty().filter(kept) =~= Seq::<Seq<char>>::empty());
    assert(first.filter(kept) =~= first);
    assert(pieces.filter(kept) =~= pieces);
}

/// What is counted as added and removed are the lines of that kind.
pub proof fn law_counts_are_of_lines(lines: Seq<HunkLineView>)
    ensures
        patch::added(lines) == lines.filter(|l: HunkLineView| l is Add).len(),
        patch::removed(lines) == lines.filter(|l: HunkLineView| l is Remove).len(),
    decreases lines.len(),
{
    reveal(Seq::filter);
    if lines.len() > 0 {
        law_counts_are_of_lines(lines.drop_last());
    }
}

} // verus!
