//! Laws of what the reading tools return: the lines, the bytes, the matches and the paths
//! that were asked for, and what was left out.

use crate::json;
use crate::json::JsonView;
use crate::text;
use crate::tools::listing;
use crate::tools::listing::ListingView;
use crate::tools::observation;
use crate::tools::observation::ObservationView;
use crate::tools::reading;
use crate::tools::reading::ReadFileView;
use crate::tools::searching;
use crate::tools::searching::{MatchView, SearchView};
use vstd::prelude::*;

verus! {

/// Whether a text is one line: it holds no line feed, and no carriage return stands where
/// it would belong to the line's end.
pub open spec fn is_one_line(line: Seq<char>) -> bool {
    &&& forall|i: int| 0 <= i < line.len() ==> #[trigger] line[i] != '\n'
    &&& line.len() > 0 ==> line.last() != '\r'
}

/// Lines, each with a line feed behind.
pub open spec fn ended(lines: Seq<Seq<char>>) -> Seq<char>
    decreases lines.len(),
{
    if lines.len() == 0 {
        Seq::empty()
    } else {
        ended(lines.drop_last()) + lines.last() + seq!['\n']
    }
}

/// Lines with line feeds between.
pub open spec fn between(lines: Seq<Seq<char>>) -> Seq<char>
    decreases lines.len(),
{
    if lines.len() == 0 {
        Seq::empty()
    } else if lines.len() == 1 {
        lines[0]
    } else {
        between(lines.drop_last()) + seq!['\n'] + lines.last()
    }
}

proof fn lemma_ended(lines: Seq<Seq<char>>)
    ensures
        ended(lines) == text::join_spec(lines.push(Seq::empty()), seq!['\n']),
    decreases lines.len(),
{
    let all = lines.push(Seq::<char>::empty());
    assert(all.drop_last() =~= lines);
    if lines.len() == 1 {
        assert(ended(lines.drop_last()) =~= Seq::empty());
        assert(ended(lines) =~= lines[0] + seq!['\n'] + Seq::<char>::empty());
        assert(text::join_spec(lines, seq!['\n']) == lines[0]);
    } else if lines.len() > 1 {
        let before = lines.drop_last();
        lemma_ended(before);
        let pushed = before.push(Seq::<char>::empty());
        assert(pushed.drop_last() =~= before);
        assert(text::join_spec(pushed, seq!['\n']) == text::join_spec(before, seq!['\n'])
            + seq!['\n'] + Seq::<char>::empty());
        assert(text::join_spec(lines, seq!['\n']) == text::join_spec(before, seq!['\n'])
            + seq!['\n'] + lines.last());
        assert(ended(lines) =~= text::join_spec(lines, seq!['\n']) + seq!['\n']
            + Seq::<char>::empty());
    }
}

proof fn lemma_between(lines: Seq<Seq<char>>)
    ensures
        between(lines) == text::join_spec(lines, "\n"@),
    decreases lines.len(),
{
    reveal_strlit("\n");
    assert("\n"@ =~= seq!['\n']);
    if lines.len() > 1 {
        lemma_between(lines.drop_last());
    }
}

/// The lines of a text are those that it was written of.
pub proof fn law_written_lines_are_read(lines: Seq<Seq<char>>)
    requires
        forall|i: int| 0 <= i < lines.len() ==> is_one_line(#[trigger] lines[i]),
    ensures
        text::lines_spec(ended(lines)) == lines,
{
    let all = lines.push(Seq::<char>::empty());
    assert forall|i: int| 0 <= i < all.len() implies text::free_of(#[trigger] all[i], '\n') by {
        if i < lines.len() {
            assert(is_one_line(lines[i]));
        }
    }
    lemma_ended(lines);
    text::lemma_split_joined(all, '\n');
    let pieces = text::split_char(ended(lines), '\n');
    assert(pieces == all);
    let kept = pieces.drop_last().map_values(|l: Seq<char>| text::without_return(l));
    assert forall|i: int| 0 <= i < lines.len() implies #[trigger] kept[i] == lines[i] by {
        assert(is_one_line(lines[i]));
        assert(pieces.drop_last()[i] == lines[i]);
    }
    assert(kept =~= lines);
}

proof fn lemma_names()
    ensures
        "path"@.len() == 4,
        "line"@.len() == 4,
        "text"@.len() == 4,
        "files"@.len() == 5,
        "digest"@.len() == 6,
        "content"@.len() == 7,
        "guidance"@.len() == 8,
        "end_line"@.len() == 8,
        "end_byte"@.len() == 8,
        "start_line"@.len() == 10,
        "start_byte"@.len() == 10,
        "total_lines"@.len() == 11,
        "total_bytes"@.len() == 11,
        "content_json"@.len() == 12,
        "next_start_line"@.len() == 15,
        "next_start_byte"@.len() == 15,
        "suggested_reads"@.len() == 15,
        "path"@ != "line"@,
        "path"@ != "text"@,
        "line"@ != "text"@,
{
    reveal_strlit("path");
    reveal_strlit("line");
    reveal_strlit("text");
    reveal_strlit("files");
    reveal_strlit("digest");
    reveal_strlit("content");
    reveal_strlit("guidance");
    reveal_strlit("end_line");
    reveal_strlit("end_byte");
    reveal_strlit("start_line");
    reveal_strlit("start_byte");
    reveal_strlit("total_lines");
    reveal_strlit("total_bytes");
    reveal_strlit("content_json");
    reveal_strlit("next_start_line");
    reveal_strlit("next_start_byte");
    reveal_strlit("suggested_reads");
    assert("path"@[0] != "line"@[0]);
    assert("path"@[0] != "text"@[0]);
    assert("line"@[0] != "text"@[0]);
}

/// The first line that a read asks for: the first one, unless it says otherwise.
pub open spec fn first_asked(request: ReadFileView) -> nat {
    match request.start_line {
        Some(n) => n as nat,
        None => 1,
    }
}

/// The last line that a read asks for: so that there are three hundred, unless it says
/// otherwise.
pub open spec fn last_asked(request: ReadFileView) -> nat {
    match request.end_line {
        Some(n) => n as nat,
        None => first_asked(request) + 299,
    }
}

/// A read of a file returns the lines that it asks for, as far as the file has them, and
/// says where they stand, how many there are in all, and where to go on. It is refused if
/// the lines are not in order or are too many.
pub proof fn law_reads_return_the_lines(request: ReadFileView, lines: Seq<Seq<char>>)
    requires
        forall|i: int| 0 <= i < lines.len() ==> is_one_line(#[trigger] lines[i]),
        lines.len() < u32::MAX,
        last_asked(request) < u32::MAX,
    ensures
        ({
            let first = first_asked(request);
            let last = last_asked(request);
            let reached = if last <= lines.len() {
                last
            } else {
                lines.len()
            };
            match reading::read_output(request, ended(lines)) {
                Ok(output) => {
                    &&& 1 <= first <= last
                    &&& last - first < 1000
                    &&& output.succeeded
                    &&& json::text_member(output.content, "path"@) == Some(request.path)
                    &&& json::u64_member(output.content, "start_line"@) == Some(first as u64)
                    &&& json::u64_member(output.content, "end_line"@) == Some(reached as u64)
                    &&& json::u64_member(output.content, "total_lines"@) == Some(
                        lines.len() as u64,
                    )
                    &&& json::text_member(output.content, "content"@) == Some(
                        if first <= reached {
                            between(lines.subrange(first - 1, reached as int))
                        } else {
                            Seq::empty()
                        },
                    )
                    &&& output.truncated <==> reached < lines.len()
                    &&& json::u64_member(output.content, "next_start_line"@) == (if reached
                        < lines.len() {
                        Some((reached + 1) as u64)
                    } else {
                        None
                    })
                },
                Err(_) => !(1 <= first <= last && last - first < 1000),
            }
        }),
{
    lemma_names();
    law_written_lines_are_read(lines);
    let (start, end) = reading::asked_lines(request);
    let first = first_asked(request);
    let last = last_asked(request);
    assert(start == first);
    assert(end == last);
    let selected = reading::selected_lines(lines, start as nat, end as nat);
    lemma_between(selected);
    let reached = if last <= lines.len() {
        last
    } else {
        lines.len()
    };
    if 1 <= first <= last {
        if first <= reached {
            assert(selected =~= lines.subrange(first - 1, reached as int));
        } else {
            assert(selected =~= Seq::empty());
        }
    }
}

/// A read of an observation returns a piece of its text as it is: it starts at the byte
/// that was asked for, takes no more bytes than were asked for, and says where it ends
/// and where to go on.
pub proof fn law_observation_reads_are_exact(request: ObservationView, s: Seq<char>)
    requires
        text::utf8_len(s) <= u32::MAX,
    ensures
        match observation::observation_output(request, s) {
            Ok(output) => exists|from: int, to: int|
                0 <= from <= to <= s.len() && #[trigger] text::utf8_len(s.subrange(from, to))
                    <= request.max_bytes && text::utf8_len(s.take(from)) == request.start_byte
                    && json::text_member(output.content, "content_json"@) == Some(
                    s.subrange(from, to),
                ) && json::text_member(output.content, "digest"@) == Some(request.digest)
                    && json::u64_member(output.content, "start_byte"@) == Some(
                    request.start_byte as u64,
                ) && json::u64_member(output.content, "end_byte"@) == Some(
                    text::utf8_len(s.take(to)) as u64,
                ) && json::u64_member(output.content, "total_bytes"@) == Some(
                    text::utf8_len(s) as u64,
                ) && json::u64_member(output.content, "next_start_byte"@) == (if to < s.len() {
                    Some(text::utf8_len(s.take(to)) as u64)
                } else {
                    None
                }),
            Err(_) => true,
        },
{
    lemma_names();
    observation::law_pieces_are_exact(s, request.start_byte as nat, request.max_bytes as nat);
    match observation::piece(s, request.start_byte as nat, request.max_bytes as nat) {
        Ok(p) => {
            assert(text::utf8_len(s.subrange(p.from, p.to)) <= request.max_bytes);
            assert(s.take(p.from) + s.skip(p.from) =~= s);
            text::lemma_encode_concat(s.take(p.from), s.skip(p.from));
        },
        Err(_) => {},
    }
}

/// What a search returns are its matches, each with its path, its line and its text.
pub proof fn law_searches_return_their_matches(
    request: SearchView,
    relative: Seq<char>,
    matches: Seq<MatchView>,
    truncated: bool,
)
    requires
        forall|k: int| 0 <= k < matches.len() ==> (#[trigger] matches[k]).line <= u64::MAX,
    ensures
        ({
            let output = searching::search_output(request, relative, matches, truncated);
            &&& output.truncated == truncated
            &&& output.content matches JsonView::Array(items)
            &&& items.len() == matches.len()
            &&& forall|k: int|
                0 <= k < matches.len() ==> {
                    &&& json::text_member(#[trigger] items[k], "path"@) == Some(matches[k].path)
                    &&& json::u64_member(items[k], "line"@) == Some(matches[k].line as u64)
                    &&& json::text_member(items[k], "text"@) == Some(matches[k].text)
                }
        }),
{
    lemma_names();
}

/// Whether an array holds texts, in order.
pub open spec fn holds_texts(j: Option<JsonView>, texts: Seq<Seq<char>>) -> bool {
    &&& j matches Some(JsonView::Array(items))
    &&& items.len() == texts.len()
    &&& forall|k: int| 0 <= k < texts.len() ==> #[trigger] items[k] == JsonView::Text(texts[k])
}

/// What a listing returns are its paths, and those of them that are worth reading first.
pub proof fn law_listings_return_their_paths(relative: Seq<char>, l: ListingView)
    ensures
        ({
            let output = listing::list_output(relative, l);
            &&& output.truncated == l.truncated
            &&& holds_texts(json::member(output.content, "files"@), l.files)
            &&& holds_texts(
                json::member(output.content, "suggested_reads"@),
                listing::suggested(l.files),
            )
        }),
{
    lemma_names();
}

proof fn lemma_ranked(files: Seq<Seq<char>>, rank: u8, count: int)
    requires
        0 <= count <= files.len(),
    ensures
        ({
            let r = listing::ranked(files, rank, count);
            &&& forall|k: int|
                0 <= k < r.len() ==> listing::anchor_rank(#[trigger] r[k]) == Some(rank)
                    && files.contains(r[k])
            &&& forall|i: int|
                0 <= i < count && listing::anchor_rank(#[trigger] files[i]) == Some(rank)
                    ==> r.contains(files[i])
        }),
    decreases count,
{
    if count > 0 {
        lemma_ranked(files, rank, count - 1);
        let before = listing::ranked(files, rank, count - 1);
        let r = listing::ranked(files, rank, count);
        assert forall|k: int| 0 <= k < r.len() implies listing::anchor_rank(#[trigger] r[k]) == Some(
            rank,
        ) && files.contains(r[k]) by {
            if k < before.len() {
                assert(r[k] == before[k]);
            } else {
                assert(r[k] == files[count - 1]);
            }
        }
        assert forall|i: int|
            0 <= i < count && listing::anchor_rank(#[trigger] files[i]) == Some(
                rank,
            ) implies r.contains(files[i]) by {
            if i < count - 1 {
                let k = choose|k: int| 0 <= k < before.len() && before[k] == files[i];
                assert(r[k] == files[i]);
            } else {
                assert(r[r.len() - 1] == files[i]);
            }
        }
    }
}

/// The paths that are suggested are paths of the listing that have a rank, at most eight,
/// those of a smaller rank first; if there are fewer, none that has a rank is left out.
pub proof fn law_suggestions_come_of_the_listing(files: Seq<Seq<char>>)
    ensures
        ({
            let s = listing::suggested(files);
            &&& s.len() <= 8
            &&& forall|k: int|
                0 <= k < s.len() ==> files.contains(#[trigger] s[k]) && listing::anchor_rank(
                    s[k],
                ) is Some
            &&& forall|j: int, k: int|
                0 <= j < k < s.len() ==> listing::anchor_rank(#[trigger] s[j])->0
                    <= listing::anchor_rank(#[trigger] s[k])->0
            &&& s.len() < 8 ==> forall|i: int|
                0 <= i < files.len() && listing::anchor_rank(#[trigger] files[i]) is Some
                    ==> s.contains(files[i])
        }),
{
    let n = files.len() as int;
    lemma_ranked(files, 0, n);
    lemma_ranked(files, 1, n);
    lemma_ranked(files, 2, n);
    let a = listing::ranked(files, 0, n);
    let b = listing::ranked(files, 1, n);
    let c = listing::ranked(files, 2, n);
    let all = a + b + c;
    let s = listing::suggested(files);
    assert forall|k: int| 0 <= k < all.len() implies files.contains(#[trigger] all[k])
        && listing::anchor_rank(all[k]) == Some(
        if k < a.len() {
            0u8
        } else if k < a.len() + b.len() {
            1u8
        } else {
            2u8
        },
    ) by {
        if k < a.len() {
            assert(all[k] == a[k]);
        } else if k < a.len() + b.len() {
            assert(all[k] == b[k - a.len()]);
        } else {
            assert(all[k] == c[k - a.len() - b.len()]);
        }
    }
    assert forall|k: int| 0 <= k < s.len() implies #[trigger] s[k] == all[k] by {}
    if s.len() < 8 {
        assert forall|i: int|
            0 <= i < files.len() && listing::anchor_rank(
                #[trigger] files[i],
            ) is Some implies s.contains(files[i]) by {
            let rank = listing::anchor_rank(files[i])->0;
            if rank == 0 {
                let k = choose|k: int| 0 <= k < a.len() && a[k] == files[i];
                assert(s[k] == files[i]);
            } else if rank == 1 {
                let k = choose|k: int| 0 <= k < b.len() && b[k] == files[i];
                assert(s[a.len() + k] == files[i]);
            } else {
                let k = choose|k: int| 0 <= k < c.len() && c[k] == files[i];
                assert(s[a.len() + b.len() + k] == files[i]);
            }
        }
    }
}

} // verus!
