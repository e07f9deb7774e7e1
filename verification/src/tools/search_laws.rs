//! Laws of searching: which lines a search finds, and that it misses none.

use crate::text;
use crate::text_laws;
use crate::tools::reading;
use crate::tools::searching;
use crate::tools::searching::{FileView, FoundView, MatchView, SearchView};
use vstd::prelude::*;
use vstd::utf8::*;

verus! {

/// How many line feeds stand among the first `n` bytes.
pub open spec fn feeds_before(bytes: Seq<u8>, n: int) -> nat
    decreases n,
{
    if n <= 0 {
        0
    } else if bytes[n - 1] == 10 {
        feeds_before(bytes, n - 1) + 1
    } else {
        feeds_before(bytes, n - 1)
    }
}

/// Whether the bytes from `start` up to `end` are a line: they lie between two line
/// feeds, or the beginning or the end, and hold none. Behind the last line feed there is
/// a line only if bytes are there.
pub open spec fn is_line(bytes: Seq<u8>, start: int, end: int) -> bool {
    &&& 0 <= start < bytes.len()
    &&& start <= end <= bytes.len()
    &&& start == 0 || bytes[start - 1] == 10
    &&& end == bytes.len() || bytes[end] == 10
    &&& forall|k: int| start <= k < end ==> bytes[k] != 10
}

/// The bytes of a line without the carriage return before its line feed.
pub open spec fn line_bytes(bytes: Seq<u8>, start: int, end: int) -> Seq<u8> {
    if start < end < bytes.len() && bytes[end - 1] == 13 {
        bytes.subrange(start, end - 1)
    } else {
        bytes.subrange(start, end)
    }
}

/// Whether a text holds another somewhere, in the same letter case if that counts.
pub open spec fn holds(line: Seq<char>, query: Seq<char>, case_sensitive: bool) -> bool {
    if case_sensitive {
        exists|k: int| text_laws::stands_at(line, query, k)
    } else {
        exists|k: int|
            text_laws::stands_at(text::lowercase_view(line), text::lowercase_view(query), k)
    }
}

/// Whether a line is a text that holds what is asked for.
pub open spec fn is_asked_for(
    bytes: Seq<u8>,
    start: int,
    end: int,
    request: SearchView,
) -> bool {
    &&& is_line(bytes, start, end)
    &&& valid_utf8(line_bytes(bytes, start, end))
    &&& holds(
        decode_utf8(line_bytes(bytes, start, end)),
        request.query,
        request.case_sensitive,
    )
}

/// Whether a match tells of the line from `start` up to `end`: by the path of its file,
/// by its number, which counts every line of the file from one on, and by its text.
pub open spec fn tells_of(
    m: MatchView,
    path: Seq<char>,
    bytes: Seq<u8>,
    start: int,
    end: int,
) -> bool {
    &&& m.path == path
    &&& m.line == feeds_before(bytes, start) + 1
    &&& m.text == decode_utf8(line_bytes(bytes, start, end))
}

/// Whether a match tells of a line of the file, from byte `from` on, that is asked for.
pub open spec fn is_found(
    m: MatchView,
    path: Seq<char>,
    bytes: Seq<u8>,
    request: SearchView,
    from: int,
) -> bool {
    exists|start: int, end: int|
        from <= start && is_asked_for(bytes, start, end, request) && #[trigger] tells_of(
            m,
            path,
            bytes,
            start,
            end,
        )
}

proof fn lemma_feeds_grow(bytes: Seq<u8>, a: int, b: int)
    requires
        0 <= a <= b <= bytes.len(),
    ensures
        feeds_before(bytes, a) <= feeds_before(bytes, b),
    decreases b - a,
{
    if a < b {
        lemma_feeds_grow(bytes, a, b - 1);
    }
}

proof fn lemma_feeds_stay(bytes: Seq<u8>, a: int, b: int)
    requires
        0 <= a <= b <= bytes.len(),
        forall|k: int| a <= k < b ==> bytes[k] != 10,
    ensures
        feeds_before(bytes, a) == feeds_before(bytes, b),
    decreases b - a,
{
    if a < b {
        lemma_feeds_stay(bytes, a, b - 1);
    }
}

proof fn lemma_line_feed_is_first(bytes: Seq<u8>, i: int)
    requires
        0 <= i <= bytes.len(),
    ensures
        ({
            let end = searching::line_feed_from(bytes, i);
            &&& i <= end <= bytes.len()
            &&& end == bytes.len() || bytes[end] == 10
            &&& forall|k: int| i <= k < end ==> bytes[k] != 10
        }),
    decreases bytes.len() - i,
{
    if i < bytes.len() && bytes[i] != 10 {
        lemma_line_feed_is_first(bytes, i + 1);
    }
}

proof fn lemma_holds(line: Seq<char>, query: Seq<char>, case_sensitive: bool)
    ensures
        holds(line, query, case_sensitive) == text::contains_text(
            searching::matched_form(line, case_sensitive),
            searching::matched_form(query, case_sensitive),
        ),
{
    let s = searching::matched_form(line, case_sensitive);
    let pat = searching::matched_form(query, case_sensitive);
    text::lemma_find_from(s, pat, 0);
    match text::find_from(s, pat, 0) {
        Some(k) => {
            assert forall|j: int| 0 <= j < pat.len() implies #[trigger] s[k + j] == pat[j] by {
                assert(s.subrange(k, k + pat.len())[j] == pat[j]);
            }
            assert(text_laws::stands_at(s, pat, k));
        },
        None => {
            assert forall|k: int| !text_laws::stands_at(s, pat, k) by {
                if text_laws::stands_at(s, pat, k) {
                    assert forall|j: int| 0 <= j < pat.len() implies #[trigger] s.subrange(
                        k,
                        k + pat.len(),
                    )[j] == pat[j] by {
                        assert(s[k + j] == pat[j]);
                    }
                    assert(s.subrange(k, k + pat.len()) =~= pat);
                    assert(text::occurs_at(s, pat, k));
                }
            }
        },
    }
}

/// What searching a file from byte `i` on, where a line starts, adds to `before`.
spec fn is_right(
    r: FoundView,
    path: Seq<char>,
    bytes: Seq<u8>,
    request: SearchView,
    i: int,
    before: Seq<MatchView>,
) -> bool {
    &&& before.len() <= r.matches.len()
    &&& forall|k: int| 0 <= k < before.len() ==> #[trigger] r.matches[k] == before[k]
    &&& forall|k: int|
        before.len() <= k < r.matches.len() ==> is_found(
            #[trigger] r.matches[k],
            path,
            bytes,
            request,
            i,
        )
    &&& forall|j: int, k: int|
        before.len() <= j < k < r.matches.len() ==> (#[trigger] r.matches[j]).line < (
        #[trigger] r.matches[k]).line
    &&& forall|start: int, end: int|
        i <= start && #[trigger] is_asked_for(bytes, start, end, request) && (!r.full
            || feeds_before(bytes, start) < r.matches.last().line) ==> exists|k: int|
            before.len() <= k < r.matches.len() && tells_of(
                #[trigger] r.matches[k],
                path,
                bytes,
                start,
                end,
            )
    &&& r.full ==> before.len() < r.matches.len()
}

proof fn lemma_search(
    path: Seq<char>,
    bytes: Seq<u8>,
    request: SearchView,
    i: int,
    before: Seq<MatchView>,
)
    requires
        0 <= i,
        0 < i < bytes.len() ==> bytes[i - 1] == 10,
    ensures
        is_right(
            searching::search_from(
                path,
                bytes,
                request,
                searching::matched_form(request.query, request.case_sensitive),
                i,
                feeds_before(bytes, i) + 1,
                before,
            ),
            path,
            bytes,
            request,
            i,
            before,
        ),
    decreases bytes.len() + 1 - i,
{
    let needle = searching::matched_form(request.query, request.case_sensitive);
    let number = feeds_before(bytes, i) + 1;
    let r = searching::search_from(path, bytes, request, needle, i, number, before);
    if i < bytes.len() {
        let end = searching::line_feed_from(bytes, i);
        lemma_line_feed_is_first(bytes, i);
        assert(is_line(bytes, i, end));
        let line = searching::line_at(bytes, i);
        assert(line == line_bytes(bytes, i, end));
        lemma_holds(decode_utf8(line), request.query, request.case_sensitive);
        lemma_feeds_stay(bytes, i, end);
        let asked = is_asked_for(bytes, i, end, request);
        let m = MatchView { path, line: number, text: decode_utf8(line) };
        assert(tells_of(m, path, bytes, i, end));
        let more = if asked {
            before.push(m)
        } else {
            before
        };
        if end < bytes.len() {
            assert(feeds_before(bytes, end + 1) == number);
        }
        assert forall|start: int, stop: int|
            i <= start && #[trigger] is_asked_for(bytes, start, stop, request) implies (start == i
            && stop == end) || (end < start && feeds_before(bytes, start) >= number) by {
            if start <= end {
                if i < start {
                    assert(bytes[start - 1] == 10);
                }
                assert(start == i);
                if stop < end {
                    assert(bytes[stop] == 10);
                }
                if end < stop {
                    assert(bytes[end] != 10);
                }
            } else {
                lemma_feeds_grow(bytes, end + 1, start);
            }
        }
        if asked && more.len() == request.max_results {
            assert(r == FoundView { matches: more, full: true });
            assert(r.matches[before.len() as int] == m);
        } else {
            if end < bytes.len() {
                lemma_search(path, bytes, request, end + 1, more);
                assert(r == searching::search_from(
                    path,
                    bytes,
                    request,
                    needle,
                    end + 1,
                    number + 1,
                    more,
                ));
            } else {
                let rest = searching::search_from(
                    path,
                    bytes,
                    request,
                    needle,
                    end + 1,
                    number + 1,
                    more,
                );
                assert(rest == FoundView { matches: more, full: false });
                assert(r == rest);
            }
            assert(more.len() <= r.matches.len());
            if asked {
                assert(r.matches[before.len() as int] == more[before.len() as int]);
                assert(r.matches[before.len() as int] == m);
            }
            assert forall|k: int| 0 <= k < before.len() implies #[trigger] r.matches[k]
                == before[k] by {
                assert(r.matches[k] == more[k]);
            }
            assert forall|k: int| before.len() <= k < r.matches.len() implies is_found(
                #[trigger] r.matches[k],
                path,
                bytes,
                request,
                i,
            ) by {
                if k < more.len() {
                    assert(tells_of(r.matches[k], path, bytes, i, end));
                } else {
                    assert(is_found(r.matches[k], path, bytes, request, end + 1));
                }
            }
            assert forall|j: int, k: int| before.len() <= j < k < r.matches.len() implies (
            #[trigger] r.matches[j]).line < (#[trigger] r.matches[k]).line by {
                if j < more.len() {
                    assert(r.matches[j] == m);
                    assert(more.len() <= k);
                    assert(is_found(r.matches[k], path, bytes, request, end + 1));
                    let (start, stop) = choose|start: int, stop: int|
                        end + 1 <= start && is_asked_for(bytes, start, stop, request)
                            && #[trigger] tells_of(r.matches[k], path, bytes, start, stop);
                    assert(feeds_before(bytes, start) >= number);
                }
            }
            assert forall|start: int, stop: int|
                i <= start && #[trigger] is_asked_for(bytes, start, stop, request) && (!r.full
                    || feeds_before(bytes, start) < r.matches.last().line) implies exists|k: int|
                before.len() <= k < r.matches.len() && tells_of(
                    #[trigger] r.matches[k],
                    path,
                    bytes,
                    start,
                    stop,
                ) by {
                if start == i {
                    assert(tells_of(r.matches[before.len() as int], path, bytes, start, stop));
                } else {
                    assert(end < start < bytes.len());
                    let k = choose|k: int|
                        more.len() <= k < r.matches.len() && tells_of(
                            #[trigger] r.matches[k],
                            path,
                            bytes,
                            start,
                            stop,
                        );
                    assert(tells_of(r.matches[k], path, bytes, start, stop));
                }
            }
        }
    }
}

/// The matches that a file adds are lines of the file: each has the file's path, the
/// number of its line among all lines of the file, and the text of that line. Each of
/// these lines holds the query. They come in the order of the file, behind the earlier
/// matches, and none is told of twice.
pub proof fn law_matches_are_lines_of_the_file(
    path: Seq<char>,
    length: u64,
    bytes: Seq<u8>,
    request: SearchView,
    before: Seq<MatchView>,
)
    ensures
        ({
            let r = searching::searched(
                path,
                length,
                bytes,
                request,
                searching::matched_form(request.query, request.case_sensitive),
                before,
            );
            &&& before.len() <= r.matches.len()
            &&& r.matches.take(before.len() as int) == before
            &&& forall|k: int|
                before.len() <= k < r.matches.len() ==> is_found(
                    #[trigger] r.matches[k],
                    path,
                    bytes,
                    request,
                    0,
                )
            &&& forall|j: int, k: int|
                before.len() <= j < k < r.matches.len() ==> (#[trigger] r.matches[j]).line < (
                #[trigger] r.matches[k]).line
        }),
{
    let r = searching::searched(
        path,
        length,
        bytes,
        request,
        searching::matched_form(request.query, request.case_sensitive),
        before,
    );
    if length <= reading::MAX_SEARCH_FILE_BYTES {
        lemma_search(path, bytes, request, 0, before);
    }
    assert(r.matches.take(before.len() as int) =~= before);
}

/// A search misses no line: of a file that is not too large, every line that is UTF-8 and
/// holds the query is among the matches that the file adds. If the search became full in
/// the file, that is so up to the line of the last match.
pub proof fn law_no_matching_line_is_missed(
    path: Seq<char>,
    length: u64,
    bytes: Seq<u8>,
    request: SearchView,
    before: Seq<MatchView>,
    start: int,
    end: int,
)
    requires
        length <= 2 * 1024 * 1024,
        is_asked_for(bytes, start, end, request),
    ensures
        ({
            let r = searching::searched(
                path,
                length,
                bytes,
                request,
                searching::matched_form(request.query, request.case_sensitive),
                before,
            );
            !r.full || feeds_before(bytes, start) < r.matches.last().line ==> exists|k: int|
                before.len() <= k < r.matches.len() && tells_of(
                    #[trigger] r.matches[k],
                    path,
                    bytes,
                    start,
                    end,
                )
        }),
{
    lemma_search(path, bytes, request, 0, before);
}

/// Every match of a search of several files is a line of one of them.
pub proof fn law_whole_searches_find_lines(request: SearchView, files: Seq<FileView>, k: int)
    requires
        0 <= k < searching::search_all(request, files).matches.len(),
    ensures
        exists|f: int|
            0 <= f < files.len() && is_found(
                searching::search_all(request, files).matches[k],
                (#[trigger] files[f]).path,
                files[f].bytes,
                request,
                0,
            ),
    decreases files.len(),
{
    let before = files.drop_last();
    let file = files.last();
    let so_far = searching::search_all(request, before);
    let r = searching::search_all(request, files);
    law_matches_are_lines_of_the_file(file.path, file.length, file.bytes, request, so_far.matches);
    if k < so_far.matches.len() {
        law_whole_searches_find_lines(request, before, k);
        assert(so_far.full || r.matches.take(so_far.matches.len() as int)[k] == r.matches[k]);
        assert(r.matches[k] == so_far.matches[k]);
        let f = choose|f: int|
            0 <= f < before.len() && is_found(
                so_far.matches[k],
                (#[trigger] before[f]).path,
                before[f].bytes,
                request,
                0,
            );
        assert(files[f] == before[f]);
    } else {
        assert(files[files.len() - 1] == file);
    }
}

/// A search of several files that does not become full misses no line of any of them.
pub proof fn law_whole_searches_miss_no_line(
    request: SearchView,
    files: Seq<FileView>,
    f: int,
    start: int,
    end: int,
)
    requires
        0 <= f < files.len(),
        files[f].length <= 2 * 1024 * 1024,
        is_asked_for(files[f].bytes, start, end, request),
        !searching::search_all(request, files).full,
    ensures
        exists|k: int|
            0 <= k < searching::search_all(request, files).matches.len() && tells_of(
                #[trigger] searching::search_all(request, files).matches[k],
                files[f].path,
                files[f].bytes,
                start,
                end,
            ),
    decreases files.len(),
{
    let before = files.drop_last();
    let file = files.last();
    let so_far = searching::search_all(request, before);
    let r = searching::search_all(request, files);
    law_matches_are_lines_of_the_file(file.path, file.length, file.bytes, request, so_far.matches);
    if f < files.len() - 1 {
        assert(before[f] == files[f]);
        law_whole_searches_miss_no_line(request, before, f, start, end);
        let k = choose|k: int|
            0 <= k < so_far.matches.len() && tells_of(
                #[trigger] so_far.matches[k],
                files[f].path,
                files[f].bytes,
                start,
                end,
            );
        assert(r.matches.take(so_far.matches.len() as int)[k] == r.matches[k]);
        assert(tells_of(r.matches[k], files[f].path, files[f].bytes, start, end));
    } else {
        law_no_matching_line_is_missed(
            file.path,
            file.length,
            file.bytes,
            request,
            so_far.matches,
            start,
            end,
        );
    }
}

} // verus!
