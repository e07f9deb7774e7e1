//! What replacing a text means: the source cut at each occurrence, and put together again.

use crate::text;
use vstd::prelude::*;

verus! {

/// Pieces put together with the same text between each two.
pub open spec fn woven(pieces: Seq<Seq<char>>, between: Seq<char>) -> Seq<char>
    decreases pieces.len(),
{
    if pieces.len() == 0 {
        Seq::empty()
    } else if pieces.len() == 1 {
        pieces[0]
    } else {
        pieces[0] + between + woven(pieces.drop_first(), between)
    }
}

/// Whether `pat` stands in `s` at `i`.
pub open spec fn stands_at(s: Seq<char>, pat: Seq<char>, i: int) -> bool {
    0 <= i && i + pat.len() <= s.len() && forall|k: int|
        0 <= k < pat.len() ==> #[trigger] s[i + k] == pat[k]
}

/// Whether `pat` stands nowhere in the first `n` positions of `s`.
pub open spec fn stands_not_before(s: Seq<char>, pat: Seq<char>, n: int) -> bool {
    forall|i: int| i < n ==> !#[trigger] stands_at(s, pat, i)
}

/// Whether `s` is cut into `pieces` at the occurrences of `pat`, found from left to right:
/// with `pat` between each two they are `s`, each piece is followed by the first
/// occurrence behind its start, and the last one has none.
pub open spec fn is_cut(s: Seq<char>, pat: Seq<char>, pieces: Seq<Seq<char>>) -> bool {
    &&& pieces.len() > 0
    &&& s == woven(pieces, pat)
    &&& forall|k: int|
        0 <= k < pieces.len() - 1 ==> stands_not_before(
            (#[trigger] pieces[k]) + pat,
            pat,
            pieces[k].len() as int,
        )
    &&& stands_not_before(pieces.last(), pat, pieces.last().len() as int)
}

proof fn lemma_stands(s: Seq<char>, pat: Seq<char>, i: int)
    ensures
        stands_at(s, pat, i) == text::occurs_at(s, pat, i),
{
    if stands_at(s, pat, i) {
        assert forall|k: int| 0 <= k < pat.len() implies s.subrange(i, i + pat.len())[k] == pat[k] by {
            assert(s[i + k] == pat[k]);
        }
        assert(s.subrange(i, i + pat.len()) =~= pat);
    }
    if text::occurs_at(s, pat, i) {
        assert forall|k: int| 0 <= k < pat.len() implies #[trigger] s[i + k] == pat[k] by {
            assert(s.subrange(i, i + pat.len())[k] == s[i + k]);
        }
    }
}

/// From a position on, a text does what the rest of it does alone.
proof fn lemma_shift(s: Seq<char>, pat: Seq<char>, new: Seq<char>, n: int, k: int)
    requires
        pat.len() > 0,
        0 <= n,
        0 <= k,
        n + k <= s.len(),
    ensures
        text::replace_from(s, pat, new, n + k) == text::replace_from(s.skip(n), pat, new, k),
        text::count_from(s, pat, n + k) == text::count_from(s.skip(n), pat, k),
    decreases s.len() - n - k,
{
    let t = s.skip(n);
    if n + k + pat.len() > s.len() {
        assert(s.skip(n + k) =~= t.skip(k));
    } else {
        assert(s.subrange(n + k, n + k + pat.len()) =~= t.subrange(k, k + pat.len()));
        if text::occurs_at(s, pat, n + k) {
            lemma_shift(s, pat, new, n, k + pat.len());
        } else {
            lemma_shift(s, pat, new, n, k + 1);
        }
    }
}

/// Up to the first occurrence, a text is kept as it is.
proof fn lemma_until(s: Seq<char>, pat: Seq<char>, new: Seq<char>, from: int, n: int)
    requires
        pat.len() > 0,
        0 <= from <= n,
        n + pat.len() <= s.len() || n == s.len(),
        forall|i: int| from <= i < n ==> !#[trigger] text::occurs_at(s, pat, i),
    ensures
        text::replace_from(s, pat, new, from) == s.subrange(from, n) + text::replace_from(
            s,
            pat,
            new,
            n,
        ),
        text::count_from(s, pat, from) == text::count_from(s, pat, n),
    decreases n - from,
{
    if from == n {
        assert(s.subrange(from, n) + text::replace_from(s, pat, new, n) =~= text::replace_from(
            s,
            pat,
            new,
            n,
        ));
    } else if from + pat.len() > s.len() {
        assert(n == s.len());
        assert(text::replace_from(s, pat, new, n) =~= Seq::<char>::empty());
        assert(s.skip(from) =~= s.subrange(from, n) + text::replace_from(s, pat, new, n));
    } else {
        assert(!text::occurs_at(s, pat, from));
        lemma_until(s, pat, new, from + 1, n);
        assert(seq![s[from]] + (s.subrange(from + 1, n) + text::replace_from(s, pat, new, n))
            =~= s.subrange(from, n) + text::replace_from(s, pat, new, n));
    }
}

/// A text that is cut at the occurrences of a pattern is replaced by its pieces with the
/// new text between each two, character by character, and there are as many occurrences
/// as there are cuts.
pub proof fn law_replacing_exchanges_what_is_between(
    s: Seq<char>,
    pat: Seq<char>,
    new: Seq<char>,
    pieces: Seq<Seq<char>>,
)
    requires
        pat.len() > 0,
        is_cut(s, pat, pieces),
    ensures
        text::replace_spec(s, pat, new) == woven(pieces, new),
        text::count_matches_spec(s, pat) == pieces.len() - 1,
    decreases pieces.len(),
{
    let first = pieces[0];
    let n = first.len() as int;
    if pieces.len() == 1 {
        assert forall|i: int| 0 <= i < n implies !#[trigger] text::occurs_at(s, pat, i) by {
            lemma_stands(s, pat, i);
            assert(!stands_at(pieces.last(), pat, i));
        }
        lemma_until(s, pat, new, 0, n);
        assert(s.subrange(0, n) + text::replace_from(s, pat, new, n) =~= s);
    } else {
        let rest = pieces.drop_first();
        let tail = woven(rest, pat);
        assert(s == first + pat + tail);
        assert forall|i: int| 0 <= i < n implies !#[trigger] text::occurs_at(s, pat, i) by {
            lemma_stands(s, pat, i);
            assert(!stands_at(pieces[0] + pat, pat, i));
            if stands_at(s, pat, i) {
                assert forall|k: int| 0 <= k < pat.len() implies #[trigger] (first + pat)[i + k]
                    == pat[k] by {
                    assert(s[i + k] == pat[k]);
                }
                assert(stands_at(first + pat, pat, i));
            }
        }
        lemma_until(s, pat, new, 0, n);
        assert(s.subrange(0, n) =~= first);
        assert(text::occurs_at(s, pat, n)) by {
            assert(s.subrange(n, n + pat.len()) =~= pat);
        }
        let m = n + pat.len();
        assert(s.skip(m) =~= tail);
        lemma_shift(s, pat, new, m, 0);
        assert forall|k: int| 0 <= k < rest.len() - 1 implies stands_not_before(
            (#[trigger] rest[k]) + pat,
            pat,
            rest[k].len() as int,
        ) by {
            assert(rest[k] == pieces[k + 1]);
        }
        assert(rest.last() == pieces.last());
        law_replacing_exchanges_what_is_between(tail, pat, new, rest);
        assert(first + (new + woven(rest, new)) =~= first + new + woven(rest, new));
    }
}

/// Every text can be cut at the occurrences of a pattern.
pub proof fn law_every_text_can_be_cut(s: Seq<char>, pat: Seq<char>) -> (pieces: Seq<Seq<char>>)
    requires
        pat.len() > 0,
    ensures
        is_cut(s, pat, pieces),
    decreases s.len(),
{
    text::lemma_find_from(s, pat, 0);
    match text::find_from(s, pat, 0) {
        None => {
            let pieces = seq![s];
            assert forall|i: int| i < s.len() implies !#[trigger] stands_at(s, pat, i) by {
                lemma_stands(s, pat, i);
            }
            pieces
        },
        Some(n) => {
            let first = s.take(n);
            let tail = s.skip(n + pat.len());
            let rest = law_every_text_can_be_cut(tail, pat);
            let pieces = seq![first] + rest;
            assert(pieces.drop_first() =~= rest);
            assert(s =~= first + pat + tail) by {
                assert(s.subrange(n, n + pat.len()) == pat);
            }
            assert forall|k: int| 0 <= k < pieces.len() - 1 implies stands_not_before(
                (#[trigger] pieces[k]) + pat,
                pat,
                pieces[k].len() as int,
            ) by {
                if k == 0 {
                    assert forall|i: int| i < n implies !#[trigger] stands_at(first + pat, pat, i) by {
                        lemma_stands(s, pat, i);
                        if stands_at(first + pat, pat, i) {
                            assert forall|j: int| 0 <= j < pat.len() implies #[trigger] s[i + j]
                                == pat[j] by {
                                assert((first + pat)[i + j] == pat[j]);
                                assert(s[i + j] == (first + pat + tail)[i + j]);
                            }
                            assert(stands_at(s, pat, i));
                        }
                    }
                } else {
                    assert(pieces[k] == rest[k - 1]);
                }
            }
            assert(pieces.last() == rest.last());
            pieces
        },
    }
}

/// Replacing the empty text puts the new text before each character and at the end.
pub proof fn law_replacing_nothing_goes_between(s: Seq<char>, new: Seq<char>)
    ensures
        text::count_matches_spec(s, Seq::empty()) == s.len() + 1,
        text::replace_spec(s, Seq::empty(), new).len() == s.len() + (s.len() + 1) * new.len(),
        forall|i: int|
            0 <= i < s.len() ==> #[trigger] text::replace_spec(s, Seq::empty(), new)[(i + 1)
                * new.len() + i] == s[i],
        forall|i: int, k: int|
            0 <= i <= s.len() && 0 <= k < new.len() ==> text::replace_spec(s, Seq::empty(), new)[i
                * (new.len() + 1) + k] == #[trigger] new_at(new, i, k),
    decreases s.len(),
{
    lemma_interleave(s, new);
}

/// The character of a text that stands at `k` in its copy `i`.
pub open spec fn new_at(new: Seq<char>, i: int, k: int) -> char {
    new[k]
}

proof fn lemma_interleave(s: Seq<char>, new: Seq<char>)
    ensures
        text::interleave(s, new).len() == s.len() + (s.len() + 1) * new.len(),
        forall|i: int|
            0 <= i < s.len() ==> #[trigger] text::interleave(s, new)[(i + 1) * new.len() + i]
                == s[i],
        forall|i: int, k: int|
            0 <= i <= s.len() && 0 <= k < new.len() ==> text::interleave(s, new)[i * (new.len()
                + 1) + k] == #[trigger] new_at(new, i, k),
    decreases s.len(),
{
    let w = new.len() as int;
    let n = s.len() as int;
    let all = text::interleave(s, new);
    if n == 0 {
        assert forall|i: int, k: int| 0 <= i <= n && 0 <= k < w implies all[i * (w + 1) + k]
            == #[trigger] new_at(new, i, k) by {
            assert(i * (w + 1) == 0) by (nonlinear_arith)
                requires
                    i == 0,
            ;
        }
    } else {
        let t = s.drop_last();
        lemma_interleave(t, new);
        let before = text::interleave(t, new);
        assert(all == before.push(s.last()) + new);
        assert(before.len() == (n - 1) + n * w);
        assert((n + 1) * w == n * w + w) by (nonlinear_arith);
        assert forall|i: int| 0 <= i < n implies #[trigger] all[(i + 1) * w + i] == s[i] by {
            if i < n - 1 {
                assert((i + 1) * w <= n * w) by (nonlinear_arith)
                    requires
                        i + 1 <= n,
                        w >= 0,
                ;
                assert((i + 1) * w >= 0) by (nonlinear_arith)
                    requires
                        i >= 0,
                        w >= 0,
                ;
                assert(before[(i + 1) * w + i] == t[i]);
            }
        }
        assert forall|i: int, k: int| 0 <= i <= n && 0 <= k < w implies all[i * (w + 1) + k]
            == #[trigger] new_at(new, i, k) by {
            assert(i * (w + 1) == i * w + i) by (nonlinear_arith);
            assert(i * w >= 0) by (nonlinear_arith)
                requires
                    i >= 0,
                    w >= 0,
            ;
            if i < n {
                assert(i * w + k < n * w) by (nonlinear_arith)
                    requires
                        i + 1 <= n,
                        0 <= k < w,
                ;
                assert(before[i * (w + 1) + k] == new_at(new, i, k));
            }
        }
    }
}

/// Where no occurrence of a pattern lies across the seam of two texts, each is replaced
/// by itself.
pub proof fn law_replacing_goes_part_by_part(
    a: Seq<char>,
    b: Seq<char>,
    pat: Seq<char>,
    new: Seq<char>,
)
    requires
        pat.len() > 0,
        forall|i: int|
            i < a.len() && a.len() < i + pat.len() ==> !#[trigger] stands_at(a + b, pat, i),
    ensures
        text::replace_spec(a + b, pat, new) == text::replace_spec(a, pat, new)
            + text::replace_spec(b, pat, new),
{
    lemma_parts(a, b, pat, new, 0);
}

proof fn lemma_parts(a: Seq<char>, b: Seq<char>, pat: Seq<char>, new: Seq<char>, from: int)
    requires
        pat.len() > 0,
        0 <= from <= a.len(),
        forall|i: int|
            i < a.len() && a.len() < i + pat.len() ==> !#[trigger] stands_at(a + b, pat, i),
    ensures
        text::replace_from(a + b, pat, new, from) == text::replace_from(a, pat, new, from)
            + text::replace_from(b, pat, new, 0),
    decreases a.len() - from,
{
    let s = a + b;
    let n = a.len() as int;
    if from == n {
        assert(s.skip(n) =~= b);
        lemma_shift(s, pat, new, n, 0);
        assert(text::replace_from(a, pat, new, from) =~= Seq::<char>::empty());
        assert(text::replace_from(s, pat, new, from) =~= text::replace_from(a, pat, new, from)
            + text::replace_from(b, pat, new, 0));
    } else if from + pat.len() > n {
        lemma_stands(s, pat, from);
        assert(!stands_at(s, pat, from));
        lemma_parts(a, b, pat, new, from + 1);
        assert(text::replace_from(a, pat, new, from + 1) =~= a.skip(from + 1));
        assert(s[from] == a[from]);
        if from + pat.len() > s.len() {
            assert(text::replace_from(b, pat, new, 0) =~= b);
            assert(s.skip(from) =~= a.skip(from) + b);
        } else {
            assert(seq![s[from]] + (a.skip(from + 1) + text::replace_from(b, pat, new, 0))
                =~= a.skip(from) + text::replace_from(b, pat, new, 0));
        }
    } else {
        assert(s.subrange(from, from + pat.len()) =~= a.subrange(from, from + pat.len()));
        if text::occurs_at(a, pat, from) {
            lemma_parts(a, b, pat, new, from + pat.len());
            assert(new + (text::replace_from(a, pat, new, from + pat.len()) + text::replace_from(
                b,
                pat,
                new,
                0,
            )) =~= text::replace_from(a, pat, new, from) + text::replace_from(b, pat, new, 0));
        } else {
            lemma_parts(a, b, pat, new, from + 1);
            assert(seq![s[from]] + (text::replace_from(a, pat, new, from + 1)
                + text::replace_from(b, pat, new, 0)) =~= text::replace_from(a, pat, new, from)
                + text::replace_from(b, pat, new, 0));
        }
    }
}

proof fn lemma_trim_start(s: Seq<char>)
    ensures
        ({
            let r = text::trim_start_spec(s);
            let a = s.len() - r.len();
            &&& 0 <= a
            &&& r == s.skip(a)
            &&& forall|i: int| 0 <= i < a ==> text::is_space_spec(#[trigger] s[i])
            &&& r.len() > 0 ==> !text::is_space_spec(r[0])
        }),
    decreases s.len(),
{
    if s.len() > 0 && text::is_space_spec(s[0]) {
        let rest = s.drop_first();
        lemma_trim_start(rest);
        let r = text::trim_start_spec(rest);
        let a = rest.len() - r.len();
        assert(rest.skip(a) =~= s.skip(a + 1));
        assert forall|i: int| 0 <= i < a + 1 implies text::is_space_spec(#[trigger] s[i]) by {
            if i > 0 {
                assert(text::is_space_spec(rest[i - 1]));
            }
        }
    } else {
        assert(s.skip(0) =~= s);
    }
}

proof fn lemma_trim_end(s: Seq<char>)
    ensures
        ({
            let r = text::trim_end_spec(s);
            &&& r.len() <= s.len()
            &&& r == s.take(r.len() as int)
            &&& forall|i: int| r.len() <= i < s.len() ==> text::is_space_spec(#[trigger] s[i])
            &&& r.len() > 0 ==> !text::is_space_spec(r.last())
        }),
    decreases s.len(),
{
    if s.len() > 0 && text::is_space_spec(s.last()) {
        let front = s.drop_last();
        lemma_trim_end(front);
        let r = text::trim_end_spec(front);
        assert(front.take(r.len() as int) =~= s.take(r.len() as int));
        assert forall|i: int| r.len() <= i < s.len() implies text::is_space_spec(
            #[trigger] s[i],
        ) by {
            if i < front.len() {
                assert(text::is_space_spec(front[i]));
            }
        }
    } else {
        assert(s.take(s.len() as int) =~= s);
    }
}

/// Whether the part of a text from `a` up to `b` is what is left without the white space
/// around it: before and behind it there is nothing else, and it neither begins nor ends
/// with any.
pub open spec fn is_inside(s: Seq<char>, a: int, b: int) -> bool {
    &&& 0 <= a <= b <= s.len()
    &&& forall|i: int| 0 <= i < a || b <= i < s.len() ==> text::is_space_spec(#[trigger] s[i])
    &&& a < b ==> !text::is_space_spec(s[a]) && !text::is_space_spec(s[b - 1])
}

/// Trimming a text leaves out the white space around it and nothing else.
pub proof fn law_trimming_keeps_the_inside(s: Seq<char>)
    ensures
        exists|a: int, b: int| #[trigger] is_inside(s, a, b) && text::trim_spec(s) == s.subrange(a, b),
{
    let start = text::trim_start_spec(s);
    lemma_trim_start(s);
    lemma_trim_end(start);
    let r = text::trim_spec(s);
    let a = s.len() - start.len();
    let b = a + r.len();
    assert(r =~= s.subrange(a, b));
    assert forall|i: int| 0 <= i < a || b <= i < s.len() implies text::is_space_spec(
        #[trigger] s[i],
    ) by {
        if b <= i {
            assert(s[i] == start[i - a]);
        }
    }
    if a < b {
        assert(s[a] == start[0]);
        assert(s[b - 1] == r.last());
    }
    assert(is_inside(s, a, b));
}

/// Blanks, tabs and line ends are white space, and no visible ASCII character is.
pub proof fn law_visible_characters_are_no_space(c: char)
    ensures
        c == ' ' || c == '\t' || c == '\n' || c == '\r' ==> text::is_space_spec(c),
        '!' <= c <= '~' ==> !text::is_space_spec(c),
{
}

/// Two texts are ordered by the first place at which they differ, and a beginning of a
/// text comes before it.
pub proof fn law_order_goes_by_the_first_difference(a: Seq<char>, b: Seq<char>, k: int)
    requires
        0 <= k <= a.len(),
        k <= b.len(),
        forall|i: int| 0 <= i < k ==> #[trigger] a[i] == b[i],
    ensures
        k < a.len() && k < b.len() && a[k] < b[k] ==> text::precedes(a, b) && !text::precedes(b, a),
        k == a.len() && k < b.len() ==> text::precedes(a, b) && !text::precedes(b, a),
        k == a.len() && k == b.len() ==> !text::precedes(a, b),
    decreases k,
{
    if k > 0 {
        let x = a.drop_first();
        let y = b.drop_first();
        assert(a[0] == b[0]);
        assert forall|i: int| 0 <= i < k - 1 implies #[trigger] x[i] == y[i] by {
            assert(a[i + 1] == b[i + 1]);
        }
        law_order_goes_by_the_first_difference(x, y, k - 1);
    }
}

} // verus!
