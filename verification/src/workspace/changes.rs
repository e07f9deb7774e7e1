//! The changes between two snapshots.

use crate::text;
use crate::workspace::manifest;
use crate::workspace::manifest::{FileFingerprint, FileTable, Listing, PrintView};
use vstd::prelude::*;

verus! {

/// One file-level change from a baseline.
#[derive(Debug, PartialEq, Eq)]
pub struct FileChange {
    pub path: String,
    pub before_digest: Option<String>,
    pub after_digest: Option<String>,
    pub before_unix_mode: Option<u32>,
    pub after_unix_mode: Option<u32>,
    pub bytes_added: u64,
    pub bytes_removed: u64,
}

/// A [`FileChange`] by its texts.
pub struct ChangeView {
    pub path: Seq<char>,
    pub before_digest: Option<Seq<char>>,
    pub after_digest: Option<Seq<char>>,
    pub before_unix_mode: Option<u32>,
    pub after_unix_mode: Option<u32>,
    pub bytes_added: u64,
    pub bytes_removed: u64,
}

impl DeepView for FileChange {
    type V = ChangeView;

    open spec fn deep_view(&self) -> ChangeView {
        ChangeView {
            path: self.path@,
            before_digest: self.before_digest.deep_view(),
            after_digest: self.after_digest.deep_view(),
            before_unix_mode: self.before_unix_mode,
            after_unix_mode: self.after_unix_mode,
            bytes_added: self.bytes_added,
            bytes_removed: self.bytes_removed,
        }
    }
}

impl Clone for FileChange {
    fn clone(&self) -> (r: Self)
        ensures
            r.deep_view() == self.deep_view(),
    {
        FileChange {
            path: self.path.clone(),
            before_digest: text::copy_option(&self.before_digest),
            after_digest: text::copy_option(&self.after_digest),
            before_unix_mode: self.before_unix_mode,
            after_unix_mode: self.after_unix_mode,
            bytes_added: self.bytes_added,
            bytes_removed: self.bytes_removed,
        }
    }
}

/// The digest of a file that may be missing.
pub open spec fn digest_of(f: Option<PrintView>) -> Option<Seq<char>> {
    match f {
        Some(p) => Some(p.digest),
        None => None,
    }
}

/// The mode of a file that may be missing.
pub open spec fn mode_of(f: Option<PrintView>) -> Option<u32> {
    match f {
        Some(p) => p.unix_mode,
        None => None,
    }
}

/// The size of a file that may be missing.
pub open spec fn size_of(f: Option<PrintView>) -> u64 {
    match f {
        Some(p) => p.bytes,
        None => 0,
    }
}

/// The change of one file from `before` to `after`.
pub open spec fn change_of(path: Seq<char>, before: Option<PrintView>, after: Option<PrintView>) -> ChangeView {
    ChangeView {
        path,
        before_digest: digest_of(before),
        after_digest: digest_of(after),
        before_unix_mode: mode_of(before),
        after_unix_mode: mode_of(after),
        bytes_added: size_of(after),
        bytes_removed: size_of(before),
    }
}

/// The change at a path, if it changed.
pub open spec fn change_at(before: Listing, after: Listing, path: Seq<char>) -> Option<ChangeView> {
    if manifest::listed(before, path) == manifest::listed(after, path) {
        None
    } else {
        Some(change_of(path, manifest::listed(before, path), manifest::listed(after, path)))
    }
}

/// Whether changes are in the order of their paths, each of which occurs once.
pub open spec fn ordered(changes: Seq<ChangeView>) -> bool {
    forall|i: int, j: int|
        0 <= i < j < changes.len() ==> text::precedes(
            (#[trigger] changes[i]).path,
            (#[trigger] changes[j]).path,
        )
}

/// Whether a change at the path is among the changes.
pub open spec fn touches(changes: Seq<ChangeView>, path: Seq<char>) -> bool {
    exists|i: int| 0 <= i < changes.len() && (#[trigger] changes[i]).path == path
}

/// Whether the changes are those between two snapshots: each path that changed, once
/// and in order, and no other.
pub open spec fn is_change_set(
    before: Listing,
    after: Listing,
    changes: Seq<ChangeView>,
) -> bool {
    &&& ordered(changes)
    &&& forall|i: int|
        0 <= i < changes.len() ==> change_at(before, after, (#[trigger] changes[i]).path) == Some(
            changes[i],
        )
    &&& forall|path: Seq<char>| #[trigger]
        change_at(before, after, path) is Some ==> touches(changes, path)
}

/// The change at a path from `before` to `after`.
fn change(path: &str, before: Option<&FileFingerprint>, after: Option<&FileFingerprint>) -> (r:
    FileChange)
    ensures
        r.deep_view() == change_of(path@, before.deep_view(), after.deep_view()),
{
    let (before_digest, before_unix_mode, bytes_removed) = match before {
        Some(f) => (Some(f.digest.clone()), f.unix_mode, f.bytes),
        None => (None, None, 0),
    };
    let (after_digest, after_unix_mode, bytes_added) = match after {
        Some(f) => (Some(f.digest.clone()), f.unix_mode, f.bytes),
        None => (None, None, 0),
    };
    FileChange {
        path: path.to_owned(),
        before_digest,
        after_digest,
        before_unix_mode,
        after_unix_mode,
        bytes_added,
        bytes_removed,
    }
}

/// How far a comparison of two snapshots has come: the entries before `i` and `j` have
/// been looked at, and come before all others.
spec fn looked_at(a: Listing, b: Listing, i: int, j: int, done: Seq<ChangeView>) -> bool {
    &&& ordered(done)
    &&& forall|k: int|
        0 <= k < done.len() ==> change_at(a, b, (#[trigger] done[k]).path) == Some(done[k])
    &&& forall|k: int|
        0 <= k < i && change_at(a, b, (#[trigger] a[k]).0) is Some ==> touches(done, a[k].0)
    &&& forall|k: int|
        0 <= k < j && change_at(a, b, (#[trigger] b[k]).0) is Some ==> touches(done, b[k].0)
    &&& forall|k: int, n: int|
        0 <= k < i && j <= n < b.len() ==> text::precedes((#[trigger] a[k]).0, (#[trigger] b[n]).0)
    &&& forall|k: int, n: int|
        0 <= k < j && i <= n < a.len() ==> text::precedes((#[trigger] b[k]).0, (#[trigger] a[n]).0)
    &&& forall|k: int, n: int|
        0 <= k < done.len() && i <= n < a.len() ==> text::precedes(
            (#[trigger] done[k]).path,
            (#[trigger] a[n]).0,
        )
    &&& forall|k: int, n: int|
        0 <= k < done.len() && j <= n < b.len() ==> text::precedes(
            (#[trigger] done[k]).path,
            (#[trigger] b[n]).0,
        )
}

/// A path that comes after the looked-at entries and before or at the next ones is
/// found where it stands.
proof fn lemma_absent(v: Listing, j: int, path: Seq<char>)
    requires
        manifest::sorted(v),
        0 <= j <= v.len(),
        forall|k: int| 0 <= k < j ==> text::precedes((#[trigger] v[k]).0, path),
        j < v.len() ==> text::precedes(path, v[j].0),
    ensures
        manifest::listed(v, path) is None,
{
    if manifest::lists(v, path) {
        let k = choose|k: int| 0 <= k < v.len() && (#[trigger] v[k]).0 == path;
        text::lemma_precedes_irreflexive(path);
        if k >= j {
            if k > j {
                assert(text::precedes(v[j].0, v[k].0));
                text::lemma_precedes_transitive(path, v[j].0, v[k].0);
            }
        }
    }
}

/// Looking at one more path.
proof fn lemma_look(
    a: Listing,
    b: Listing,
    i: int,
    j: int,
    i2: int,
    j2: int,
    path: Seq<char>,
    done: Seq<ChangeView>,
    next: Seq<ChangeView>,
)
    requires
        manifest::sorted(a),
        manifest::sorted(b),
        0 <= i <= a.len(),
        0 <= j <= b.len(),
        looked_at(a, b, i, j, done),
        i2 == i || (i2 == i + 1 && i < a.len() && a[i].0 == path),
        j2 == j || (j2 == j + 1 && j < b.len() && b[j].0 == path),
        i2 > i || j2 > j,
        i2 == i && i < a.len() ==> text::precedes(path, a[i].0),
        j2 == j && j < b.len() ==> text::precedes(path, b[j].0),
        change_at(a, b, path) is None ==> next == done,
        change_at(a, b, path) is Some ==> next == done.push(change_at(a, b, path)->0),
    ensures
        looked_at(a, b, i2, j2, next),
{
    assert forall|n: int| i2 <= n < a.len() implies text::precedes(
        path,
        (#[trigger] a[n]).0,
    ) by {
        if i2 == i {
            if n > i {
                assert(text::precedes(a[i].0, a[n].0));
                text::lemma_precedes_transitive(path, a[i].0, a[n].0);
            }
        } else {
            assert(text::precedes(a[i].0, a[n].0));
        }
    }
    assert forall|n: int| j2 <= n < b.len() implies text::precedes(
        path,
        (#[trigger] b[n]).0,
    ) by {
        if j2 == j {
            if n > j {
                assert(text::precedes(b[j].0, b[n].0));
                text::lemma_precedes_transitive(path, b[j].0, b[n].0);
            }
        } else {
            assert(text::precedes(b[j].0, b[n].0));
        }
    }
    assert forall|k: int| 0 <= k < done.len() implies text::precedes(
        (#[trigger] done[k]).path,
        path,
    ) by {
        if i2 > i {
            assert(text::precedes(done[k].path, a[i].0));
        } else {
            assert(text::precedes(done[k].path, b[j].0));
        }
    }
    assert forall|k: int| 0 <= k < next.len() implies change_at(
        a,
        b,
        (#[trigger] next[k]).path,
    ) == Some(next[k]) by {
        if k < done.len() {
            assert(next[k] == done[k]);
        }
    }
    assert forall|p: Seq<char>| touches(done, p) implies #[trigger] touches(next, p) by {
        let k = choose|k: int| 0 <= k < done.len() && (#[trigger] done[k]).path == p;
        assert(next[k] == done[k]);
    }
    if change_at(a, b, path) is Some {
        assert(next[done.len() as int].path == path);
        assert(touches(next, path));
    }
    assert forall|k: int| 0 <= k < i2 && change_at(a, b, (#[trigger] a[k]).0) is Some implies touches(
        next,
        a[k].0,
    ) by {
        if k < i {
            assert(touches(done, a[k].0));
        }
    }
    assert forall|k: int| 0 <= k < j2 && change_at(a, b, (#[trigger] b[k]).0) is Some implies touches(
        next,
        b[k].0,
    ) by {
        if k < j {
            assert(touches(done, b[k].0));
        }
    }
    assert forall|x: int, y: int| 0 <= x < y < next.len() implies text::precedes(
        (#[trigger] next[x]).path,
        (#[trigger] next[y]).path,
    ) by {
        assert(next[x] == done[x]);
        if y < done.len() {
            assert(next[y] == done[y]);
        }
    }
    assert forall|k: int, n: int| 0 <= k < next.len() && i2 <= n < a.len() implies text::precedes(
        (#[trigger] next[k]).path,
        (#[trigger] a[n]).0,
    ) by {
        if k < done.len() {
            assert(next[k] == done[k]);
        }
    }
    assert forall|k: int, n: int| 0 <= k < next.len() && j2 <= n < b.len() implies text::precedes(
        (#[trigger] next[k]).path,
        (#[trigger] b[n]).0,
    ) by {
        if k < done.len() {
            assert(next[k] == done[k]);
        }
    }
}

/// The changes between two snapshots, in the order of their paths.
pub fn changes_between(before: &FileTable, after: &FileTable) -> (r: Vec<FileChange>)
    ensures
        is_change_set(before.deep_view(), after.deep_view(), r.deep_view()),
{
    let ghost a = before.deep_view();
    let ghost b = after.deep_view();
    let mut out: Vec<FileChange> = Vec::new();
    let mut i: usize = 0;
    let mut j: usize = 0;
    assert(out.deep_view() =~= Seq::<ChangeView>::empty());
    let before_len: usize = before.len();
    let after_len: usize = after.len();
    while i < before_len || j < after_len
        invariant
            a == before.deep_view(),
            b == after.deep_view(),
            before_len == a.len(),
            after_len == b.len(),
            manifest::sorted(a),
            manifest::sorted(b),
            i <= a.len(),
            j <= b.len(),
            looked_at(a, b, i as int, j as int, out.deep_view()),
        decreases (a.len() - i) + (b.len() - j),
    {
        let ghost done = out.deep_view();
        let ghost i0 = i as int;
        let ghost j0 = j as int;
        let old_first = j >= after_len || (i < before_len && text::comes_before(
            before.path_at(i),
            after.path_at(j),
        ));
        let new_first = i >= before_len || (j < after_len && text::comes_before(
            after.path_at(j),
            before.path_at(i),
        ));
        let ghost path: Seq<char>;
        if old_first {
            proof {
                path = a[i as int].0;
                manifest::lemma_listed(a, i as int);
                if new_first {
                    text::lemma_precedes_irreflexive(path);
                    text::lemma_precedes_transitive(path, b[j as int].0, path);
                }
                lemma_absent(b, j as int, path);
            }
            out.push(change(before.path_at(i), Some(before.print_at(i)), None));
            assert(out.deep_view() =~= done.push(change_at(a, b, path)->0));
            i += 1;
        } else if new_first {
            proof {
                path = b[j as int].0;
                manifest::lemma_listed(b, j as int);
                lemma_absent(a, i as int, path);
            }
            out.push(change(after.path_at(j), None, Some(after.print_at(j))));
            assert(out.deep_view() =~= done.push(change_at(a, b, path)->0));
            j += 1;
        } else {
            proof {
                path = a[i as int].0;
                text::lemma_precedes_total(path, b[j as int].0);
                manifest::lemma_listed(a, i as int);
                manifest::lemma_listed(b, j as int);
            }
            if !before.print_at(i).same(after.print_at(j)) {
                out.push(change(before.path_at(i), Some(before.print_at(i)), Some(after.print_at(j))));
                assert(out.deep_view() =~= done.push(change_at(a, b, path)->0));
            }
            i += 1;
            j += 1;
        }
        proof {
            lemma_look(a, b, i0, j0, i as int, j as int, path, done, out.deep_view());
        }
    }
    assert forall|path: Seq<char>| #[trigger] change_at(a, b, path) is Some implies touches(
        out.deep_view(),
        path,
    ) by {
        if manifest::lists(a, path) {
            let k = choose|k: int| 0 <= k < a.len() && (#[trigger] a[k]).0 == path;
            assert(touches(out.deep_view(), a[k].0));
        } else {
            assert(manifest::lists(b, path));
            let k = choose|k: int| 0 <= k < b.len() && (#[trigger] b[k]).0 == path;
            assert(touches(out.deep_view(), b[k].0));
        }
    }
    out
}

/// Whether two changes are the same.
fn same_change(a: &FileChange, b: &FileChange) -> (r: bool)
    ensures
        r == (a.deep_view() == b.deep_view()),
{
    text::same(a.path.as_str(), b.path.as_str()) && text::same_option(
        &a.before_digest,
        &b.before_digest,
    ) && text::same_option(&a.after_digest, &b.after_digest) && manifest::same_mode(
        a.before_unix_mode,
        b.before_unix_mode,
    ) && manifest::same_mode(a.after_unix_mode, b.after_unix_mode) && a.bytes_added
        == b.bytes_added && a.bytes_removed == b.bytes_removed
}

/// Whether two change sets are the same.
pub fn same_changes(a: &Vec<FileChange>, b: &Vec<FileChange>) -> (r: bool)
    ensures
        r == (a.deep_view() == b.deep_view()),
{
    let ghost x = a.deep_view();
    let ghost y = b.deep_view();
    assert(x.len() == a@.len());
    assert(y.len() == b@.len());
    if a.len() != b.len() {
        return false;
    }
    let mut i: usize = 0;
    while i < a.len()
        invariant
            i <= a@.len(),
            a@.len() == b@.len(),
            x == a.deep_view(),
            y == b.deep_view(),
            x.len() == a@.len(),
            y.len() == b@.len(),
            forall|k: int| 0 <= k < i ==> #[trigger] x[k] == y[k],
        decreases a@.len() - i,
    {
        assert(x[i as int] == a@[i as int].deep_view());
        assert(y[i as int] == b@[i as int].deep_view());
        if !same_change(&a[i], &b[i]) {
            return false;
        }
        i += 1;
    }
    assert(x =~= y);
    true
}

/// Between a snapshot and itself nothing changed.
pub proof fn law_equal_snapshots_have_no_changes(files: Listing, changes: Seq<ChangeView>)
    requires
        is_change_set(files, files, changes),
    ensures
        changes.len() == 0,
{
    if changes.len() > 0 {
        assert(change_at(files, files, changes[0].path) == Some(changes[0]));
    }
}

/// The changes between two snapshots are determined by them.
pub proof fn law_change_sets_are_unique(
    before: Listing,
    after: Listing,
    a: Seq<ChangeView>,
    b: Seq<ChangeView>,
)
    requires
        is_change_set(before, after, a),
        is_change_set(before, after, b),
    ensures
        a == b,
{
    assert(a.take(0) =~= b.take(0));
    lemma_same_prefix(before, after, a, b, 0);
}

proof fn lemma_same_prefix(
    before: Listing,
    after: Listing,
    a: Seq<ChangeView>,
    b: Seq<ChangeView>,
    n: int,
)
    requires
        is_change_set(before, after, a),
        is_change_set(before, after, b),
        0 <= n <= a.len(),
        n <= b.len(),
        a.take(n) == b.take(n),
    ensures
        a == b,
    decreases a.len() - n,
{
    assert forall|k: int| 0 <= k < n implies #[trigger] a[k] == b[k] by {
        assert(a.take(n)[k] == a[k]);
        assert(b.take(n)[k] == b[k]);
    }
    if n < a.len() {
        lemma_next_is_known(before, after, a, b, n);
        if n == b.len() {
            let k = choose|k: int| 0 <= k < b.len() && (#[trigger] b[k]).path == a[n].path;
            assert(a[k] == b[k]);
            text::lemma_precedes_irreflexive(a[n].path);
            assert(text::precedes(a[k].path, a[n].path));
        } else {
            lemma_next_is_known(before, after, b, a, n);
            let k = choose|k: int| 0 <= k < b.len() && (#[trigger] b[k]).path == a[n].path;
            let m = choose|m: int| 0 <= m < a.len() && (#[trigger] a[m]).path == b[n].path;
            text::lemma_precedes_irreflexive(a[n].path);
            if k < n {
                assert(a[k] == b[k]);
                assert(text::precedes(a[k].path, a[n].path));
            }
            if m < n {
                assert(a[m] == b[m]);
                assert(text::precedes(b[m].path, b[n].path));
                text::lemma_precedes_irreflexive(b[n].path);
            }
            if k > n && m > n {
                assert(text::precedes(b[n].path, b[k].path));
                assert(text::precedes(a[n].path, a[m].path));
                text::lemma_precedes_transitive(a[n].path, b[n].path, a[n].path);
            }
            assert(a[n] == b[n]);
            assert(a.take(n + 1) =~= a.take(n).push(a[n]));
            assert(b.take(n + 1) =~= b.take(n).push(b[n]));
            lemma_same_prefix(before, after, a, b, n + 1);
        }
    } else if n < b.len() {
        lemma_next_is_known(before, after, b, a, n);
        let k = choose|k: int| 0 <= k < a.len() && (#[trigger] a[k]).path == b[n].path;
        assert(a[k] == b[k]);
        text::lemma_precedes_irreflexive(b[n].path);
        assert(text::precedes(b[k].path, b[n].path));
    } else {
        assert(a.take(n) =~= a);
        assert(b.take(n) =~= b);
    }
}

proof fn lemma_next_is_known(
    before: Listing,
    after: Listing,
    a: Seq<ChangeView>,
    b: Seq<ChangeView>,
    n: int,
)
    requires
        is_change_set(before, after, a),
        is_change_set(before, after, b),
        0 <= n < a.len(),
    ensures
        touches(b, a[n].path),
        forall|k: int| 0 <= k < b.len() && (#[trigger] b[k]).path == a[n].path ==> b[k] == a[n],
{
    assert(change_at(before, after, a[n].path) == Some(a[n]));
}

} // verus!
