//! Laws of change sets: what they tell of each side, and what they leave out.

use crate::workspace::changes;
use crate::workspace::changes::ChangeView;
use crate::workspace::manifest;
use crate::workspace::manifest::{Listing, PrintView};
use vstd::prelude::*;

verus! {

/// Whether a listing holds a file under a path.
pub open spec fn holds(v: Listing, path: Seq<char>, f: PrintView) -> bool {
    exists|k: int| 0 <= k < v.len() && #[trigger] v[k] == (path, f)
}

/// Whether a listing holds nothing under a path.
pub open spec fn lacks(v: Listing, path: Seq<char>) -> bool {
    forall|k: int| 0 <= k < v.len() ==> (#[trigger] v[k]).0 != path
}

proof fn lemma_found(v: Listing, path: Seq<char>)
    requires
        manifest::sorted(v),
    ensures
        forall|f: PrintView| #[trigger]
            holds(v, path, f) <==> manifest::listed(v, path) == Some(f),
        lacks(v, path) <==> manifest::listed(v, path) is None,
{
    assert forall|f: PrintView| #[trigger]
        holds(v, path, f) <==> manifest::listed(v, path) == Some(f) by {
        if holds(v, path, f) {
            let k = choose|k: int| 0 <= k < v.len() && #[trigger] v[k] == (path, f);
            manifest::lemma_listed(v, k);
        }
        if manifest::listed(v, path) == Some(f) {
            let k = choose|k: int| 0 <= k < v.len() && (#[trigger] v[k]).0 == path;
            manifest::lemma_listed(v, k);
            assert(v[k] == (path, f));
        }
    }
    if !lacks(v, path) {
        let k = choose|k: int| 0 <= k < v.len() && (#[trigger] v[k]).0 == path;
        manifest::lemma_listed(v, k);
    }
}

/// A change tells of each side what the snapshot of that side holds: the digest, the mode
/// and the size of the file, or that there is none. The two sides are never the same.
pub proof fn law_changes_tell_both_sides(
    before: Listing,
    after: Listing,
    all: Seq<ChangeView>,
    i: int,
)
    requires
        manifest::sorted(before),
        manifest::sorted(after),
        changes::is_change_set(before, after, all),
        0 <= i < all.len(),
    ensures
        ({
            let c = all[i];
            &&& forall|f: PrintView| #[trigger]
                holds(before, c.path, f) ==> c.before_digest == Some(f.digest)
                    && c.before_unix_mode == f.unix_mode && c.bytes_removed == f.bytes
                    && !holds(after, c.path, f)
            &&& lacks(before, c.path) ==> c.before_digest is None && c.before_unix_mode is None
                && c.bytes_removed == 0 && !lacks(after, c.path)
            &&& forall|f: PrintView| #[trigger]
                holds(after, c.path, f) ==> c.after_digest == Some(f.digest) && c.after_unix_mode
                    == f.unix_mode && c.bytes_added == f.bytes
            &&& lacks(after, c.path) ==> c.after_digest is None && c.after_unix_mode is None
                && c.bytes_added == 0
        }),
{
    let c = all[i];
    lemma_found(before, c.path);
    lemma_found(after, c.path);
    assert(changes::change_at(before, after, c.path) == Some(c));
}

/// A path is among the changes if and only if the two snapshots hold different things
/// under it.
pub proof fn law_changed_paths_are_told(
    before: Listing,
    after: Listing,
    all: Seq<ChangeView>,
    path: Seq<char>,
)
    requires
        manifest::sorted(before),
        manifest::sorted(after),
        changes::is_change_set(before, after, all),
    ensures
        (exists|i: int| 0 <= i < all.len() && (#[trigger] all[i]).path == path) <==> !((lacks(
            before,
            path,
        ) && lacks(after, path)) || exists|f: PrintView| #[trigger]
            holds(before, path, f) && holds(after, path, f)),
{
    lemma_found(before, path);
    lemma_found(after, path);
    let a = manifest::listed(before, path);
    let b = manifest::listed(after, path);
    if a == b && a is Some {
        assert(holds(before, path, a->0) && holds(after, path, a->0));
    }
    if changes::touches(all, path) {
        let i = choose|i: int| 0 <= i < all.len() && (#[trigger] all[i]).path == path;
        assert(changes::change_at(before, after, all[i].path) == Some(all[i]));
    } else if a != b {
        assert(changes::change_at(before, after, path) is Some);
    }
}

/// A change seen from the other side.
pub open spec fn reversed(c: ChangeView) -> ChangeView {
    ChangeView {
        path: c.path,
        before_digest: c.after_digest,
        after_digest: c.before_digest,
        before_unix_mode: c.after_unix_mode,
        after_unix_mode: c.before_unix_mode,
        bytes_added: c.bytes_removed,
        bytes_removed: c.bytes_added,
    }
}

/// The changes back are the changes there, each seen from the other side.
pub proof fn law_changes_back_are_reversed(before: Listing, after: Listing, all: Seq<ChangeView>)
    requires
        changes::is_change_set(before, after, all),
    ensures
        changes::is_change_set(after, before, all.map_values(|c: ChangeView| reversed(c))),
{
    let back = all.map_values(|c: ChangeView| reversed(c));
    assert forall|i: int, j: int| 0 <= i < j < back.len() implies crate::text::precedes(
        (#[trigger] back[i]).path,
        (#[trigger] back[j]).path,
    ) by {
        assert(crate::text::precedes(all[i].path, all[j].path));
    }
    assert forall|i: int| 0 <= i < back.len() implies changes::change_at(
        after,
        before,
        (#[trigger] back[i]).path,
    ) == Some(back[i]) by {
        assert(changes::change_at(before, after, all[i].path) == Some(all[i]));
    }
    assert forall|path: Seq<char>| #[trigger]
        changes::change_at(after, before, path) is Some implies changes::touches(back, path) by {
        assert(changes::change_at(before, after, path) is Some);
        let i = choose|i: int| 0 <= i < all.len() && (#[trigger] all[i]).path == path;
        assert(back[i].path == path);
    }
}

} // verus!
