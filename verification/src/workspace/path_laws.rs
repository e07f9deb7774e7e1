//! Laws of paths: what an accepted path names.

use crate::text;
use crate::workspace::path;
use crate::workspace::path::PathFault;
use vstd::prelude::*;

verus! {

proof fn lemma_split_joined(a: Seq<char>, b: Seq<char>, c: char)
    ensures
        text::split_char(a + seq![c] + b, c) == text::split_char(a, c) + text::split_char(b, c),
    decreases b.len(),
{
    let s = a + seq![c] + b;
    text::lemma_split_nonempty(a, text::is_char(c));
    text::lemma_split_nonempty(b, text::is_char(c));
    if b.len() == 0 {
        assert(b =~= Seq::empty());
        assert(s.drop_last() =~= a);
        assert(text::is_char(c)(s.last()));
        assert(text::split_char(b, c) =~= seq![Seq::<char>::empty()]);
        assert(text::split_char(s, c) =~= text::split_char(a, c) + text::split_char(b, c));
    } else {
        let front = b.drop_last();
        lemma_split_joined(a, front, c);
        text::lemma_split_nonempty(front, text::is_char(c));
        assert(s.drop_last() =~= a + seq![c] + front);
        assert(s.last() == b.last());
        assert(text::split_char(s, c) =~= text::split_char(a, c) + text::split_char(b, c));
    }
}

proof fn lemma_naming_joined(a: Seq<Seq<char>>, b: Seq<Seq<char>>)
    ensures
        path::naming(a + b) == path::naming(a) + path::naming(b),
    decreases b.len(),
{
    if b.len() == 0 {
        assert(a + b =~= a);
        assert(path::naming(a) + path::naming(b) =~= path::naming(a));
    } else {
        assert((a + b).drop_last() =~= a + b.drop_last());
        lemma_naming_joined(a, b.drop_last());
        assert(path::naming(a + b) =~= path::naming(a) + path::naming(b));
    }
}

/// A path behind another names the parts of the one and then those of the other.
pub proof fn law_paths_behind_each_other_join(a: Seq<char>, b: Seq<char>)
    requires
        path::path_spec(a) is Ok,
        path::path_spec(b) is Ok,
    ensures
        path::path_spec(a + seq!['/'] + b) == Ok::<Seq<Seq<char>>, PathFault>(
            path::path_spec(a)->Ok_0 + path::path_spec(b)->Ok_0,
        ),
{
    let s = a + seq!['/'] + b;
    let x = text::split_char(a, '/');
    let y = text::split_char(b, '/');
    lemma_split_joined(a, b, '/');
    lemma_naming_joined(x, y);
    assert(s[0] == a[0]);
    if (x + y).contains(".."@) {
        let i = choose|i: int| 0 <= i < (x + y).len() && (x + y)[i] == ".."@;
        if i < x.len() {
            assert(x[i] == ".."@);
        } else {
            assert(y[i - x.len()] == ".."@);
        }
        assert(false);
    }
}

/// A plain name is a path of that one part.
pub proof fn law_plain_names_are_paths(name: Seq<char>)
    requires
        name.len() > 0,
        forall|i: int| 0 <= i < name.len() ==> #[trigger] name[i] != '/',
        name != "."@,
        name != ".."@,
    ensures
        path::path_spec(name) == Ok::<Seq<Seq<char>>, PathFault>(seq![name]),
{
    text::lemma_split_free(name, '/');
    let pieces = seq![name];
    assert(pieces.drop_last() =~= Seq::empty());
    assert(path::naming(pieces.drop_last()) =~= Seq::empty());
    assert(path::naming(pieces) =~= seq![name]);
    assert(!pieces.contains(".."@));
}

/// An empty path, an absolute one and one with a double dot are refused, and the last two
/// for that reason alone.
pub proof fn law_refused_paths_lead_out(p: Seq<char>)
    ensures
        p.len() == 0 ==> path::path_spec(p) is Err,
        p.len() > 0 && p[0] == '/' ==> path::path_spec(p) is Err,
        text::split_char(p, '/').contains(".."@) ==> path::path_spec(p) is Err,
        path::path_spec(p) matches Err(PathFault::Traversal(q)) ==> q == p && text::split_char(
            p,
            '/',
        ).contains(".."@),
        path::path_spec(p) matches Err(PathFault::Absolute(q)) ==> q == p && p[0] == '/',
{
}

/// A path lies at or below a scope if and only if its parts are those of the scope and
/// then any others.
pub proof fn law_scopes_hold_what_is_below(
    scope: Seq<Seq<char>>,
    rest: Seq<Seq<char>>,
    other: Seq<Seq<char>>,
)
    ensures
        path::lies_below(scope + rest, scope),
        path::lies_below(other, scope) <==> exists|tail: Seq<Seq<char>>|
            other == #[trigger] (scope + tail),
{
    assert((scope + rest).take(scope.len() as int) =~= scope);
    if path::lies_below(other, scope) {
        let tail = other.skip(scope.len() as int);
        assert(other =~= scope + tail);
    }
    if exists|tail: Seq<Seq<char>>| other == #[trigger] (scope + tail) {
        let tail = choose|tail: Seq<Seq<char>>| other == #[trigger] (scope + tail);
        assert((scope + tail).take(scope.len() as int) =~= scope);
    }
}

} // verus!
