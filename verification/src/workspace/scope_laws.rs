//! Laws of write scopes: what a transaction lets tools read and write, and where.

use crate::text;
use crate::workspace::path;
use crate::workspace::path_laws;
use crate::workspace::transaction;
use crate::workspace::transaction::TransactionView;
use vstd::prelude::*;

verus! {

/// Whether a scope holds a path: the scope `.` holds every path, any other those whose
/// parts are its own and then any others.
pub open spec fn holds_path(scope: Seq<char>, parts: Seq<Seq<char>>) -> bool {
    ||| scope == "."@
    ||| exists|tail: Seq<Seq<char>>|
        path::path_spec(scope) is Ok && parts == #[trigger] (path::path_spec(scope)->Ok_0 + tail)
}

/// A path is written if and only if it is accepted and one of the scopes holds it; it is
/// read if and only if it is accepted. Both name the same place.
pub proof fn law_writes_need_a_scope(t: TransactionView, relative: Seq<char>)
    ensures
        transaction::read_spec(t, relative) is Ok <==> path::path_spec(relative) is Ok,
        transaction::write_spec(t, relative) is Ok <==> path::path_spec(relative) is Ok && exists|
            i: int,
        |
            0 <= i < t.metadata.allowed_write_paths.len() && holds_path(
                #[trigger] t.metadata.allowed_write_paths[i],
                path::path_spec(relative)->Ok_0,
            ),
        transaction::write_spec(t, relative) is Ok ==> transaction::write_spec(t, relative)
            == transaction::read_spec(t, relative),
{
    match path::path_spec(relative) {
        Ok(parts) => {
            let scopes = t.metadata.allowed_write_paths;
            assert forall|i: int| 0 <= i < scopes.len() implies transaction::scope_covers(
                #[trigger] scopes[i],
                parts,
            ) == holds_path(scopes[i], parts) by {
                match path::path_spec(scopes[i]) {
                    Ok(s) => {
                        path_laws::law_scopes_hold_what_is_below(s, Seq::empty(), parts);
                    },
                    Err(_) => {},
                }
            }
            if transaction::may_write(scopes, parts) {
                let i = choose|i: int|
                    0 <= i < scopes.len() && transaction::scope_covers(#[trigger] scopes[i], parts);
                assert(holds_path(scopes[i], parts));
            }
        },
        Err(_) => {},
    }
}

/// A path is read below the workspace that belongs to the transaction, under its own
/// parts.
pub proof fn law_paths_lie_in_the_workspace(t: TransactionView, relative: Seq<char>)
    requires
        t.control_root.len() > 0,
        t.control_root.last() != '/',
    ensures
        transaction::read_spec(t, relative) matches Ok(p) ==> p == t.control_root + "/workspace/"@
            + text::join_spec(path::path_spec(relative)->Ok_0, "/"@),
{
    reveal_strlit("/workspace/");
    reveal_strlit("workspace");
    reveal_strlit("/");
    let root = transaction::workspace_root_of(t.control_root);
    assert("/workspace/"@ =~= "/"@ + "workspace"@ + "/"@);
    assert(root.last() == "workspace"@.last());
    assert("workspace"@[8] == 'e');
    match path::path_spec(relative) {
        Ok(parts) => {
            let tail = text::join_spec(parts, "/"@);
            assert(t.control_root + "/"@ + "workspace"@ + "/"@ + tail =~= t.control_root
                + "/workspace/"@ + tail);
        },
        Err(_) => {},
    }
}

} // verus!
