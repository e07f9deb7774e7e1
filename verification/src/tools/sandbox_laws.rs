//! Laws of sandboxed runs: what a container is started with, and what is kept of its
//! output.

use crate::text;
use crate::text_laws;
use crate::tools::patch_text_laws;
use crate::tools::process_backend;
use crate::tools::process_backend::{HostPathView, OciSandboxProfile, OciView, ProcessView};
use vstd::prelude::*;

verus! {

/// Whether the arguments at a place set a variable.
pub open spec fn sets(args: Seq<Seq<char>>, at: int, variable: (Seq<char>, Seq<char>)) -> bool {
    args[at] == "--env"@ && args[at + 1] == variable.0 + "="@ + variable.1
}

proof fn lemma_variables(environment: Seq<(Seq<char>, Seq<char>)>, count: int)
    requires
        0 <= count <= environment.len(),
    ensures
        process_backend::variables(environment, count).len() == 2 * count,
        forall|i: int|
            0 <= i < count ==> sets(
                process_backend::variables(environment, count),
                2 * i,
                #[trigger] environment[i],
            ),
    decreases count,
{
    if count > 0 {
        lemma_variables(environment, count - 1);
        let before = process_backend::variables(environment, count - 1);
        let v = process_backend::variables(environment, count);
        let (name, value) = environment[count - 1];
        assert(v == before.push("--env"@).push(name + "="@ + value));
        assert forall|i: int| 0 <= i < count implies sets(v, 2 * i, #[trigger] environment[i]) by {
            if i < count - 1 {
                assert(sets(before, 2 * i, environment[i]));
            }
        }
    }
}

/// A container gets every variable that was asked for, under its name and with its value,
/// in order and behind its fence.
pub proof fn law_containers_get_their_variables(
    backend: OciView,
    workspace: Seq<char>,
    request: ProcessView,
    container: Seq<char>,
    i: int,
)
    requires
        0 <= i < request.environment.len(),
    ensures
        process_backend::plan(backend, workspace, request, container) matches Ok(args) ==> {
            &&& 18 + 2 * i + 1 < args.len()
            &&& sets(args, 18 + 2 * i, request.environment[i])
        },
{
    let n = request.environment.len() as int;
    lemma_variables(request.environment, n);
    match process_backend::plan(backend, workspace, request, container) {
        Ok(args) => {
            let mount = process_backend::mount_argument(workspace)->Ok_0;
            let fenced = process_backend::fence(
                backend.profile,
                mount,
                container,
                request.program,
            );
            let v = process_backend::variables(request.environment, n);
            assert(fenced.len() == 18);
            assert(sets(v, 2 * i, request.environment[i]));
            assert(args[18 + 2 * i] == v[2 * i]);
            assert(args[18 + 2 * i + 1] == v[2 * i + 1]);
        },
        Err(_) => {},
    }
}

/// A container is started under its name, with its program, and within the limits of its
/// profile on processes, memory, processors and temporary files.
pub proof fn law_containers_are_limited(
    profile: OciSandboxProfile,
    mount: Seq<char>,
    container: Seq<char>,
    program: Seq<char>,
)
    ensures
        ({
            let args = process_backend::fence(profile, mount, container, program);
            &&& args.len() == 18
            &&& args[0] == "run"@
            &&& args[4] == "--name="@ + container
            &&& args[10] == "--pids-limit="@ + text::decimal(profile.pids_limit as nat)
            &&& args[11] == "--memory="@ + text::decimal(profile.memory_bytes as nat)
            &&& args[12] == "--memory-swap="@ + text::decimal(profile.memory_bytes as nat)
            &&& args[13] == "--cpus="@ + process_backend::cpus(profile.milli_cpus)
            &&& args[14] == "--tmpfs=/tmp:rw,noexec,nosuid,nodev,size="@ + text::decimal(
                profile.tmpfs_bytes as nat,
            )
            &&& args[16] == "--workdir=/workspace"@
            &&& args[17] == "--entrypoint="@ + program
        }),
{
}

/// A share of processors is written as a decimal number with three places: without its
/// point it is the number of thousandths.
pub proof fn law_processor_shares_are_thousandths(milli: u32)
    ensures
        ({
            let s = process_backend::cpus(milli);
            let whole = text::decimal((milli / 1000) as nat);
            &&& s.len() == whole.len() + 4
            &&& s.take(whole.len() as int) == whole
            &&& s[whole.len() as int] == '.'
            &&& text::all_digits(s.skip(whole.len() as int + 1))
            &&& text::digits_value(s.skip(whole.len() as int + 1)) == milli % 1000
        }),
{
    let s = process_backend::cpus(milli);
    let whole = text::decimal((milli / 1000) as nat);
    let n = (milli % 1000) as nat;
    let part = process_backend::three_digits(n);
    reveal_strlit(".");
    reveal_strlit("0");
    reveal_strlit("00");
    patch_text_laws::law_decimal_is_read_back(n);
    let d = text::decimal(n);
    reveal_with_fuel(text::decimal, 4);
    if n < 10 {
        assert(d.len() == 1);
        assert(part =~= seq!['0', '0', d[0]]);
        assert(part.drop_last() =~= seq!['0', '0']);
        assert(part.drop_last().drop_last() =~= seq!['0']);
        assert(part.drop_last().drop_last().drop_last() =~= Seq::<char>::empty());
        assert(d.drop_last() =~= Seq::<char>::empty());
        reveal_with_fuel(text::digits_value, 5);
        assert(text::digits_value(part) == n);
    } else if n < 100 {
        assert(d.len() == 2);
        assert(part =~= seq!['0', d[0], d[1]]);
        assert(part.drop_last() =~= seq!['0', d[0]]);
        assert(part.drop_last().drop_last() =~= seq!['0']);
        assert(part.drop_last().drop_last().drop_last() =~= Seq::<char>::empty());
        assert(d.drop_last() =~= seq![d[0]]);
        assert(d.drop_last().drop_last() =~= Seq::<char>::empty());
        reveal_with_fuel(text::digits_value, 5);
        assert(text::digits_value(part) == n);
    } else {
        assert(d.len() == 3) by {
            assert(text::decimal(n / 10).len() == 2) by {
                assert(text::decimal(n / 10 / 10).len() == 1);
            }
        }
    }
    assert(part.len() == 3);
    assert forall|i: int| 0 <= i < part.len() implies '0' <= #[trigger] part[i] <= '9' by {
        if n < 100 && i == 0 || n < 10 && i == 1 {
            assert(part[i] == '0');
        } else {
            let at = i - (3 - d.len());
            assert(part[i] == d[at]);
            assert('0' <= d[at] <= '9');
        }
    }
    assert(s.take(whole.len() as int) =~= whole);
    assert(s.skip(whole.len() as int + 1) =~= part);
}

/// What is kept of an output are its first bytes, as many as the limit admits, and it is
/// marked as cut exactly if there were more.
pub proof fn law_kept_output_is_exact(bytes: Seq<u8>, limit: nat)
    ensures
        ({
            let kept = process_backend::bounded(bytes, limit);
            &&& kept.retained.len() <= limit
            &&& kept.retained.len() == bytes.len() || kept.retained.len() == limit
            &&& forall|i: int|
                0 <= i < kept.retained.len() ==> #[trigger] kept.retained[i] == bytes[i]
            &&& kept.truncated <==> bytes.len() > limit
            &&& kept.limit == limit
        }),
{
}

/// The mount of a workspace names it as its source, with every quotation mark doubled, and
/// refuses a path that would end the line.
pub proof fn law_mounts_name_the_workspace(workspace: Seq<char>)
    requires
        text_laws::stands_not_before(workspace, "\""@, workspace.len() as int),
    ensures
        process_backend::mount_argument(workspace) matches Ok(mount) ==> mount
            == "type=bind,source=\""@ + workspace + "\",target=/workspace"@,
        process_backend::mount_argument(workspace) is Ok <==> !workspace.contains('\0')
            && !workspace.contains('\n') && !workspace.contains('\r'),
{
    reveal_strlit("\"");
    assert("\""@.len() == 1);
    let parts = seq![workspace];
    assert(text_laws::woven(parts, "\""@) =~= workspace);
    assert(text_laws::woven(parts, "\"\""@) =~= workspace);
    assert(text_laws::is_cut(workspace, "\""@, parts)) by {
        assert forall|i: int| i < workspace.len() as int implies !text_laws::stands_at(
            workspace,
            "\""@,
            i,
        ) by {}
    }
    text_laws::law_replacing_exchanges_what_is_between(workspace, "\""@, "\"\""@, parts);
}

/// A path lies within a root if and only if its components are those of the root and then
/// any others.
pub proof fn law_roots_hold_what_is_below(p: HostPathView, root: HostPathView)
    ensures
        process_backend::lies_within(p, root) <==> exists|tail: Seq<Seq<char>>|
            p.components == #[trigger] (root.components + tail),
{
    if process_backend::lies_within(p, root) {
        let tail = p.components.skip(root.components.len() as int);
        assert(p.components =~= root.components + tail);
    }
    if exists|tail: Seq<Seq<char>>| p.components == #[trigger] (root.components + tail) {
        let tail = choose|tail: Seq<Seq<char>>| p.components == #[trigger] (root.components + tail);
        assert((root.components + tail).take(root.components.len() as int) =~= root.components);
    }
}

} // verus!
