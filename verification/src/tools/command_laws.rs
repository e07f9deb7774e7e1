//! Laws of commands: what an approval is asked for, and what a run returns.

use crate::json;
use crate::json::JsonView;
use crate::tools::descriptor::Capability;
use crate::tools::output_laws;
use crate::tools::process;
use crate::tools::process_backend::{BackendView, ExecutionView, ProcessView};
use vstd::prelude::*;

verus! {

/// The names of variables.
pub open spec fn names_of(environment: Seq<(Seq<char>, Seq<char>)>) -> Seq<Seq<char>> {
    Seq::new(environment.len(), |i: int| environment[i].0)
}

proof fn lemma_names()
    ensures
        "args"@.len() == 4,
        "stdout"@.len() == 6,
        "stderr"@.len() == 6,
        "program"@.len() == 7,
        "backend"@.len() == 7,
        "exit_code"@.len() == 9,
        "timeout_seconds"@.len() == 15,
        "max_output_bytes"@.len() == 16,
        "environment_names"@.len() == 17,
        "stdout"@ != "stderr"@,
        "program"@ != "backend"@,
{
    reveal_strlit("args");
    reveal_strlit("stdout");
    reveal_strlit("stderr");
    reveal_strlit("program");
    reveal_strlit("backend");
    reveal_strlit("exit_code");
    reveal_strlit("timeout_seconds");
    reveal_strlit("max_output_bytes");
    reveal_strlit("environment_names");
    assert("stdout"@[3] != "stderr"@[3]);
    assert("program"@[0] != "backend"@[0]);
}

/// A command that an approval is asked for is presented whole: its program, its arguments,
/// the names of its variables, and its limits.
pub proof fn law_commands_are_presented_whole(request: ProcessView)
    ensures
        ({
            let j = process::command_json(request);
            &&& json::text_member(j, "program"@) == Some(request.program)
            &&& output_laws::holds_texts(json::member(j, "args"@), request.args)
            &&& output_laws::holds_texts(
                json::member(j, "environment_names"@),
                names_of(request.environment),
            )
            &&& json::u64_member(j, "timeout_seconds"@) == Some(request.timeout_seconds)
            &&& json::u64_member(j, "max_output_bytes"@) == Some(request.max_output_bytes as u64)
        }),
{
    lemma_names();
    assert(process::variable_names(request.environment) =~= names_of(request.environment));
}

/// Two commands that are presented alike are the same command, but for the values of their
/// variables.
pub proof fn law_presented_commands_tell_apart(a: ProcessView, b: ProcessView)
    ensures
        process::command_json(a) == process::command_json(b) ==> a.program == b.program && a.args
            == b.args && names_of(a.environment) == names_of(b.environment) && a.timeout_seconds
            == b.timeout_seconds && a.max_output_bytes == b.max_output_bytes,
{
    law_commands_are_presented_whole(a);
    law_commands_are_presented_whole(b);
    let j = process::command_json(a);
    if j == process::command_json(b) {
        let x = json::member(j, "args"@)->0->Array_0;
        assert forall|i: int| 0 <= i < a.args.len() implies #[trigger] a.args[i] == b.args[i] by {
            assert(x[i] == JsonView::Text(a.args[i]));
            assert(x[i] == JsonView::Text(b.args[i]));
        }
        assert(a.args =~= b.args);
        let y = json::member(j, "environment_names"@)->0->Array_0;
        let m = names_of(a.environment);
        let n = names_of(b.environment);
        assert forall|i: int| 0 <= i < m.len() implies #[trigger] m[i] == n[i] by {
            assert(y[i] == JsonView::Text(m[i]));
            assert(y[i] == JsonView::Text(n[i]));
        }
        assert(m =~= n);
    }
}

/// An approval for a command binds it to the run, to the capability to start programs, to
/// the command itself and to where it would run.
pub proof fn law_approvals_bind_the_command(
    run_id: Seq<char>,
    workspace: Seq<char>,
    request: ProcessView,
    backend: BackendView,
    resource: Seq<char>,
    fingerprint: Seq<char>,
)
    ensures
        ({
            let wanted = process::approval_for(
                run_id,
                workspace,
                request,
                backend,
                resource,
                fingerprint,
            );
            &&& wanted.binding.run_id == run_id
            &&& wanted.binding.capability == Capability::ProcessSpawn
            &&& wanted.binding.resource == resource
            &&& wanted.binding.actor_fingerprint == fingerprint
            &&& wanted.binding.backend_kind == backend.kind.name_spec()
            &&& wanted.binding.profile_digest == backend.profile_digest
            &&& backend.image_identity is Some ==> wanted.binding.backend_identity
                == backend.image_identity
            &&& backend.image_identity is None ==> wanted.binding.backend_identity
                == backend.runtime_fingerprint
            &&& wanted.presentation.contains(("command"@, resource))
            &&& wanted.presentation.contains(("backend"@, backend.kind.name_spec()))
            &&& wanted.presentation.contains(("filesystem"@, backend.filesystem))
            &&& wanted.presentation.contains(("network"@, backend.network))
            &&& wanted.presentation.contains(("workspace"@, workspace))
        }),
{
    let wanted = process::approval_for(run_id, workspace, request, backend, resource, fingerprint);
    let p = wanted.presentation;
    assert(p[0] == ("backend"@, backend.kind.name_spec()));
    assert(p[1] == ("command"@, resource));
    assert(p[3] == ("filesystem"@, backend.filesystem));
    assert(p[4] == ("network"@, backend.network));
    assert(p[5] == ("workspace"@, workspace));
}

/// What a run returns is what came out of it: its exit code and its two outputs. It
/// succeeded if and only if the program said so, and says if output was cut.
pub proof fn law_runs_return_what_came_out(
    request: ProcessView,
    execution: ExecutionView,
    stdout: Seq<char>,
    stderr: Seq<char>,
)
    ensures
        ({
            let output = process::process_output(request, execution, stdout, stderr);
            &&& json::text_member(output.content, "program"@) == Some(request.program)
            &&& output_laws::holds_texts(json::member(output.content, "args"@), request.args)
            &&& json::text_member(output.content, "stdout"@) == Some(stdout)
            &&& json::text_member(output.content, "stderr"@) == Some(stderr)
            &&& match execution.exit_code {
                Some(code) => code >= 0 ==> json::u64_member(output.content, "exit_code"@) == Some(
                    code as u64,
                ),
                None => json::member(output.content, "exit_code"@) == Some(JsonView::Null),
            }
            &&& output.succeeded <==> execution.exit_code == Some(0i32)
            &&& output.truncated <==> execution.stdout_truncated || execution.stderr_truncated
        }),
{
    lemma_names();
}

/// A command that is let through is within its limits: it names a program, runs for at
/// most an hour, and puts out at most sixteen megabytes.
pub proof fn law_checked_commands_are_bounded(request: ProcessView)
    requires
        process::request_checked(request) is Ok,
    ensures
        request.program.len() > 0,
        request.args.len() <= 4096,
        request.environment.len() <= 256,
        1 <= request.timeout_seconds <= 3600,
        1 <= request.max_output_bytes <= 16 * 1024 * 1024,
        forall|i: int|
            0 <= i < request.args.len() ==> !(#[trigger] request.args[i]).contains('\0'),
        forall|i: int|
            0 <= i < request.environment.len() ==> (#[trigger] request.environment[i]).0.len() > 0
                && !request.environment[i].1.contains('\0'),
{
    assert forall|i: int| 0 <= i < request.args.len() implies !(
    #[trigger] request.args[i]).contains('\0') by {
        assert(process::argument_fits(request.args[i]));
    }
    assert forall|i: int| 0 <= i < request.environment.len() implies (
    #[trigger] request.environment[i]).0.len() > 0 && !request.environment[i].1.contains('\0') by {
        assert(process::variable_fits(request.environment[i]));
    }
}

} // verus!
