//! The tool that runs a program behind the boundary selected for the run.

use crate::digest;
use crate::json;
use crate::json::{Json, JsonMap, JsonNumber, JsonView};
use crate::outcome;
use crate::text;
use crate::tools::approval::{
    ApprovalBinding, ApprovalRequest, AuditView, BindingView, PolicyAuditLog, RequestView,
};
use crate::tools::descriptor::{
    Capability, DescriptorView, OutputView, ToolAnnotations, ToolDescriptor, ToolOutput, ToolRisk,
};
use crate::tools::error::{ToolError, ToolFault};
use crate::tools::process_backend;
use crate::tools::process_backend::{
    BackendView, ExecutionView, ProcessBackendDescriptor, ProcessBackendKind, ProcessExecution,
    ProcessRequest, ProcessView,
};
use crate::tools::registry;
use crate::tools::registry::{Asking, ContextView, ToolContext};
use crate::tools::schema;
use vstd::prelude::*;
use vstd::utf8::*;

verus! {

/// How long a program may run where no time is given.
pub const DEFAULT_TIMEOUT_SECONDS: u64 = 120;

/// How long a program may run at most.
pub const MAX_TIMEOUT_SECONDS: u64 = 3600;

/// How many bytes of each output are kept where no number is given.
pub const DEFAULT_OUTPUT_BYTES: usize = 1048576;

/// How many bytes of each output are kept at most.
pub const MAX_OUTPUT_BYTES: usize = 16777216;

/// Longest name of a program, in bytes.
pub const MAX_PROGRAM_BYTES: usize = 4096;

/// Largest number of arguments.
pub const MAX_ARGUMENTS: usize = 4096;

/// Longest argument, in bytes.
pub const MAX_ARGUMENT_BYTES: usize = 262144;

/// Largest number of bytes of all arguments.
pub const MAX_AGGREGATE_ARGUMENT_BYTES: usize = 2097152;

/// Largest number of variables.
pub const MAX_ENVIRONMENT_ENTRIES: usize = 256;

/// Longest value of a variable, in bytes.
pub const MAX_ENVIRONMENT_VALUE_BYTES: usize = 262144;

/// Largest number of bytes of all variables.
pub const MAX_AGGREGATE_ENVIRONMENT_BYTES: usize = 2097152;

/// The variables of the host that a native program inherits: those that toolchains need.
pub open spec fn safe_environment() -> Seq<Seq<char>> {
    Seq::<Seq<char>>::empty().push("PATH"@).push("PATHEXT"@).push("SystemRoot"@).push(
        "WINDIR"@,
    ).push("COMSPEC"@).push("ProgramFiles"@).push("ProgramFiles(Arm)"@).push(
        "ProgramFiles(x86)"@,
    ).push("ProgramW6432"@).push("CommonProgramFiles"@).push("CommonProgramFiles(Arm)"@).push(
        "CommonProgramFiles(x86)"@,
    ).push("CommonProgramW6432"@).push("ProgramData"@).push("ALLUSERSPROFILE"@).push(
        "APPDATA"@,
    ).push("LOCALAPPDATA"@).push("SystemDrive"@).push("PROCESSOR_ARCHITECTURE"@).push("OS"@).push(
        "VSINSTALLDIR"@,
    ).push("VCINSTALLDIR"@).push("VCToolsInstallDir"@).push("WindowsSdkDir"@).push(
        "WindowsSDKVersion"@,
    ).push("UniversalCRTSdkDir"@).push("UCRTVersion"@).push("INCLUDE"@).push("LIB"@).push(
        "LIBPATH"@,
    ).push("HOME"@).push("HOMEDRIVE"@).push("HOMEPATH"@).push("USERPROFILE"@).push("TMP"@).push(
        "TEMP"@,
    ).push("CARGO_HOME"@).push("RUSTUP_HOME"@)
}

/// The variables of the host that a native program inherits.
pub fn safe_environment_names() -> (r: Vec<String>)
    ensures
        text::views(r@) == safe_environment(),
{
    let mut names = schema::and_name(schema::no_names(), "PATH");
    names = schema::and_name(names, "PATHEXT");
    names = schema::and_name(names, "SystemRoot");
    names = schema::and_name(names, "WINDIR");
    names = schema::and_name(names, "COMSPEC");
    names = schema::and_name(names, "ProgramFiles");
    names = schema::and_name(names, "ProgramFiles(Arm)");
    names = schema::and_name(names, "ProgramFiles(x86)");
    names = schema::and_name(names, "ProgramW6432");
    names = schema::and_name(names, "CommonProgramFiles");
    names = schema::and_name(names, "CommonProgramFiles(Arm)");
    names = schema::and_name(names, "CommonProgramFiles(x86)");
    names = schema::and_name(names, "CommonProgramW6432");
    names = schema::and_name(names, "ProgramData");
    names = schema::and_name(names, "ALLUSERSPROFILE");
    names = schema::and_name(names, "APPDATA");
    names = schema::and_name(names, "LOCALAPPDATA");
    names = schema::and_name(names, "SystemDrive");
    names = schema::and_name(names, "PROCESSOR_ARCHITECTURE");
    names = schema::and_name(names, "OS");
    names = schema::and_name(names, "VSINSTALLDIR");
    names = schema::and_name(names, "VCINSTALLDIR");
    names = schema::and_name(names, "VCToolsInstallDir");
    names = schema::and_name(names, "WindowsSdkDir");
    names = schema::and_name(names, "WindowsSDKVersion");
    names = schema::and_name(names, "UniversalCRTSdkDir");
    names = schema::and_name(names, "UCRTVersion");
    names = schema::and_name(names, "INCLUDE");
    names = schema::and_name(names, "LIB");
    names = schema::and_name(names, "LIBPATH");
    names = schema::and_name(names, "HOME");
    names = schema::and_name(names, "HOMEDRIVE");
    names = schema::and_name(names, "HOMEPATH");
    names = schema::and_name(names, "USERPROFILE");
    names = schema::and_name(names, "TMP");
    names = schema::and_name(names, "TEMP");
    names = schema::and_name(names, "CARGO_HOME");
    schema::and_name(names, "RUSTUP_HOME")
}

/// The schema of the input of `run_process`.
pub open spec fn run_process_schema() -> JsonView {
    schema::document(
        schema::closed_object(
            Map::<Seq<char>, JsonView>::empty().insert("program"@, schema::typed("string"@)).insert(
                "args"@,
                schema::defaulted(
                    schema::list_of(schema::typed("string"@)),
                    JsonView::Array(Seq::empty()),
                ),
            ).insert(
                "timeout_seconds"@,
                schema::defaulted(
                    schema::number_spec(),
                    json::num(DEFAULT_TIMEOUT_SECONDS as nat),
                ),
            ).insert(
                "max_output_bytes"@,
                schema::defaulted(schema::count_spec(), json::num(DEFAULT_OUTPUT_BYTES as nat)),
            ).insert(
                "environment"@,
                schema::defaulted(
                    schema::map_of(schema::typed("string"@)),
                    JsonView::Object(Map::empty()),
                ),
            ),
            Seq::<Seq<char>>::empty().push("program"@),
        ),
        "RunProcessInput"@,
    )
}

/// Whether a program may be named so.
pub open spec fn program_fits(program: Seq<char>) -> bool {
    text::trim_spec(program).len() > 0 && text::utf8_len(program) <= MAX_PROGRAM_BYTES
        && !text::has_control(program)
}

/// Whether an argument may be passed.
pub open spec fn argument_fits(argument: Seq<char>) -> bool {
    text::utf8_len(argument) <= MAX_ARGUMENT_BYTES && !argument.contains('\0')
}

/// The bytes of the first `count` arguments.
pub open spec fn argument_bytes(args: Seq<Seq<char>>, count: int) -> nat
    decreases count,
{
    if count <= 0 {
        0
    } else {
        argument_bytes(args, count - 1) + text::utf8_len(args[count - 1])
    }
}

/// Whether all arguments may be passed.
pub open spec fn arguments_fit(args: Seq<Seq<char>>) -> bool {
    (forall|i: int| 0 <= i < args.len() ==> argument_fits(#[trigger] args[i])) && argument_bytes(
        args,
        args.len() as int,
    ) <= MAX_AGGREGATE_ARGUMENT_BYTES
}

/// A character that the name of a variable may hold.
pub open spec fn is_name_char(c: char) -> bool {
    ('a' <= c <= 'z') || ('A' <= c <= 'Z') || ('0' <= c <= '9') || c == '_'
}

/// Whether a variable may be called so.
pub open spec fn is_environment_name(name: Seq<char>) -> bool {
    name.len() > 0 && forall|i: int| 0 <= i < name.len() ==> is_name_char(#[trigger] name[i])
}

/// Whether a variable may be passed.
pub open spec fn variable_fits(variable: (Seq<char>, Seq<char>)) -> bool {
    is_environment_name(variable.0) && text::utf8_len(variable.1) <= MAX_ENVIRONMENT_VALUE_BYTES
        && !variable.1.contains('\0')
}

/// The bytes of the first `count` variables.
pub open spec fn environment_bytes(environment: Seq<(Seq<char>, Seq<char>)>, count: int) -> nat
    decreases count,
{
    if count <= 0 {
        0
    } else {
        environment_bytes(environment, count - 1) + text::utf8_len(environment[count - 1].0)
            + text::utf8_len(environment[count - 1].1)
    }
}

/// Whether all variables may be passed.
pub open spec fn environment_fits(environment: Seq<(Seq<char>, Seq<char>)>) -> bool {
    (forall|i: int| 0 <= i < environment.len() ==> variable_fits(#[trigger] environment[i]))
        && environment_bytes(environment, environment.len() as int)
        <= MAX_AGGREGATE_ENVIRONMENT_BYTES
}

/// Whether a request may be looked into.
pub open spec fn request_checked(request: ProcessView) -> Result<(), ToolFault> {
    if !program_fits(request.program) {
        Err(
            ToolFault::InvalidRange(
                "program must be non-empty, at most "@ + text::decimal(MAX_PROGRAM_BYTES as nat)
                    + " bytes, and contain no control characters"@,
            ),
        )
    } else if request.args.len() > MAX_ARGUMENTS {
        Err(
            ToolFault::InvalidRange(
                "args cannot contain more than "@ + text::decimal(MAX_ARGUMENTS as nat)
                    + " values"@,
            ),
        )
    } else if !arguments_fit(request.args) {
        Err(
            ToolFault::InvalidRange(
                "each argument must be at most "@ + text::decimal(MAX_ARGUMENT_BYTES as nat)
                    + " bytes, contain no NUL byte, and aggregate arguments must not exceed "@
                    + text::decimal(MAX_AGGREGATE_ARGUMENT_BYTES as nat) + " bytes"@,
            ),
        )
    } else if request.environment.len() > MAX_ENVIRONMENT_ENTRIES {
        Err(
            ToolFault::InvalidRange(
                "environment cannot contain more than "@ + text::decimal(
                    MAX_ENVIRONMENT_ENTRIES as nat,
                ) + " entries"@,
            ),
        )
    } else if !environment_fits(request.environment) {
        Err(
            ToolFault::InvalidRange(
                "environment names must be valid, each value must be at most "@ + text::decimal(
                    MAX_ENVIRONMENT_VALUE_BYTES as nat,
                ) + " bytes with no NUL byte, and aggregate environment data must not exceed "@
                    + text::decimal(MAX_AGGREGATE_ENVIRONMENT_BYTES as nat) + " bytes"@,
            ),
        )
    } else if request.timeout_seconds == 0 || request.timeout_seconds > MAX_TIMEOUT_SECONDS {
        Err(
            ToolFault::InvalidRange(
                "timeout_seconds must be between 1 and "@ + text::decimal(
                    MAX_TIMEOUT_SECONDS as nat,
                ),
            ),
        )
    } else if request.max_output_bytes == 0 || request.max_output_bytes > MAX_OUTPUT_BYTES {
        Err(
            ToolFault::InvalidRange(
                "max_output_bytes must be between 1 and "@ + text::decimal(
                    MAX_OUTPUT_BYTES as nat,
                ),
            ),
        )
    } else {
        Ok(())
    }
}

fn check_arguments(args: &Vec<String>) -> (r: bool)
    requires
        args@.len() <= MAX_ARGUMENTS,
    ensures
        r == arguments_fit(text::views(args@)),
{
    let ghost views = text::views(args@);
    let mut total: usize = 0;
    let mut i: usize = 0;
    while i < args.len()
        invariant
            i <= args@.len() <= MAX_ARGUMENTS,
            views == text::views(args@),
            views.len() == args@.len(),
            total == argument_bytes(views, i as int),
            total <= i * MAX_ARGUMENT_BYTES,
            forall|k: int| 0 <= k < i ==> argument_fits(#[trigger] views[k]),
        decreases args@.len() - i,
    {
        assert(views[i as int] == args@[i as int]@);
        let bytes: usize = text::byte_len(args[i].as_str());
        if bytes > MAX_ARGUMENT_BYTES || text::contains_char(args[i].as_str(), '\0') {
            assert(!argument_fits(views[i as int]));
            return false;
        }
        assert(i * MAX_ARGUMENT_BYTES + MAX_ARGUMENT_BYTES == (i + 1) * MAX_ARGUMENT_BYTES)
            by (nonlinear_arith);
        assert((i + 1) * MAX_ARGUMENT_BYTES <= 4096 * 262144) by (nonlinear_arith)
            requires
                i + 1 <= 4096,
                MAX_ARGUMENT_BYTES == 262144,
        ;
        total += bytes;
        i += 1;
    }
    total <= MAX_AGGREGATE_ARGUMENT_BYTES
}

fn check_name(name: &str) -> (r: bool)
    ensures
        r == is_environment_name(name@),
{
    let chars = text::chars_of(name);
    if chars.len() == 0 {
        return false;
    }
    let mut i: usize = 0;
    while i < chars.len()
        invariant
            i <= chars@.len(),
            chars@ == name@,
            forall|k: int| 0 <= k < i ==> is_name_char(#[trigger] name@[k]),
        decreases chars@.len() - i,
    {
        let c = chars[i];
        if !(('a' <= c && c <= 'z') || ('A' <= c && c <= 'Z') || ('0' <= c && c <= '9') || c
            == '_') {
            return false;
        }
        i += 1;
    }
    true
}

proof fn lemma_environment_grows(environment: Seq<(Seq<char>, Seq<char>)>, i: int, count: int)
    requires
        0 <= i <= count,
    ensures
        environment_bytes(environment, i) <= environment_bytes(environment, count),
    decreases count - i,
{
    if i < count {
        lemma_environment_grows(environment, i, count - 1);
    }
}

fn check_environment(environment: &Vec<(String, String)>) -> (r: bool)
    ensures
        r == environment_fits(environment.deep_view()),
{
    let ghost views = environment.deep_view();
    let mut total: usize = 0;
    let mut i: usize = 0;
    while i < environment.len()
        invariant
            i <= environment@.len(),
            views == environment.deep_view(),
            total == environment_bytes(views, i as int),
            forall|k: int| 0 <= k < i ==> variable_fits(#[trigger] views[k]),
        decreases environment@.len() - i,
    {
        let entry = &environment[i];
        assert(views[i as int] == (entry.0@, entry.1@));
        let value_bytes: usize = text::byte_len(entry.1.as_str());
        if !check_name(entry.0.as_str()) || value_bytes > MAX_ENVIRONMENT_VALUE_BYTES
            || text::contains_char(entry.1.as_str(), '\0') {
            assert(!variable_fits(views[i as int]));
            return false;
        }
        proof {
            lemma_environment_grows(views, i + 1, environment@.len() as int);
        }
        let name_bytes: usize = text::byte_len(entry.0.as_str());
        match total.checked_add(name_bytes) {
            None => {
                return false;
            },
            Some(named) => match named.checked_add(value_bytes) {
                None => {
                    return false;
                },
                Some(sum) => {
                    total = sum;
                },
            },
        }
        i += 1;
    }
    total <= MAX_AGGREGATE_ENVIRONMENT_BYTES
}

/// Refuses requests that are out of bounds.
pub fn validate_request(request: &ProcessRequest) -> (r: Result<(), ToolError>)
    ensures
        outcome::of(r) == request_checked(request.deep_view()),
{
    let trimmed = text::trim(request.program.as_str());
    proof {
        text::lemma_utf8_len_zero(trimmed@);
        assert(text::views(request.args@).len() == request.args@.len());
    }
    if text::byte_len(trimmed.as_str()) == 0 || text::byte_len(request.program.as_str())
        > MAX_PROGRAM_BYTES || text::any_control(request.program.as_str()) {
        return Err(
            ToolError::InvalidRange(
                text::concat3(
                    "program must be non-empty, at most ",
                    text::decimal_of(MAX_PROGRAM_BYTES).as_str(),
                    " bytes, and contain no control characters",
                ),
            ),
        );
    }
    if request.args.len() > MAX_ARGUMENTS {
        return Err(
            ToolError::InvalidRange(
                text::concat3(
                    "args cannot contain more than ",
                    text::decimal_of(MAX_ARGUMENTS).as_str(),
                    " values",
                ),
            ),
        );
    }
    if !check_arguments(&request.args) {
        return Err(
            ToolError::InvalidRange(
                text::concat5(
                    "each argument must be at most ",
                    text::decimal_of(MAX_ARGUMENT_BYTES).as_str(),
                    " bytes, contain no NUL byte, and aggregate arguments must not exceed ",
                    text::decimal_of(MAX_AGGREGATE_ARGUMENT_BYTES).as_str(),
                    " bytes",
                ),
            ),
        );
    }
    if request.environment.len() > MAX_ENVIRONMENT_ENTRIES {
        return Err(
            ToolError::InvalidRange(
                text::concat3(
                    "environment cannot contain more than ",
                    text::decimal_of(MAX_ENVIRONMENT_ENTRIES).as_str(),
                    " entries",
                ),
            ),
        );
    }
    if !check_environment(&request.environment) {
        return Err(
            ToolError::InvalidRange(
                text::concat5(
                    "environment names must be valid, each value must be at most ",
                    text::decimal_of(MAX_ENVIRONMENT_VALUE_BYTES).as_str(),
                    " bytes with no NUL byte, and aggregate environment data must not exceed ",
                    text::decimal_of(MAX_AGGREGATE_ENVIRONMENT_BYTES).as_str(),
                    " bytes",
                ),
            ),
        );
    }
    if request.timeout_seconds == 0 || request.timeout_seconds > MAX_TIMEOUT_SECONDS {
        return Err(
            ToolError::InvalidRange(
                text::concat2(
                    "timeout_seconds must be between 1 and ",
                    text::decimal_text(MAX_TIMEOUT_SECONDS).as_str(),
                ),
            ),
        );
    }
    if request.max_output_bytes == 0 || request.max_output_bytes > MAX_OUTPUT_BYTES {
        return Err(
            ToolError::InvalidRange(
                text::concat2(
                    "max_output_bytes must be between 1 and ",
                    text::decimal_of(MAX_OUTPUT_BYTES).as_str(),
                ),
            ),
        );
    }
    Ok(())
}

/// The names of the variables.
pub open spec fn variable_names(environment: Seq<(Seq<char>, Seq<char>)>) -> Seq<Seq<char>> {
    environment.map_values(|v: (Seq<char>, Seq<char>)| v.0)
}

fn names_of(environment: &Vec<(String, String)>) -> (r: Vec<String>)
    ensures
        text::views(r@) == variable_names(environment.deep_view()),
{
    let mut names: Vec<String> = Vec::new();
    let mut i: usize = 0;
    while i < environment.len()
        invariant
            i <= environment@.len(),
            names@.len() == i,
            forall|k: int| 0 <= k < i ==> (#[trigger] names@[k])@ == environment@[k].0@,
        decreases environment@.len() - i,
    {
        names.push(environment[i].0.clone());
        i += 1;
    }
    assert(text::views(names@) =~= variable_names(environment.deep_view()));
    names
}

/// The command that an approval is asked for, without the values of variables.
pub open spec fn command_json(request: ProcessView) -> JsonView {
    json::with_member(
        json::obj4(
            "program"@,
            JsonView::Text(request.program),
            "args"@,
            schema::names(request.args),
            "environment_names"@,
            schema::names(variable_names(request.environment)),
            "timeout_seconds"@,
            json::num(request.timeout_seconds as nat),
        ),
        "max_output_bytes"@,
        json::num(request.max_output_bytes as nat),
    )
}

/// The command that an approval is asked for, without the values of variables.
pub fn command_value(request: &ProcessRequest) -> (r: Json)
    ensures
        r.deep_view() == command_json(request.deep_view()),
{
    let mut out = Json::object4(
        "program",
        Json::text(request.program.as_str()),
        "args",
        schema::texts_json(&request.args),
        "environment_names",
        schema::texts_json(&names_of(&request.environment)),
        "timeout_seconds",
        Json::number(request.timeout_seconds),
    );
    out.set_member("max_output_bytes", Json::count(request.max_output_bytes));
    out
}

/// The identity that an approval is bound to: that of the image, or of the runtime.
pub open spec fn backend_identity(backend: BackendView) -> Option<Seq<char>> {
    match backend.image_identity {
        Some(i) => Some(i),
        None => backend.runtime_fingerprint,
    }
}

/// The request for an approval of a command that is written as `resource` and whose
/// digest is `fingerprint`.
pub open spec fn approval_for(
    run_id: Seq<char>,
    workspace: Seq<char>,
    request: ProcessView,
    backend: BackendView,
    resource: Seq<char>,
    fingerprint: Seq<char>,
) -> RequestView {
    let names = variable_names(request.environment);
    RequestView {
        binding: BindingView {
            run_id,
            capability: Capability::ProcessSpawn,
            resource,
            actor_fingerprint: fingerprint,
            backend_kind: backend.kind.name_spec(),
            backend_identity: backend_identity(backend),
            profile_digest: backend.profile_digest,
        },
        reason: "the model requested execution of an exact process command"@,
        presentation: Seq::<(Seq<char>, Seq<char>)>::empty().push(
            ("backend"@, backend.kind.name_spec()),
        ).push(("command"@, resource)).push(
            (
                "environment_names"@,
                if names.len() == 0 {
                    "none"@
                } else {
                    text::join_spec(names, ", "@)
                },
            ),
        ).push(("filesystem"@, backend.filesystem)).push(("network"@, backend.network)).push(
            ("workspace"@, workspace),
        ),
    }
}

fn presented(to: Vec<(String, String)>, title: &str, body: &str) -> (r: Vec<(String, String)>)
    ensures
        r.deep_view() == to.deep_view().push((title@, body@)),
{
    let mut out = to;
    let ghost before = out.deep_view();
    out.push((title.to_owned(), body.to_owned()));
    assert(out.deep_view() =~= before.push((title@, body@)));
    out
}

/// The request for an approval of a command, with its text and its digest supplied by the
/// caller.
pub fn approval_request_for(
    run_id: &str,
    workspace: &str,
    request: &ProcessRequest,
    backend: &ProcessBackendDescriptor,
    resource: &str,
    fingerprint: &str,
) -> (r: ApprovalRequest)
    ensures
        r.deep_view() == approval_for(
            run_id@,
            workspace@,
            request.deep_view(),
            backend.deep_view(),
            resource@,
            fingerprint@,
        ),
{
    let names = names_of(&request.environment);
    let ghost name_views = variable_names(request.deep_view().environment);
    assert(text::views(names@).len() == names@.len());
    let shown_names = if names.len() == 0 {
        "none".to_owned()
    } else {
        text::join(&names, ", ")
    };
    let none: Vec<(String, String)> = Vec::new();
    assert(none.deep_view() =~= Seq::<(Seq<char>, Seq<char>)>::empty());
    let mut presentation = presented(none, "backend", backend.kind.name());
    presentation = presented(presentation, "command", resource);
    presentation = presented(presentation, "environment_names", shown_names.as_str());
    presentation = presented(presentation, "filesystem", backend.filesystem.as_str());
    presentation = presented(presentation, "network", backend.network.as_str());
    presentation = presented(presentation, "workspace", workspace);
    ApprovalRequest {
        binding: ApprovalBinding {
            run_id: run_id.to_owned(),
            capability: Capability::ProcessSpawn,
            resource: resource.to_owned(),
            actor_fingerprint: fingerprint.to_owned(),
            backend_kind: backend.kind.name().to_owned(),
            backend_identity: match &backend.image_identity {
                Some(i) => Some(i.clone()),
                None => text::copy_option(&backend.runtime_fingerprint),
            },
            profile_digest: backend.profile_digest.clone(),
        },
        reason: "the model requested execution of an exact process command".to_owned(),
        presentation,
    }
}

/// The text of the command that an approval is asked for.
pub open spec fn command_text(request: ProcessView) -> Seq<char> {
    json::json_text(command_json(request))
}

/// The request for an approval of a command.
pub fn process_approval_request(
    run_id: &str,
    workspace: &str,
    request: &ProcessRequest,
    backend: &ProcessBackendDescriptor,
) -> (r: ApprovalRequest)
    ensures
        r.deep_view() == approval_for(
            run_id@,
            workspace@,
            request.deep_view(),
            backend.deep_view(),
            command_text(request.deep_view()),
            digest::blake3_hex(encode_utf8(command_text(request.deep_view()))),
        ),
{
    let resource = command_value(request).to_text();
    let fingerprint = digest::text_digest(resource.as_str());
    approval_request_for(
        run_id,
        workspace,
        request,
        backend,
        resource.as_str(),
        fingerprint.as_str(),
    )
}

/// What a tool behind a boundary says of itself.
pub open spec fn process_description(kind: ProcessBackendKind) -> Seq<char> {
    match kind {
        ProcessBackendKind::Disabled => "Process execution is disabled for this run."@,
        ProcessBackendKind::NativeTrusted =>
        "Run a program directly in the isolated candidate. No shell interpolation is performed. This explicitly trusted backend retains host filesystem and network authority."@,
        ProcessBackendKind::OciRestricted =>
        "Run a program without shell interpolation in a restricted OCI container with candidate-only bind access, no network, a read-only image, dropped capabilities, and bounded resources."@,
    }
}

/// The risk of a tool behind a boundary.
pub open spec fn process_risk(kind: ProcessBackendKind) -> ToolRisk {
    match kind {
        ProcessBackendKind::NativeTrusted => ToolRisk::HostExecution,
        _ => ToolRisk::RestrictedExecution,
    }
}

/// What the tool presents to a model.
pub open spec fn process_descriptor(kind: ProcessBackendKind) -> DescriptorView {
    DescriptorView {
        name: "run_process"@,
        description: process_description(kind),
        input_schema: run_process_schema(),
        required_capability: Capability::ProcessSpawn,
        annotations: ToolAnnotations::mutating_spec(process_risk(kind)),
    }
}

/// An exit code or null.
pub open spec fn exit_json(code: Option<i32>) -> JsonView {
    match code {
        Some(c) => JsonView::Number(json::number_view(JsonNumber::Signed(c as i64))),
        None => JsonView::Null,
    }
}

/// The boundary that effects of a kind are recorded under.
pub open spec fn boundary_effect(kind: ProcessBackendKind) -> Seq<char> {
    match kind {
        ProcessBackendKind::Disabled => "process.backend:disabled"@,
        ProcessBackendKind::NativeTrusted => "process.backend:nativetrusted"@,
        ProcessBackendKind::OciRestricted => "process.backend:ocirestricted"@,
    }
}

/// What is known of the effects behind a boundary.
pub open spec fn reach_effect(kind: ProcessBackendKind) -> Seq<char> {
    match kind {
        ProcessBackendKind::OciRestricted => "filesystem.candidate-only;network.denied"@,
        ProcessBackendKind::NativeTrusted => "host effects require post-call reconciliation"@,
        ProcessBackendKind::Disabled => "process.denied"@,
    }
}

/// What running a program returns, with its outputs as texts.
pub open spec fn process_output(
    request: ProcessView,
    execution: ExecutionView,
    stdout: Seq<char>,
    stderr: Seq<char>,
) -> OutputView {
    let kind = execution.backend.kind;
    OutputView {
        content: json::with_member(
            json::with_member(
                json::obj4(
                    "program"@,
                    JsonView::Text(request.program),
                    "args"@,
                    schema::names(request.args),
                    "exit_code"@,
                    exit_json(execution.exit_code),
                    "stdout"@,
                    JsonView::Text(stdout),
                ),
                "stderr"@,
                JsonView::Text(stderr),
            ),
            "backend"@,
            process_backend::backend_json(execution.backend),
        ),
        summary: "process exited "@ + (match execution.exit_code {
            Some(code) => text::signed(code as int),
            None => "without a code"@,
        }),
        observed_effects: Seq::<Seq<char>>::empty().push("process.spawn"@).push(
            boundary_effect(kind),
        ).push(reach_effect(kind)),
        succeeded: execution.exit_code == Some(0i32),
        truncated: execution.stdout_truncated || execution.stderr_truncated,
    }
}

/// What has to happen before a program may run: nothing, or a decision on a request.
pub open spec fn process_prepared(
    context: ContextView,
    backend: BackendView,
    workspace: Seq<char>,
    request: ProcessView,
    audit: Option<Seq<AuditView>>,
) -> (Result<Option<RequestView>, ToolFault>, Option<Seq<AuditView>>) {
    match request_checked(request) {
        Err(e) => (Err(e), audit),
        Ok(()) => match context.run_id {
            None => match registry::authorized(
                context.policy,
                Capability::ProcessSpawn,
                request.program,
                "run_process"@,
            ) {
                Err(e) => (Err(e), audit),
                Ok(()) => (Ok(None), audit),
            },
            Some(run) => {
                let wanted = approval_for(
                    run,
                    workspace,
                    request,
                    backend,
                    command_text(request),
                    digest::blake3_hex(encode_utf8(command_text(request))),
                );
                let asked = registry::asked(context, wanted, audit);
                (
                    match asked.result {
                        Err(e) => Err(e),
                        Ok(Asking::Allowed) => Ok(None),
                        Ok(Asking::Pending) => Ok(Some(wanted)),
                    },
                    asked.audit,
                )
            },
        },
    }
}

/// Executes a program through the explicitly selected process backend.
pub struct RunProcessTool {
    backend: ProcessBackendDescriptor,
}

impl DeepView for RunProcessTool {
    type V = BackendView;

    closed spec fn deep_view(&self) -> BackendView {
        self.backend.deep_view()
    }
}

impl Default for RunProcessTool {
    /// A tool that runs nothing.
    fn default() -> (r: Self)
        ensures
            r.deep_view() == process_backend::disabled_backend(),
    {
        RunProcessTool::disabled()
    }
}

impl RunProcessTool {
    /// Creates a process tool bound to one backend.
    pub fn new(backend: ProcessBackendDescriptor) -> (r: RunProcessTool)
        ensures
            r.deep_view() == backend.deep_view(),
    {
        RunProcessTool { backend }
    }

    /// Creates a fail-closed process tool.
    pub fn disabled() -> (r: RunProcessTool)
        ensures
            r.deep_view() == process_backend::disabled_backend(),
    {
        RunProcessTool::new(ProcessBackendDescriptor::disabled())
    }

    /// Creates an explicitly trusted native process tool.
    pub fn native_trusted() -> (r: RunProcessTool)
        ensures
            r.deep_view() == process_backend::native_backend(),
    {
        RunProcessTool::new(ProcessBackendDescriptor::native())
    }

    /// The backend that the tool is bound to.
    pub fn backend(&self) -> (r: &ProcessBackendDescriptor)
        ensures
            r.deep_view() == self.deep_view(),
    {
        &self.backend
    }

    /// What the tool presents to a model.
    pub fn descriptor(&self) -> (r: ToolDescriptor)
        ensures
            r.deep_view() == process_descriptor(self.deep_view().kind),
    {
        let mut properties = JsonMap::new();
        properties.insert("program", schema::typed_json("string"));
        let no_items: Vec<Json> = Vec::new();
        assert(no_items.deep_view() =~= Seq::<JsonView>::empty());
        properties.insert(
            "args",
            schema::defaulted_json(
                schema::list_json(schema::typed_json("string")),
                Json::array(no_items),
            ),
        );
        properties.insert(
            "timeout_seconds",
            schema::defaulted_json(schema::number_json(), Json::number(DEFAULT_TIMEOUT_SECONDS)),
        );
        properties.insert(
            "max_output_bytes",
            schema::defaulted_json(schema::count_json(), Json::count(DEFAULT_OUTPUT_BYTES)),
        );
        properties.insert(
            "environment",
            schema::defaulted_json(
                schema::map_json(schema::typed_json("string")),
                Json::object(JsonMap::new()),
            ),
        );
        let required = schema::and_name(schema::no_names(), "program");
        let description = match self.backend.kind {
            ProcessBackendKind::Disabled => "Process execution is disabled for this run.",
            ProcessBackendKind::NativeTrusted =>
            "Run a program directly in the isolated candidate. No shell interpolation is performed. This explicitly trusted backend retains host filesystem and network authority.",
            ProcessBackendKind::OciRestricted =>
            "Run a program without shell interpolation in a restricted OCI container with candidate-only bind access, no network, a read-only image, dropped capabilities, and bounded resources.",
        };
        let risk = match self.backend.kind {
            ProcessBackendKind::NativeTrusted => ToolRisk::HostExecution,
            _ => ToolRisk::RestrictedExecution,
        };
        ToolDescriptor {
            name: "run_process".to_owned(),
            description: description.to_owned(),
            input_schema: schema::document_json(
                schema::closed_object_json(properties, &required),
                "RunProcessInput",
            ),
            required_capability: Capability::ProcessSpawn,
            annotations: ToolAnnotations {
                read_only: false,
                idempotent: false,
                parallel_safe: false,
                risk,
            },
        }
    }

    /// Checks the request and the authority to run the program. Where somebody has to
    /// decide, the request for that comes back; it is bound to the exact command.
    pub fn prepare(
        &self,
        context: &ToolContext,
        workspace: &str,
        request: &ProcessRequest,
        audit: &mut Option<PolicyAuditLog>,
    ) -> (r: Result<Option<ApprovalRequest>, ToolError>)
        ensures
            (outcome::of(r), (*final(audit)).deep_view()) == process_prepared(
                context.deep_view(),
                self.deep_view(),
                workspace@,
                request.deep_view(),
                (*old(audit)).deep_view(),
            ),
    {
        match validate_request(request) {
            Err(e) => {
                return Err(e);
            },
            Ok(()) => {},
        }
        match &context.run_id {
            None => match context.authorize(
                Capability::ProcessSpawn,
                request.program.as_str(),
                "run_process",
            ) {
                Err(e) => Err(e),
                Ok(()) => Ok(None),
            },
            Some(run) => {
                let wanted = process_approval_request(
                    run.as_str(),
                    workspace,
                    request,
                    &self.backend,
                );
                match context.authorize_request(&wanted, audit) {
                    Err(e) => Err(e),
                    Ok(Asking::Allowed) => Ok(None),
                    Ok(Asking::Pending) => Ok(Some(wanted)),
                }
            },
        }
    }

    /// What running the program returns, with its outputs as texts that the caller
    /// supplies.
    pub fn report(
        &self,
        request: &ProcessRequest,
        execution: &ProcessExecution,
        stdout: String,
        stderr: String,
    ) -> (r: ToolOutput)
        ensures
            r.deep_view() == process_output(
                request.deep_view(),
                execution.deep_view(),
                stdout@,
                stderr@,
            ),
    {
        let kind = execution.backend.kind;
        let exit_code = match execution.exit_code {
            Some(code) => Json::numeric(JsonNumber::Signed(code as i64)),
            None => Json::null(),
        };
        let mut content = Json::object4(
            "program",
            Json::text(request.program.as_str()),
            "args",
            schema::texts_json(&request.args),
            "exit_code",
            exit_code,
            "stdout",
            Json::string(stdout),
        );
        content.set_member("stderr", Json::string(stderr));
        content.set_member("backend", execution.backend.to_json());
        let ended = match execution.exit_code {
            Some(code) => text::signed_text(code as i64),
            None => "without a code".to_owned(),
        };
        let boundary = match kind {
            ProcessBackendKind::Disabled => "process.backend:disabled",
            ProcessBackendKind::NativeTrusted => "process.backend:nativetrusted",
            ProcessBackendKind::OciRestricted => "process.backend:ocirestricted",
        };
        let reach = match kind {
            ProcessBackendKind::OciRestricted => "filesystem.candidate-only;network.denied",
            ProcessBackendKind::NativeTrusted => "host effects require post-call reconciliation",
            ProcessBackendKind::Disabled => "process.denied",
        };
        let effects = schema::and_name(
            schema::and_name(schema::and_name(schema::no_names(), "process.spawn"), boundary),
            reach,
        );
        assert(effects.deep_view() =~= text::views(effects@));
        let succeeded = match execution.exit_code {
            Some(code) => code == 0,
            None => false,
        };
        ToolOutput {
            content,
            summary: text::concat2("process exited ", ended.as_str()),
            observed_effects: effects,
            succeeded,
            truncated: execution.stdout_truncated || execution.stderr_truncated,
        }
    }

    /// What running the program returns.
    pub fn execute(&self, request: &ProcessRequest, execution: &ProcessExecution) -> (r: ToolOutput)
        ensures
            r.deep_view() == process_output(
                request.deep_view(),
                execution.deep_view(),
                text::lossy_view(execution.stdout@),
                text::lossy_view(execution.stderr@),
            ),
    {
        self.report(
            request,
            execution,
            text::lossy_text(execution.stdout.as_slice()),
            text::lossy_text(execution.stderr.as_slice()),
        )
    }
}

/// The values of variables are shown to nobody and bound to nothing: a request for an
/// approval is the same for any values.
pub proof fn law_values_are_not_presented(
    run_id: Seq<char>,
    workspace: Seq<char>,
    a: ProcessView,
    b: ProcessView,
    backend: BackendView,
)
    requires
        a.program == b.program,
        a.args == b.args,
        a.timeout_seconds == b.timeout_seconds,
        a.max_output_bytes == b.max_output_bytes,
        variable_names(a.environment) == variable_names(b.environment),
    ensures
        command_json(a) == command_json(b),
        command_text(a) == command_text(b),
        approval_for(run_id, workspace, a, backend, command_text(a), digest::blake3_hex(encode_utf8(command_text(a))))
            == approval_for(run_id, workspace, b, backend, command_text(b), digest::blake3_hex(encode_utf8(command_text(b)))),
{
}

/// A program runs at once only where the policy grants it: without a run on a plain
/// grant, and within a run on the evaluation of the exact command. Otherwise somebody who
/// can be asked has to decide, and the evaluation stands in the audit buffer by then.
pub proof fn law_programs_need_a_grant_or_a_decision(
    context: ContextView,
    backend: BackendView,
    workspace: Seq<char>,
    request: ProcessView,
    audit: Option<Seq<AuditView>>,
)
    ensures
        ({
            let (result, after) = process_prepared(context, backend, workspace, request, audit);
            &&& result matches Ok(None) ==> context.policy.allow.contains(
                Capability::ProcessSpawn,
            ) && !context.policy.deny.contains(Capability::ProcessSpawn)
            &&& result matches Ok(Some(wanted)) ==> {
                &&& context.has_resolver
                &&& context.run_id == Some(wanted.binding.run_id)
                &&& wanted.binding.resource == command_text(request)
                &&& after is Some
                &&& after->0.len() == audit->0.len() + 1
            }
            &&& context.policy.deny.contains(Capability::ProcessSpawn) ==> result is Err
        }),
{
}

} // verus!
