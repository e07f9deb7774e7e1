//! Policies, Git evidence, observations, programs and the tools' catalog.

use pactrail::json::Json;
use pactrail::tools::approval::{ApprovalDecision, PolicyAuditEntry, PolicyAuditLog};
use pactrail::tools::builtin::builtin_registry;
use pactrail::tools::descriptor::{Capability, ToolDescriptor, ToolRisk};
use pactrail::tools::error::ToolError;
use pactrail::tools::git::{
    GitDiffTool, GitHistoryInput, GitHistoryTool, GitStatusInput, GitStatusTool, HistoryReport,
    StatusReport, DEFAULT_HISTORY_COMMITS, DEFAULT_STATUS_ENTRIES,
};
use pactrail::tools::observation::{ReadObservationInput, ReadObservationTool};
use pactrail::tools::policy::{PermissionSet, PolicyDecision, PolicyEngine};
use pactrail::tools::process::{validate_request, RunProcessTool};
use pactrail::tools::process_backend::{
    after_cleanup, bind_mount_argument, check_container_gone, check_runtime, conclude, needs_inspection,
    container_name, digest_file, reject_runtime_inside, resolve_image_identity, runtime_environment_names,
    runtime_query, BoundedOutput, Completion, DisabledProcessBackend, HostPath, OciProcessBackend,
    OciProcessConfig, OciRuntimeKind, OciSandboxProfile, ProcessBackendKind, ProcessExecution,
    ProcessRequest, RuntimeQuery,
};
use pactrail::tools::process_error::ProcessBackendError;
use pactrail::tools::registry::{Asking, ToolContext, ToolRegistry};
use pactrail::tools::structural::{
    GraphReport, SearchCodeGraphInput, SearchCodeGraphTool, SymbolCounts,
};
use pactrail::workspace::changes::FileChange;

fn json(text: &str) -> Json {
    Json::parse(text).unwrap_or_else(|error| unreachable!("fixture JSON: {error}"))
}

fn at(value: &Json, path: &str) -> Json {
    path.split('.').fold(value.clone(), |found, step| match step.parse::<usize>() {
        Ok(index) => match found.as_array().and_then(|items| items.get(index)) {
            Some(item) => item.clone(),
            None => Json::Null,
        },
        Err(_) => found.get(step).cloned().unwrap_or(Json::Null),
    })
}

fn text_at(value: &Json, path: &str) -> String {
    at(value, path).as_str().unwrap_or("<none>").to_owned()
}

fn number_at(value: &Json, path: &str) -> Option<u64> {
    at(value, path).as_u64()
}

#[test]
fn default_policy_requires_process_approval() {
    let decision = PolicyEngine::local_default().evaluate(
        Capability::ProcessSpawn,
        "cargo",
        Some("run_process".to_owned()),
    );
    assert!(matches!(decision, PolicyDecision::Ask { .. }));
}

#[test]
fn explicit_denial_wins() {
    let mut permissions = PermissionSet::default();
    permissions.allow.insert(Capability::Network);
    permissions.deny.insert(Capability::Network);
    let decision = PolicyEngine::new(permissions).evaluate(Capability::Network, "example.com", None);
    assert!(matches!(decision, PolicyDecision::Deny { .. }));
}

#[test]
fn grants_are_narrow() {
    let policy = PolicyEngine::local_default().with_allowed(Capability::Network);
    assert!(matches!(
        policy.evaluate(Capability::Network, "example.com", None),
        PolicyDecision::Allow { .. }
    ));
    assert!(!matches!(
        policy.evaluate(Capability::SecretUse, "key", None),
        PolicyDecision::Allow { .. }
    ));
}

fn candidate(path: &str) -> FileChange {
    FileChange {
        path: path.to_owned(),
        before_digest: None,
        after_digest: Some("0".repeat(64)),
        before_unix_mode: None,
        after_unix_mode: None,
        bytes_added: 9,
        bytes_removed: 0,
    }
}

#[test]
fn status_keeps_source_and_candidate_evidence_separate() {
    let policy = PolicyEngine::local_default();
    let context = ToolContext::new(&policy);
    let request = GitStatusInput {
        max_entries: DEFAULT_STATUS_ENTRIES,
    };
    assert!(GitStatusTool.prepare(&context, &request).is_ok());
    let output = GitStatusTool.execute(
        &request,
        StatusReport {
            report: json(r#"{"total_entries": 0, "entries": []}"#),
            total_entries: 0,
            result_truncated: false,
        },
        &"b".repeat(64),
        &vec![candidate("candidate.txt")],
    );
    assert_eq!(number_at(&output.content, "source_repository.total_entries"), Some(0));
    assert_eq!(number_at(&output.content, "isolated_candidate.total_changes"), Some(1));
    assert_eq!(
        text_at(&output.content, "isolated_candidate.changes.0.path"),
        "candidate.txt"
    );
    assert!(output.succeeded);
}

#[test]
fn git_tools_fail_before_reading_when_file_authority_is_denied() {
    let policy = PolicyEngine::new(PermissionSet::default());
    let context = ToolContext::new(&policy);
    let request = GitHistoryInput {
        max_commits: DEFAULT_HISTORY_COMMITS,
    };
    assert!(matches!(
        GitHistoryTool.prepare(&context, &request),
        Err(ToolError::Denied(_))
    ));
    assert!(matches!(GitDiffTool.prepare(&context), Err(ToolError::Denied(_))));
}

#[test]
fn history_reports_are_handed_on() {
    let output = GitHistoryTool.execute(HistoryReport {
        report: json(r#"{"commits": [{"summary": "first"}]}"#),
        commits: 1,
        result_truncated: true,
    });
    assert!(output.truncated);
    assert!(output.content.to_text().contains("first"));
    let policy = PolicyEngine::local_default();
    assert!(matches!(
        GitHistoryTool.prepare(&ToolContext::new(&policy), &GitHistoryInput { max_commits: 101 }),
        Err(ToolError::InvalidRange(_))
    ));
}

#[test]
fn default_registry_exposes_the_git_evidence_tools() {
    let names = builtin_registry()
        .unwrap_or_else(|error| unreachable!("registry: {}", error.message()))
        .descriptors()
        .into_iter()
        .map(|tool| tool.name)
        .collect::<Vec<_>>();
    assert!(names.iter().any(|name| name == "git_status"));
    assert!(names.iter().any(|name| name == "git_diff"));
    assert!(names.iter().any(|name| name == "git_history"));
}

#[test]
fn registries_are_ordered_and_refuse_duplicates() {
    let mut registry = builtin_registry()
        .unwrap_or_else(|error| unreachable!("registry: {}", error.message()));
    let names = registry
        .descriptors()
        .into_iter()
        .map(|tool| tool.name)
        .collect::<Vec<_>>();
    let mut sorted = names.clone();
    sorted.sort();
    assert_eq!(names, sorted);
    assert_eq!(names.len(), 15);
    let again = registry
        .descriptor("read_file")
        .unwrap_or_else(|| unreachable!("descriptor"));
    assert!(matches!(
        registry.register(again),
        Err(ToolError::DuplicateTool(name)) if name == "read_file"
    ));
    assert!(matches!(
        ToolRegistry::new().select("read_file"),
        Err(ToolError::UnknownTool(_))
    ));
}

#[test]
fn reads_only_a_bounded_slice_of_the_current_runs_artifact() {
    let policy = PolicyEngine::local_default();
    let context = ToolContext::new(&policy).with_policy_audit("run-1".to_owned(), false);
    let tool = ReadObservationTool::new("/observations".to_owned());
    let request = |digest: String, start_byte: u64, max_bytes: u64| ReadObservationInput {
        digest,
        start_byte,
        max_bytes,
    };
    let first = request("a".repeat(64), 0, 10);
    let run_id = tool
        .prepare(&context, &first)
        .unwrap_or_else(|error| unreachable!("read: {}", error.message()));
    assert_eq!(run_id, "run-1");
    assert_eq!(tool.run_root(&run_id), "/observations/run-1");
    assert_eq!(ReadObservationTool::new(String::new()).run_root(&run_id), "run-1");
    assert_eq!(ReadObservationTool::new("/kept/".to_owned()).run_root(&run_id), "/kept/run-1");
    let artifact = Some("{\"text\":\"αβγ\"}".as_bytes().to_vec());
    let output = tool
        .execute(&first, &artifact)
        .unwrap_or_else(|error| unreachable!("read: {}", error.message()));
    assert_eq!(number_at(&output.content, "start_byte"), Some(0));
    assert_eq!(number_at(&output.content, "next_start_byte"), Some(9));
    assert_eq!(text_at(&output.content, "content_json"), "{\"text\":\"");
    assert!(tool.prepare(&context, &request("../other".to_owned(), 0, 10)).is_err());
    let Err(cross_run_error) = tool.execute(&first, &None) else {
        unreachable!("cross-run read succeeded")
    };
    assert!(!cross_run_error.message().contains("/observations"));
    assert!(tool.execute(&request("a".repeat(64), 10, 10), &artifact).is_err());
    assert!(tool.execute(&request("a".repeat(64), 9, 1), &artifact).is_err());
}

#[test]
fn observations_are_read_through_piece_by_piece() {
    let text = "{\"text\":\"αβγ — δ\"}";
    let tool = ReadObservationTool::new("/observations".to_owned());
    let mut read = String::new();
    let mut start_byte = 0;
    loop {
        let output = tool
            .execute(
                &ReadObservationInput {
                    digest: "a".repeat(64),
                    start_byte,
                    max_bytes: 4,
                },
                &Some(text.as_bytes().to_vec()),
            )
            .unwrap_or_else(|error| unreachable!("read: {}", error.message()));
        read.push_str(&text_at(&output.content, "content_json"));
        match number_at(&output.content, "next_start_byte") {
            Some(next) => start_byte = next,
            None => break,
        }
    }
    assert_eq!(read, text);
}

fn cargo() -> ProcessRequest {
    ProcessRequest {
        program: "cargo".to_owned(),
        args: vec!["test".to_owned(), "--workspace".to_owned()],
        timeout_seconds: 120,
        max_output_bytes: 1024,
        environment: vec![("RUST_BACKTRACE".to_owned(), "1".to_owned())],
    }
}

#[test]
fn process_requires_explicit_capability() {
    let policy = PolicyEngine::local_default();
    let context = ToolContext::new(&policy);
    let mut audit = None;
    let mut request = cargo();
    request.args = Vec::new();
    request.environment = Vec::new();
    let result = RunProcessTool::native_trusted().prepare(&context, "/workspace", &request, &mut audit);
    assert!(matches!(result, Err(ToolError::ApprovalRequired { .. })));
}

#[test]
fn default_process_tool_fails_closed() {
    assert_eq!(
        RunProcessTool::default().backend().kind,
        ProcessBackendKind::Disabled
    );
    assert!(matches!(
        DisabledProcessBackend.execute(&cargo()),
        Err(ProcessBackendError::Disabled)
    ));
    assert_eq!(
        RunProcessTool::native_trusted().descriptor().annotations.risk,
        ToolRisk::HostExecution
    );
}

#[test]
fn approvals_are_bound_recorded_and_settled() {
    let policy = PolicyEngine::local_default();
    let context = ToolContext::new(&policy).with_policy_audit("run-1".to_owned(), true);
    let tool = RunProcessTool::native_trusted();
    let mut audit = Some(PolicyAuditLog::default());
    let asked = tool
        .prepare(&context, "/workspace", &cargo(), &mut audit)
        .unwrap_or_else(|error| unreachable!("prepare: {}", error.message()))
        .unwrap_or_else(|| unreachable!("approval request"));
    assert_eq!(asked.binding.run_id, "run-1");
    assert_eq!(asked.binding.capability, Capability::ProcessSpawn);
    let shown = asked
        .presentation
        .iter()
        .map(|(title, text)| format!("{title}={text}"))
        .collect::<Vec<_>>()
        .join("\n");
    assert!(shown.contains("RUST_BACKTRACE"));

    let other = tool
        .prepare(
            &context,
            "/workspace",
            &ProcessRequest {
                args: vec!["build".to_owned()],
                ..cargo()
            },
            &mut audit,
        )
        .unwrap_or_else(|error| unreachable!("prepare: {}", error.message()))
        .unwrap_or_else(|| unreachable!("approval request"));
    assert_ne!(other.binding.resource, asked.binding.resource);
    assert_ne!(other.binding.actor_fingerprint, asked.binding.actor_fingerprint);
    assert_eq!(asked.binding.actor_fingerprint.len(), 64);

    let same = tool
        .prepare(
            &context,
            "/workspace",
            &ProcessRequest {
                environment: vec![("RUST_BACKTRACE".to_owned(), "secret".to_owned())],
                ..cargo()
            },
            &mut audit,
        )
        .unwrap_or_else(|error| unreachable!("prepare: {}", error.message()))
        .unwrap_or_else(|| unreachable!("approval request"));
    assert_eq!(same.binding.resource, asked.binding.resource);
    assert_eq!(same.presentation, asked.presentation);

    assert!(matches!(
        context.authorize_request(&asked, &mut audit),
        Ok(Asking::Pending)
    ));
    assert!(context
        .settle(&asked, ApprovalDecision::AllowOnce, true, &mut audit)
        .is_ok());
    assert!(context
        .settle(&asked, ApprovalDecision::Deny, true, &mut audit)
        .is_err());
    let entries = audit
        .as_mut()
        .unwrap_or_else(|| unreachable!("audit"))
        .drain();
    let approvals = entries
        .iter()
        .filter(|entry| matches!(entry, PolicyAuditEntry::Approval(_)))
        .count();
    assert_eq!(approvals, 2);
    assert!(matches!(entries.first(), Some(PolicyAuditEntry::Evaluation(_))));
}

#[test]
fn process_requests_are_bounded() {
    assert!(validate_request(&cargo()).is_ok());
    let refused = [
        ProcessRequest { program: String::new(), ..cargo() },
        ProcessRequest { args: vec!["a\0b".to_owned()], ..cargo() },
        ProcessRequest { timeout_seconds: 0, ..cargo() },
        ProcessRequest { timeout_seconds: 3_601, ..cargo() },
        ProcessRequest { max_output_bytes: 0, ..cargo() },
        ProcessRequest {
            environment: vec![("A=B".to_owned(), String::new())],
            ..cargo()
        },
    ];
    for request in refused {
        assert!(matches!(validate_request(&request), Err(ToolError::InvalidRange(_))));
    }
}

#[test]
fn executions_are_reported_with_their_outputs() {
    let tool = RunProcessTool::native_trusted();
    let output = tool.execute(
        &cargo(),
        &ProcessExecution {
            exit_code: Some(101),
            stdout: b"ok \xff".to_vec(),
            stderr: Vec::new(),
            stdout_truncated: true,
            stderr_truncated: false,
            backend: tool.backend().clone(),
        },
    );
    assert!(!output.succeeded);
    assert!(output.truncated);
    assert_eq!(text_at(&output.content, "stdout"), "ok \u{fffd}");
}

fn backend(runtime: OciRuntimeKind) -> OciProcessBackend {
    OciProcessBackend::initialize(
        OciProcessConfig {
            runtime,
            runtime_executable: runtime.executable_name().to_owned(),
            image: "pactrail/sandbox:fixture".to_owned(),
            profile: OciSandboxProfile::default(),
        },
        runtime.executable_name().to_owned(),
        "0".repeat(64),
        format!("sha256:{}", "a".repeat(64)),
    )
    .unwrap_or_else(|error| unreachable!("backend: {}", error.message()))
}

#[test]
fn restricted_plan_contains_every_security_boundary() {
    let args = backend(OciRuntimeKind::Docker)
        .command_plan("/tmp/workspace", &cargo(), "pactrail-fixture")
        .unwrap_or_else(|error| unreachable!("plan: {}", error.message()));
    for required in [
        "--rm",
        "--init",
        "--pull=never",
        "--network=none",
        "--read-only",
        "--cap-drop=ALL",
        "--security-opt=no-new-privileges",
        "--ipc=none",
        "--pids-limit=128",
        "--memory=2147483648",
        "--memory-swap=2147483648",
        "--cpus=2.000",
        "--workdir=/workspace",
        "--entrypoint=cargo",
    ] {
        assert!(args.iter().any(|argument| argument == required), "{required}");
    }
    assert!(args
        .iter()
        .any(|argument| argument.starts_with("--mount=type=bind,source=")));
    assert!(args.iter().any(|argument| argument == "--env"));
    assert!(args.iter().any(|argument| argument == "RUST_BACKTRACE=1"));
    assert_eq!(args[args.len() - 2], "test");
    assert_eq!(args[args.len() - 1], "--workspace");
}

#[test]
fn model_arguments_never_become_runtime_flags_or_shell_syntax() {
    let mut request = cargo();
    request.args = vec![
        "--network=host".to_owned(),
        "; rm -rf /".to_owned(),
        "$(touch /host)".to_owned(),
    ];
    let args = backend(OciRuntimeKind::Podman)
        .command_plan("/tmp/workspace", &request, "pactrail-fixture")
        .unwrap_or_else(|error| unreachable!("plan: {}", error.message()));
    let image_index = args
        .iter()
        .position(|argument| argument.starts_with("sha256:"))
        .unwrap_or_else(|| unreachable!("image identity"));
    assert_eq!(&args[image_index + 1..], &request.args[..]);
    assert!(args[..image_index]
        .iter()
        .any(|argument| argument == "--network=none"));
}

fn host_path(text: &str) -> HostPath {
    HostPath {
        text: text.to_owned(),
        components: text.split('/').filter(|part| !part.is_empty()).map(str::to_owned).collect(),
    }
}

#[test]
fn rejects_workspace_shadowed_runtime() {
    let forbidden = vec![host_path("/tmp/workspace")];
    assert!(matches!(
        reject_runtime_inside(&host_path("/tmp/workspace/docker"), &forbidden),
        Err(ProcessBackendError::RuntimeInsideWorkspace { .. })
    ));
    assert!(reject_runtime_inside(&host_path("/tmp/workspace2/docker"), &forbidden).is_ok());
}

#[test]
fn mounts_and_images_fail_closed() {
    assert!(matches!(
        bind_mount_argument("/tmp/a\nb"),
        Err(ProcessBackendError::UnsafeMountPath(_))
    ));
    assert_eq!(
        bind_mount_argument("/tmp/a\"b").ok().as_deref(),
        Some("type=bind,source=\"/tmp/a\"\"b\",target=/workspace")
    );
    let config = OciProcessConfig::for_runtime(OciRuntimeKind::Docker, "-v".to_owned());
    assert!(matches!(
        config.validate(),
        Err(ProcessBackendError::InvalidConfiguration(_))
    ));
    let identity = format!("sha256:{}\n", "a".repeat(64));
    assert_eq!(
        resolve_image_identity("image", Some(0), &identity.clone().into_bytes()).ok(),
        Some(identity.trim().to_owned())
    );
    assert!(matches!(
        resolve_image_identity("image", Some(1), &identity.into_bytes()),
        Err(ProcessBackendError::ImageUnavailable { .. })
    ));
    assert!(check_runtime("/usr/bin/docker", OciRuntimeKind::Docker, Some(0), &b"Docker version 27".to_vec()).is_ok());
    assert!(matches!(
        check_runtime("/usr/bin/docker", OciRuntimeKind::Docker, Some(0), &b"podman version 5".to_vec()),
        Err(ProcessBackendError::RuntimeMismatch { .. })
    ));
    assert!(!runtime_query(RuntimeQuery::RemoveContainer, "pactrail-1").is_empty());
    assert!(container_name(7, 3).starts_with("pactrail-"));
    assert!(!runtime_environment_names().is_empty());
}

#[test]
fn profiles_are_told_apart_by_their_digests() {
    let wide = OciSandboxProfile::default();
    let narrow = OciSandboxProfile {
        pids_limit: 64,
        ..OciSandboxProfile::default()
    };
    assert_eq!(wide.digest().len(), 64);
    assert_eq!(
        digest_file(b""),
        "af1349b9f5f9a1a6a0404dea36dcc9499bcb25c9adc112b7cc9a93cae41f3262"
    );
    assert_ne!(wide.digest(), narrow.digest());
    assert_eq!(
        backend(OciRuntimeKind::Docker).descriptor().kind,
        ProcessBackendKind::OciRestricted
    );
}

#[test]
fn outcomes_of_programs_are_told_apart() {
    assert_eq!(conclude("cargo", 5, Completion::Exited(Some(2))).ok(), Some(Some(2)));
    assert!(matches!(
        conclude("cargo", 5, Completion::TimedOut),
        Err(ProcessBackendError::Timeout { seconds: 5, .. })
    ));
    assert!(matches!(
        conclude("cargo", 5, Completion::Cancelled),
        Err(ProcessBackendError::Cancelled { .. })
    ));
    assert!(matches!(
        conclude("cargo", 5, Completion::Lost("gone".to_owned())),
        Err(ProcessBackendError::Wait { .. })
    ));
    assert!(matches!(
        check_container_gone("pactrail-1", Some(0)),
        Err(ProcessBackendError::ContainerCleanup { .. })
    ));
    assert!(check_container_gone("pactrail-1", Some(1)).is_ok());
    assert!(!needs_inspection(Some(0)));
    assert!(needs_inspection(Some(1)) && needs_inspection(None));
    let primary = ProcessBackendError::Cancelled {
        program: "cargo".to_owned(),
    };
    assert!(matches!(
        after_cleanup(primary, check_container_gone("pactrail-1", Some(0))),
        ProcessBackendError::CleanupAfterFailure { .. }
    ));
}

#[test]
fn output_is_kept_from_the_beginning() {
    let mut output = BoundedOutput::new(5);
    output.push_piece(b"abc", 3);
    output.push_piece(b"defg", 4);
    assert_eq!(output.finish(), (b"abcde".to_vec(), true));
    let mut output = BoundedOutput::new(5);
    output.push_piece(b"abcxx", 3);
    assert_eq!(output.finish(), (b"abc".to_vec(), false));
}

#[test]
fn graph_searches_are_bounded_and_reported() {
    let policy = PolicyEngine::local_default();
    let context = ToolContext::new(&policy);
    let request = |query: &str, max_symbols: usize| SearchCodeGraphInput {
        query: query.to_owned(),
        max_symbols,
        max_references_per_symbol: 20,
    };
    assert_eq!(
        SearchCodeGraphTool.prepare(&context, &request(" Receipt ", 12)).ok().as_deref(),
        Some("Receipt")
    );
    assert!(SearchCodeGraphTool.prepare(&context, &request("Receipt", 33)).is_err());
    assert!(SearchCodeGraphTool.prepare(&context, &request(" ", 12)).is_err());
    let output = SearchCodeGraphTool.execute(GraphReport {
        repository_digest: "c".repeat(64),
        report: json(
            r#"{"symbols": [{"name": "Receipt", "references": [{"path": "src/use_receipt.rs"}]}]}"#,
        ),
        symbols: vec![SymbolCounts {
            definitions: 1,
            references: 1,
            references_truncated: false,
        }],
        result_truncated: false,
        graph_truncated: false,
    });
    assert_eq!(text_at(&output.content, "result.symbols.0.name"), "Receipt");
    assert_eq!(
        text_at(&output.content, "result.symbols.0.references.0.path"),
        "src/use_receipt.rs"
    );
}

const MAX_BUILTIN_TOOLS: usize = 32;
const MAX_SERIALIZED_DESCRIPTOR_BYTES: usize = 32 * 1024;
const MAX_SINGLE_DESCRIPTOR_BYTES: usize = 8 * 1024;
const MAX_SCHEMA_DEPTH: usize = 24;

#[test]
fn builtin_descriptor_catalog_stays_within_the_model_budget() {
    let descriptors = builtin_registry()
        .unwrap_or_else(|error| unreachable!("built-in registry: {}", error.message()))
        .descriptors();
    assert!(descriptors.len() <= MAX_BUILTIN_TOOLS);
    let serialized: usize = descriptors.iter().map(|tool| encoded(tool).len() + 1).sum();
    assert!(serialized < MAX_SERIALIZED_DESCRIPTOR_BYTES);

    for descriptor in descriptors {
        let encoded = encoded(&descriptor);
        assert!(
            encoded.len() <= MAX_SINGLE_DESCRIPTOR_BYTES,
            "{} descriptor is {} bytes",
            descriptor.name,
            encoded.len()
        );
        assert!(!descriptor.description.trim().is_empty());
        assert!(json_depth(&descriptor.input_schema.to_value()) <= MAX_SCHEMA_DEPTH);
    }
}

fn encoded(descriptor: &ToolDescriptor) -> String {
    let annotations = Json::object4(
        "read_only",
        Json::boolean(descriptor.annotations.read_only),
        "idempotent",
        Json::boolean(descriptor.annotations.idempotent),
        "parallel_safe",
        Json::boolean(descriptor.annotations.parallel_safe),
        "risk",
        Json::string(format!("{:?}", descriptor.annotations.risk)),
    );
    Json::object2(
        "descriptor",
        Json::object4(
            "name",
            Json::text(&descriptor.name),
            "description",
            Json::text(&descriptor.description),
            "input_schema",
            descriptor.input_schema.clone(),
            "required_capability",
            Json::text(descriptor.required_capability.name()),
        ),
        "annotations",
        annotations,
    )
    .to_text()
}

fn json_depth(value: &serde_json::Value) -> usize {
    match value {
        serde_json::Value::Array(values) => values
            .iter()
            .map(json_depth)
            .max()
            .unwrap_or_default()
            .saturating_add(1),
        serde_json::Value::Object(values) => values
            .values()
            .map(json_depth)
            .max()
            .unwrap_or_default()
            .saturating_add(1),
        serde_json::Value::Null
        | serde_json::Value::Bool(_)
        | serde_json::Value::Number(_)
        | serde_json::Value::String(_) => 1,
    }
}
