//! The tools that show Git evidence. The repository itself is inspected elsewhere.

use crate::json;
use crate::json::{Json, JsonMap, JsonView};
use crate::outcome;
use crate::text;
use crate::tools::batch;
use crate::tools::batch::{change_values, single};
use crate::tools::descriptor;
use crate::tools::descriptor::{Capability, DescriptorView, OutputView, ToolDescriptor, ToolOutput};
use crate::tools::error::{ToolError, ToolFault};
use crate::tools::policy;
use crate::tools::policy::{PermissionView, PolicyDecision, ScopeView};
use crate::tools::registry::ToolContext;
use crate::tools::schema;
use crate::workspace::changes::{ChangeView, FileChange};
use vstd::prelude::*;

verus! {

/// Number of status entries where no number is given.
pub const DEFAULT_STATUS_ENTRIES: usize = 200;

/// Largest number of status entries.
pub const MAX_STATUS_ENTRIES: usize = 512;

/// Number of commits where no number is given.
pub const DEFAULT_HISTORY_COMMITS: usize = 20;

/// Largest number of commits.
pub const MAX_HISTORY_COMMITS: usize = 100;

/// Whether Git evidence may be read. It is read only on a grant: nobody is asked for it,
/// so without a grant it is denied.
pub open spec fn granted(policy: PermissionView, tool: Seq<char>) -> Result<(), ToolFault> {
    let scope = ScopeView {
        capability: Capability::FileRead,
        resource: "."@,
        actor_fingerprint: Some(tool),
    };
    match policy::decision(policy, scope) {
        policy::DecisionView::Allow { .. } => Ok(()),
        policy::DecisionView::Deny { reason } => Err(ToolFault::Denied(reason)),
        policy::DecisionView::Ask { reason, .. } => Err(ToolFault::Denied(reason)),
    }
}

fn require_grant(context: &ToolContext, tool: &str) -> (r: Result<(), ToolError>)
    ensures
        outcome::of(r) == granted(context.deep_view().policy, tool@),
{
    match context.policy.evaluate(Capability::FileRead, ".", Some(tool.to_owned())) {
        PolicyDecision::Allow { .. } => Ok(()),
        PolicyDecision::Deny { reason } => Err(ToolError::Denied(reason)),
        PolicyDecision::Ask { reason, .. } => Err(ToolError::Denied(reason)),
    }
}

/// Git evidence is read on a grant of file reads and on nothing else.
pub proof fn law_git_evidence_needs_a_grant(policy: PermissionView, tool: Seq<char>)
    ensures
        granted(policy, tool) is Ok <==> policy.allow.contains(Capability::FileRead)
            && !policy.deny.contains(Capability::FileRead),
        granted(policy, tool) matches Err(e) ==> e is Denied,
{
}

/// What `git_status` is asked for.
pub struct GitStatusInput {
    /// Maximum repository and candidate entries returned. Aggregate counts
    /// remain available when either result is truncated.
    pub max_entries: usize,
}

/// The schema of [`GitStatusInput`].
pub open spec fn git_status_schema() -> JsonView {
    schema::document(
        schema::closed_object(
            Map::<Seq<char>, JsonView>::empty().insert(
                "max_entries"@,
                schema::defaulted(
                    schema::described(
                        schema::count_spec(),
                        "Maximum repository and candidate entries returned. Aggregate counts\nremain available when either result is truncated."@,
                    ),
                    json::num(DEFAULT_STATUS_ENTRIES as nat),
                ),
            ),
            Seq::empty(),
        ),
        "GitStatusInput"@,
    )
}

/// Whether a status may be read.
pub open spec fn status_prepared(policy: PermissionView, max_entries: usize) -> Result<
    (),
    ToolFault,
> {
    if !(1 <= max_entries <= MAX_STATUS_ENTRIES) {
        Err(
            ToolFault::InvalidRange(
                "max_entries must be between 1 and "@ + text::decimal(MAX_STATUS_ENTRIES as nat),
            ),
        )
    } else {
        granted(policy, "git_status"@)
    }
}

/// The status of the source repository, as its inspection reports it.
pub struct StatusReport {
    pub report: Json,
    pub total_entries: usize,
    pub result_truncated: bool,
}

/// A [`StatusReport`] by its value.
pub struct StatusView {
    pub report: JsonView,
    pub total_entries: nat,
    pub result_truncated: bool,
}

impl DeepView for StatusReport {
    type V = StatusView;

    open spec fn deep_view(&self) -> StatusView {
        StatusView {
            report: self.report.deep_view(),
            total_entries: self.total_entries as nat,
            result_truncated: self.result_truncated,
        }
    }
}

/// What a status returns: the repository's and the candidate's, kept apart.
pub open spec fn status_output(
    max_entries: nat,
    repository: StatusView,
    baseline_digest: Seq<char>,
    changes: Seq<ChangeView>,
) -> OutputView {
    let cut = changes.len() > max_entries;
    let shown = if cut {
        changes.take(max_entries as int)
    } else {
        changes
    };
    OutputView {
        content: json::obj2(
            "source_repository"@,
            repository.report,
            "isolated_candidate"@,
            json::with_member(
                json::obj4(
                    "baseline_digest"@,
                    JsonView::Text(baseline_digest),
                    "changes"@,
                    JsonView::Array(shown.map_values(|c: ChangeView| batch::change_json(c))),
                    "total_changes"@,
                    json::num(changes.len()),
                    "result_truncated"@,
                    JsonView::Bool(cut),
                ),
                "warning"@,
                JsonView::Text(
                    "candidate changes are isolated and do not modify the source repository until explicit review and apply"@,
                ),
            ),
        ),
        summary: "source has "@ + text::decimal(repository.total_entries)
            + " changed path(s); isolated candidate has "@ + text::decimal(changes.len())
            + " change(s)"@,
        observed_effects: seq!["git.read:status"@, "transaction.inspect:changes"@],
        succeeded: true,
        truncated: repository.result_truncated || cut,
    }
}

/// Reads process-free source-repository and isolated-candidate status.
pub struct GitStatusTool;

/// What `git_status` presents to a model.
pub open spec fn git_status_descriptor() -> DescriptorView {
    descriptor::descriptor_spec(
        "git_status"@,
        "Inspect bounded read-only Git status for the source repository plus Pactrail's isolated candidate changes. Distinguishes HEAD-to-index from index-to-raw-worktree evidence and never runs Git commands, filters, hooks, submodules, credentials, or network operations."@,
        git_status_schema(),
        Capability::FileRead,
    )
}

impl GitStatusTool {
    /// What the tool presents to a model.
    pub fn descriptor(&self) -> (r: ToolDescriptor)
        ensures
            r.deep_view() == git_status_descriptor(),
    {
        let mut properties = JsonMap::new();
        properties.insert(
            "max_entries",
            schema::defaulted_json(
                schema::described_json(
                    schema::count_json(),
                    "Maximum repository and candidate entries returned. Aggregate counts\nremain available when either result is truncated.",
                ),
                Json::count(DEFAULT_STATUS_ENTRIES),
            ),
        );
        descriptor::descriptor(
            "git_status",
            "Inspect bounded read-only Git status for the source repository plus Pactrail's isolated candidate changes. Distinguishes HEAD-to-index from index-to-raw-worktree evidence and never runs Git commands, filters, hooks, submodules, credentials, or network operations.",
            schema::document_json(
                schema::closed_object_json(properties, &schema::no_names()),
                "GitStatusInput",
            ),
            Capability::FileRead,
        )
    }

    /// Checks the request and requires the authority to read the repository.
    pub fn prepare(&self, context: &ToolContext, request: &GitStatusInput) -> (r: Result<
        (),
        ToolError,
    >)
        ensures
            outcome::of(r) == status_prepared(context.deep_view().policy, request.max_entries),
    {
        if !(1 <= request.max_entries && request.max_entries <= MAX_STATUS_ENTRIES) {
            return Err(
                ToolError::InvalidRange(
                    text::concat2(
                        "max_entries must be between 1 and ",
                        text::decimal_of(MAX_STATUS_ENTRIES).as_str(),
                    ),
                ),
            );
        }
        require_grant(context, "git_status")
    }

    /// What the status returns.
    pub fn execute(
        &self,
        request: &GitStatusInput,
        repository: StatusReport,
        baseline_digest: &str,
        changes: &Vec<FileChange>,
    ) -> (r: ToolOutput)
        ensures
            r.deep_view() == status_output(
                request.max_entries as nat,
                repository.deep_view(),
                baseline_digest@,
                changes.deep_view(),
            ),
    {
        let cut = changes.len() > request.max_entries;
        let shown: usize = if cut {
            request.max_entries
        } else {
            changes.len()
        };
        assert(changes.deep_view().take(changes@.len() as int) =~= changes.deep_view());
        let mut candidate = Json::object4(
            "baseline_digest",
            Json::text(baseline_digest),
            "changes",
            change_values(changes, shown),
            "total_changes",
            Json::count(changes.len()),
            "result_truncated",
            Json::boolean(cut),
        );
        candidate.set_member(
            "warning",
            Json::text(
                "candidate changes are isolated and do not modify the source repository until explicit review and apply",
            ),
        );
        let mut effects: Vec<String> = Vec::new();
        effects.push("git.read:status".to_owned());
        effects.push("transaction.inspect:changes".to_owned());
        assert(effects.deep_view() =~= seq!["git.read:status"@, "transaction.inspect:changes"@]);
        let summary = text::concat5(
            "source has ",
            text::decimal_of(repository.total_entries).as_str(),
            " changed path(s); isolated candidate has ",
            text::decimal_of(changes.len()).as_str(),
            " change(s)",
        );
        ToolOutput {
            content: Json::object2(
                "source_repository",
                repository.report,
                "isolated_candidate",
                candidate,
            ),
            summary,
            observed_effects: effects,
            succeeded: true,
            truncated: repository.result_truncated || cut,
        }
    }
}

/// What `git_diff` is asked for.
pub struct GitDiffInput {
    /// Optional workspace-relative source path. Absolute paths and traversal
    /// components are rejected.
    pub path: Option<String>,
}

/// The schema of [`GitDiffInput`].
pub open spec fn git_diff_schema() -> JsonView {
    schema::document(
        schema::closed_object(
            Map::<Seq<char>, JsonView>::empty().insert(
                "path"@,
                schema::described(
                    schema::nullable("string"@),
                    "Optional workspace-relative source path. Absolute paths and traversal\ncomponents are rejected."@,
                ),
            ),
            Seq::empty(),
        ),
        "GitDiffInput"@,
    )
}

/// A diff, as the inspection of the repository reports it.
pub struct DiffReport {
    pub report: Json,
    pub files: usize,
    pub total_changed_files: usize,
    pub result_truncated: bool,
}

/// What a diff returns.
pub open spec fn diff_output(
    report: JsonView,
    files: nat,
    total_changed_files: nat,
    result_truncated: bool,
) -> OutputView {
    OutputView {
        content: json::obj2(
            "warning"@,
            JsonView::Text(
                "raw-byte source diff only; Git filters, textconv, hooks, submodules, external commands, and the isolated candidate are not evaluated"@,
            ),
            "result"@,
            report,
        ),
        summary: "rendered "@ + text::decimal(files) + " of "@ + text::decimal(total_changed_files)
            + " changed source file(s)"@,
        observed_effects: seq!["git.read:diff"@],
        succeeded: true,
        truncated: result_truncated,
    }
}

/// Reads a bounded raw HEAD-to-source-worktree diff.
pub struct GitDiffTool;

/// What `git_diff` presents to a model.
pub open spec fn git_diff_descriptor() -> DescriptorView {
    descriptor::descriptor_spec(
        "git_diff"@,
        "Render a bounded read-only unified diff from HEAD to the raw source worktree, optionally for one path. This is Git navigation evidence; use workspace_changes and mutation feedback for Pactrail's isolated candidate."@,
        git_diff_schema(),
        Capability::FileRead,
    )
}

impl GitDiffTool {
    /// What the tool presents to a model.
    pub fn descriptor(&self) -> (r: ToolDescriptor)
        ensures
            r.deep_view() == git_diff_descriptor(),
    {
        let mut properties = JsonMap::new();
        properties.insert(
            "path",
            schema::described_json(
                schema::nullable_json("string"),
                "Optional workspace-relative source path. Absolute paths and traversal\ncomponents are rejected.",
            ),
        );
        descriptor::descriptor(
            "git_diff",
            "Render a bounded read-only unified diff from HEAD to the raw source worktree, optionally for one path. This is Git navigation evidence; use workspace_changes and mutation feedback for Pactrail's isolated candidate.",
            schema::document_json(
                schema::closed_object_json(properties, &schema::no_names()),
                "GitDiffInput",
            ),
            Capability::FileRead,
        )
    }

    /// Requires the authority to read the repository.
    pub fn prepare(&self, context: &ToolContext) -> (r: Result<(), ToolError>)
        ensures
            outcome::of(r) == granted(context.deep_view().policy, "git_diff"@),
    {
        require_grant(context, "git_diff")
    }

    /// What the diff returns.
    pub fn execute(&self, diff: DiffReport) -> (r: ToolOutput)
        ensures
            r.deep_view() == diff_output(
                diff.report.deep_view(),
                diff.files as nat,
                diff.total_changed_files as nat,
                diff.result_truncated,
            ),
    {
        let summary = text::concat5(
            "rendered ",
            text::decimal_of(diff.files).as_str(),
            " of ",
            text::decimal_of(diff.total_changed_files).as_str(),
            " changed source file(s)",
        );
        ToolOutput {
            content: Json::object2(
                "warning",
                Json::text(
                    "raw-byte source diff only; Git filters, textconv, hooks, submodules, external commands, and the isolated candidate are not evaluated",
                ),
                "result",
                diff.report,
            ),
            summary,
            observed_effects: single("git.read:diff"),
            succeeded: true,
            truncated: diff.result_truncated,
        }
    }
}

/// What `git_history` is asked for.
pub struct GitHistoryInput {
    /// Maximum newest-first commits to return.
    pub max_commits: usize,
}

/// The schema of [`GitHistoryInput`].
pub open spec fn git_history_schema() -> JsonView {
    schema::document(
        schema::closed_object(
            Map::<Seq<char>, JsonView>::empty().insert(
                "max_commits"@,
                schema::defaulted(
                    schema::described(
                        schema::count_spec(),
                        "Maximum newest-first commits to return."@,
                    ),
                    json::num(DEFAULT_HISTORY_COMMITS as nat),
                ),
            ),
            Seq::empty(),
        ),
        "GitHistoryInput"@,
    )
}

/// Whether a history may be read.
pub open spec fn history_prepared(policy: PermissionView, max_commits: usize) -> Result<
    (),
    ToolFault,
> {
    if !(1 <= max_commits <= MAX_HISTORY_COMMITS) {
        Err(
            ToolFault::InvalidRange(
                "max_commits must be between 1 and "@ + text::decimal(MAX_HISTORY_COMMITS as nat),
            ),
        )
    } else {
        granted(policy, "git_history"@)
    }
}

/// Commits, as the inspection of the repository reports them.
pub struct HistoryReport {
    pub report: Json,
    pub commits: usize,
    pub result_truncated: bool,
}

/// What a history returns.
pub open spec fn history_output(report: JsonView, commits: nat, result_truncated: bool) -> OutputView {
    OutputView {
        content: json::obj2(
            "privacy"@,
            JsonView::Text("author names are retained; author email addresses are omitted"@),
            "result"@,
            report,
        ),
        summary: "read "@ + text::decimal(commits) + " commit(s) from HEAD"@,
        observed_effects: seq!["git.read:history"@],
        succeeded: true,
        truncated: result_truncated,
    }
}

/// Reads bounded commit history rooted at `HEAD`.
pub struct GitHistoryTool;

/// What `git_history` presents to a model.
pub open spec fn git_history_descriptor() -> DescriptorView {
    descriptor::descriptor_spec(
        "git_history"@,
        "Read bounded newest-first commit history from HEAD without executing Git, contacting remotes, resolving credentials, or exposing author email addresses."@,
        git_history_schema(),
        Capability::FileRead,
    )
}

impl GitHistoryTool {
    /// What the tool presents to a model.
    pub fn descriptor(&self) -> (r: ToolDescriptor)
        ensures
            r.deep_view() == git_history_descriptor(),
    {
        let mut properties = JsonMap::new();
        properties.insert(
            "max_commits",
            schema::defaulted_json(
                schema::described_json(
                    schema::count_json(),
                    "Maximum newest-first commits to return.",
                ),
                Json::count(DEFAULT_HISTORY_COMMITS),
            ),
        );
        descriptor::descriptor(
            "git_history",
            "Read bounded newest-first commit history from HEAD without executing Git, contacting remotes, resolving credentials, or exposing author email addresses.",
            schema::document_json(
                schema::closed_object_json(properties, &schema::no_names()),
                "GitHistoryInput",
            ),
            Capability::FileRead,
        )
    }

    /// Checks the request and requires the authority to read the repository.
    pub fn prepare(&self, context: &ToolContext, request: &GitHistoryInput) -> (r: Result<
        (),
        ToolError,
    >)
        ensures
            outcome::of(r) == history_prepared(context.deep_view().policy, request.max_commits),
    {
        if !(1 <= request.max_commits && request.max_commits <= MAX_HISTORY_COMMITS) {
            return Err(
                ToolError::InvalidRange(
                    text::concat2(
                        "max_commits must be between 1 and ",
                        text::decimal_of(MAX_HISTORY_COMMITS).as_str(),
                    ),
                ),
            );
        }
        require_grant(context, "git_history")
    }

    /// What the history returns.
    pub fn execute(&self, history: HistoryReport) -> (r: ToolOutput)
        ensures
            r.deep_view() == history_output(
                history.report.deep_view(),
                history.commits as nat,
                history.result_truncated,
            ),
    {
        let summary = text::concat3(
            "read ",
            text::decimal_of(history.commits).as_str(),
            " commit(s) from HEAD",
        );
        ToolOutput {
            content: Json::object2(
                "privacy",
                Json::text("author names are retained; author email addresses are omitted"),
                "result",
                history.report,
            ),
            summary,
            observed_effects: single("git.read:history"),
            succeeded: true,
            truncated: history.result_truncated,
        }
    }
}

} // verus!
