//! Why a tool refused or failed.

use crate::text;
use crate::tools::descriptor::Capability;
use crate::tools::process_error;
use crate::tools::process_error::{ProcessBackendError, ProcessFault};
use crate::workspace::error;
use crate::workspace::error::{TransactionError, TransactionFault};
use vstd::prelude::*;

verus! {

/// Tool registration, validation, policy, or execution failure.
#[derive(Debug)]
#[allow(inconsistent_fields)]
pub enum ToolError {
    DuplicateTool(String),
    UnknownTool(String),
    InvalidInput { tool: String, message: String },
    Serialization(String),
    Denied(String),
    ApprovalRequired { capability: Capability, resource: String, reason: String },
    PolicyAuditUnavailable,
    Workspace(TransactionError),
    RepositoryGraph(String),
    Git(String),
    Io { path: String, message: String },
    Spawn { program: String, message: String },
    Timeout { program: String, seconds: u64 },
    Join(String),
    ProcessBackend(ProcessBackendError),
    NonUtf8(String),
    InvalidRange(String),
    MemoryUnavailable,
    Memory(String),
    ReplacementCount { expected: usize, actual: usize },
    InvalidEditCount { index: usize, expected: usize, actual: usize },
    InvalidPatch(String),
}

/// What a [`ToolError`] says.
#[allow(inconsistent_fields)]
pub enum ToolFault {
    DuplicateTool(Seq<char>),
    UnknownTool(Seq<char>),
    InvalidInput { tool: Seq<char>, message: Seq<char> },
    Serialization(Seq<char>),
    Denied(Seq<char>),
    ApprovalRequired { capability: Capability, resource: Seq<char>, reason: Seq<char> },
    PolicyAuditUnavailable,
    Workspace(TransactionFault),
    RepositoryGraph(Seq<char>),
    Git(Seq<char>),
    Io { path: Seq<char>, message: Seq<char> },
    Spawn { program: Seq<char>, message: Seq<char> },
    Timeout { program: Seq<char>, seconds: u64 },
    Join(Seq<char>),
    ProcessBackend(ProcessFault),
    NonUtf8(Seq<char>),
    InvalidRange(Seq<char>),
    MemoryUnavailable,
    Memory(Seq<char>),
    ReplacementCount { expected: nat, actual: nat },
    InvalidEditCount { index: nat, expected: nat, actual: nat },
    InvalidPatch(Seq<char>),
}

impl DeepView for ToolError {
    type V = ToolFault;

    open spec fn deep_view(&self) -> ToolFault {
        match self {
            ToolError::DuplicateTool(n) => ToolFault::DuplicateTool(n@),
            ToolError::UnknownTool(n) => ToolFault::UnknownTool(n@),
            ToolError::InvalidInput { tool, message } => ToolFault::InvalidInput {
                tool: tool@,
                message: message@,
            },
            ToolError::Serialization(m) => ToolFault::Serialization(m@),
            ToolError::Denied(m) => ToolFault::Denied(m@),
            ToolError::ApprovalRequired { capability, resource, reason } =>
            ToolFault::ApprovalRequired {
                capability: *capability,
                resource: resource@,
                reason: reason@,
            },
            ToolError::PolicyAuditUnavailable => ToolFault::PolicyAuditUnavailable,
            ToolError::Workspace(e) => ToolFault::Workspace(e.deep_view()),
            ToolError::RepositoryGraph(m) => ToolFault::RepositoryGraph(m@),
            ToolError::Git(m) => ToolFault::Git(m@),
            ToolError::Io { path, message } => ToolFault::Io { path: path@, message: message@ },
            ToolError::Spawn { program, message } => ToolFault::Spawn {
                program: program@,
                message: message@,
            },
            ToolError::Timeout { program, seconds } => ToolFault::Timeout {
                program: program@,
                seconds: *seconds,
            },
            ToolError::Join(m) => ToolFault::Join(m@),
            ToolError::ProcessBackend(e) => ToolFault::ProcessBackend(e.deep_view()),
            ToolError::NonUtf8(p) => ToolFault::NonUtf8(p@),
            ToolError::InvalidRange(m) => ToolFault::InvalidRange(m@),
            ToolError::MemoryUnavailable => ToolFault::MemoryUnavailable,
            ToolError::Memory(m) => ToolFault::Memory(m@),
            ToolError::ReplacementCount { expected, actual } => ToolFault::ReplacementCount {
                expected: *expected as nat,
                actual: *actual as nat,
            },
            ToolError::InvalidEditCount { index, expected, actual } =>
            ToolFault::InvalidEditCount {
                index: *index as nat,
                expected: *expected as nat,
                actual: *actual as nat,
            },
            ToolError::InvalidPatch(m) => ToolFault::InvalidPatch(m@),
        }
    }
}

/// The words of an error.
pub open spec fn tool_message(f: ToolFault) -> Seq<char> {
    match f {
        ToolFault::DuplicateTool(n) => "tool "@ + text::debug_view(n) + " is already registered"@,
        ToolFault::UnknownTool(n) => "unknown tool "@ + text::debug_view(n),
        ToolFault::InvalidInput { tool, message } => "invalid input for "@ + tool + ": "@ + message,
        ToolFault::Serialization(m) => "tool output serialization failed: "@ + m,
        ToolFault::Denied(m) => "tool effect was denied: "@ + m,
        ToolFault::ApprovalRequired { capability, resource, reason } => capability.name_spec()
            + " on "@ + text::debug_view(resource) + " requires approval: "@ + reason,
        ToolFault::PolicyAuditUnavailable => "policy audit buffer is unavailable"@,
        ToolFault::Workspace(e) => "workspace operation failed: "@ + error::transaction_message(e),
        ToolFault::RepositoryGraph(m) => "repository evidence graph failed: "@ + m,
        ToolFault::Git(m) => "Git inspection failed: "@ + m,
        ToolFault::Io { path, message } => "tool I/O failed at "@ + path + ": "@ + message,
        ToolFault::Spawn { program, message } => "process "@ + text::debug_view(program)
            + " could not be started: "@ + message,
        ToolFault::Timeout { program, seconds } => "process "@ + text::debug_view(program)
            + " timed out after "@ + text::decimal(seconds as nat) + " seconds"@,
        ToolFault::Join(m) => "process output task failed: "@ + m,
        ToolFault::ProcessBackend(e) => "process backend failed: "@
            + process_error::process_message(e),
        ToolFault::NonUtf8(p) => "file is not valid UTF-8: "@ + p,
        ToolFault::InvalidRange(m) => "requested range is invalid: "@ + m,
        ToolFault::MemoryUnavailable => "workspace memory is unavailable for this run"@,
        ToolFault::Memory(m) => "workspace memory failed: "@ + m,
        ToolFault::ReplacementCount { expected, actual } => "replacement count was "@
            + text::decimal(actual) + ", expected "@ + text::decimal(expected),
        ToolFault::InvalidEditCount { index, expected, actual } => "edit "@ + text::decimal(index)
            + " replacement count was "@ + text::decimal(actual) + ", expected "@
            + text::decimal(expected),
        ToolFault::InvalidPatch(m) => "patch is invalid: "@ + m,
    }
}

impl ToolError {
    /// The error in words.
    pub fn message(&self) -> (r: String)
        ensures
            r@ == tool_message(self.deep_view()),
    {
        match self {
            ToolError::DuplicateTool(n) => text::concat3(
                "tool ",
                text::debug_text(n.as_str()).as_str(),
                " is already registered",
            ),
            ToolError::UnknownTool(n) => text::concat2(
                "unknown tool ",
                text::debug_text(n.as_str()).as_str(),
            ),
            ToolError::InvalidInput { tool, message } => text::concat4(
                "invalid input for ",
                tool.as_str(),
                ": ",
                message.as_str(),
            ),
            ToolError::Serialization(m) => text::concat2(
                "tool output serialization failed: ",
                m.as_str(),
            ),
            ToolError::Denied(m) => text::concat2("tool effect was denied: ", m.as_str()),
            ToolError::ApprovalRequired { capability, resource, reason } => text::concat5(
                capability.name(),
                " on ",
                text::debug_text(resource.as_str()).as_str(),
                " requires approval: ",
                reason.as_str(),
            ),
            ToolError::PolicyAuditUnavailable => "policy audit buffer is unavailable".to_owned(),
            ToolError::Workspace(e) => text::concat2(
                "workspace operation failed: ",
                e.message().as_str(),
            ),
            ToolError::RepositoryGraph(m) => text::concat2(
                "repository evidence graph failed: ",
                m.as_str(),
            ),
            ToolError::Git(m) => text::concat2("Git inspection failed: ", m.as_str()),
            ToolError::Io { path, message } => text::concat4(
                "tool I/O failed at ",
                path.as_str(),
                ": ",
                message.as_str(),
            ),
            ToolError::Spawn { program, message } => text::concat4(
                "process ",
                text::debug_text(program.as_str()).as_str(),
                " could not be started: ",
                message.as_str(),
            ),
            ToolError::Timeout { program, seconds } => text::concat5(
                "process ",
                text::debug_text(program.as_str()).as_str(),
                " timed out after ",
                text::decimal_text(*seconds).as_str(),
                " seconds",
            ),
            ToolError::Join(m) => text::concat2("process output task failed: ", m.as_str()),
            ToolError::ProcessBackend(e) => text::concat2(
                "process backend failed: ",
                e.message().as_str(),
            ),
            ToolError::NonUtf8(p) => text::concat2("file is not valid UTF-8: ", p.as_str()),
            ToolError::InvalidRange(m) => text::concat2("requested range is invalid: ", m.as_str()),
            ToolError::MemoryUnavailable =>
            "workspace memory is unavailable for this run".to_owned(),
            ToolError::Memory(m) => text::concat2("workspace memory failed: ", m.as_str()),
            ToolError::ReplacementCount { expected, actual } => text::concat4(
                "replacement count was ",
                text::decimal_of(*actual).as_str(),
                ", expected ",
                text::decimal_of(*expected).as_str(),
            ),
            ToolError::InvalidEditCount { index, expected, actual } => {
                let first = text::concat4(
                    "edit ",
                    text::decimal_of(*index).as_str(),
                    " replacement count was ",
                    text::decimal_of(*actual).as_str(),
                );
                text::concat3(
                    first.as_str(),
                    ", expected ",
                    text::decimal_of(*expected).as_str(),
                )
            },
            ToolError::InvalidPatch(m) => text::concat2("patch is invalid: ", m.as_str()),
        }
    }
}

} // verus!
