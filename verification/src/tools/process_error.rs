//! Why a process backend could not be set up or did not run a program.

use crate::text;
use vstd::prelude::*;

verus! {

/// Process backend initialization or execution failure.
#[derive(Debug)]
#[allow(inconsistent_fields)]
pub enum ProcessBackendError {
    Disabled,
    InvalidConfiguration(String),
    ProfileEncoding(String),
    RuntimeNotFound { executable: String },
    RuntimeCanonicalization { path: String, message: String },
    WorkspaceCanonicalization { path: String, message: String },
    RuntimeInsideWorkspace { runtime: String, workspace: String },
    RuntimeDigest { path: String, message: String },
    RuntimeMismatch { path: String, expected: String },
    ImageUnavailable { image: String },
    InvalidImageIdentity(String),
    NonUtf8Workspace(String),
    UnsafeMountPath(String),
    Spawn { program: String, message: String },
    Wait { program: String, message: String },
    Pipe { program: String, stream: String },
    Timeout { program: String, seconds: u64 },
    Cancelled { program: String },
    OutputRead { stream: String, message: String },
    OutputTask { stream: String, message: String },
    ContainerCleanup { container: String },
    CleanupAfterFailure { primary: String, cleanup: String },
}

/// What a [`ProcessBackendError`] says.
#[allow(inconsistent_fields)]
pub enum ProcessFault {
    Disabled,
    InvalidConfiguration(Seq<char>),
    ProfileEncoding(Seq<char>),
    RuntimeNotFound { executable: Seq<char> },
    RuntimeCanonicalization { path: Seq<char>, message: Seq<char> },
    WorkspaceCanonicalization { path: Seq<char>, message: Seq<char> },
    RuntimeInsideWorkspace { runtime: Seq<char>, workspace: Seq<char> },
    RuntimeDigest { path: Seq<char>, message: Seq<char> },
    RuntimeMismatch { path: Seq<char>, expected: Seq<char> },
    ImageUnavailable { image: Seq<char> },
    InvalidImageIdentity(Seq<char>),
    NonUtf8Workspace(Seq<char>),
    UnsafeMountPath(Seq<char>),
    Spawn { program: Seq<char>, message: Seq<char> },
    Wait { program: Seq<char>, message: Seq<char> },
    Pipe { program: Seq<char>, stream: Seq<char> },
    Timeout { program: Seq<char>, seconds: u64 },
    Cancelled { program: Seq<char> },
    OutputRead { stream: Seq<char>, message: Seq<char> },
    OutputTask { stream: Seq<char>, message: Seq<char> },
    ContainerCleanup { container: Seq<char> },
    CleanupAfterFailure { primary: Seq<char>, cleanup: Seq<char> },
}

impl DeepView for ProcessBackendError {
    type V = ProcessFault;

    open spec fn deep_view(&self) -> ProcessFault {
        match self {
            ProcessBackendError::Disabled => ProcessFault::Disabled,
            ProcessBackendError::InvalidConfiguration(m) => ProcessFault::InvalidConfiguration(m@),
            ProcessBackendError::ProfileEncoding(m) => ProcessFault::ProfileEncoding(m@),
            ProcessBackendError::RuntimeNotFound { executable } => ProcessFault::RuntimeNotFound {
                executable: executable@,
            },
            ProcessBackendError::RuntimeCanonicalization { path, message } =>
            ProcessFault::RuntimeCanonicalization { path: path@, message: message@ },
            ProcessBackendError::WorkspaceCanonicalization { path, message } =>
            ProcessFault::WorkspaceCanonicalization { path: path@, message: message@ },
            ProcessBackendError::RuntimeInsideWorkspace { runtime, workspace } =>
            ProcessFault::RuntimeInsideWorkspace { runtime: runtime@, workspace: workspace@ },
            ProcessBackendError::RuntimeDigest { path, message } => ProcessFault::RuntimeDigest {
                path: path@,
                message: message@,
            },
            ProcessBackendError::RuntimeMismatch { path, expected } =>
            ProcessFault::RuntimeMismatch { path: path@, expected: expected@ },
            ProcessBackendError::ImageUnavailable { image } => ProcessFault::ImageUnavailable {
                image: image@,
            },
            ProcessBackendError::InvalidImageIdentity(m) => ProcessFault::InvalidImageIdentity(m@),
            ProcessBackendError::NonUtf8Workspace(m) => ProcessFault::NonUtf8Workspace(m@),
            ProcessBackendError::UnsafeMountPath(m) => ProcessFault::UnsafeMountPath(m@),
            ProcessBackendError::Spawn { program, message } => ProcessFault::Spawn {
                program: program@,
                message: message@,
            },
            ProcessBackendError::Wait { program, message } => ProcessFault::Wait {
                program: program@,
                message: message@,
            },
            ProcessBackendError::Pipe { program, stream } => ProcessFault::Pipe {
                program: program@,
                stream: stream@,
            },
            ProcessBackendError::Timeout { program, seconds } => ProcessFault::Timeout {
                program: program@,
                seconds: *seconds,
            },
            ProcessBackendError::Cancelled { program } => ProcessFault::Cancelled {
                program: program@,
            },
            ProcessBackendError::OutputRead { stream, message } => ProcessFault::OutputRead {
                stream: stream@,
                message: message@,
            },
            ProcessBackendError::OutputTask { stream, message } => ProcessFault::OutputTask {
                stream: stream@,
                message: message@,
            },
            ProcessBackendError::ContainerCleanup { container } => ProcessFault::ContainerCleanup {
                container: container@,
            },
            ProcessBackendError::CleanupAfterFailure { primary, cleanup } =>
            ProcessFault::CleanupAfterFailure { primary: primary@, cleanup: cleanup@ },
        }
    }
}

/// The words of an error.
pub open spec fn process_message(f: ProcessFault) -> Seq<char> {
    match f {
        ProcessFault::Disabled => "process execution is disabled for this run"@,
        ProcessFault::InvalidConfiguration(m) => "invalid process backend configuration: "@ + m,
        ProcessFault::ProfileEncoding(m) => "could not encode the sandbox profile: "@ + m,
        ProcessFault::RuntimeNotFound { executable } => "OCI runtime executable "@
            + text::debug_view(executable) + " was not found on PATH"@,
        ProcessFault::RuntimeCanonicalization { path, message } => "OCI runtime path "@
            + text::debug_view(path) + " could not be resolved: "@ + message,
        ProcessFault::WorkspaceCanonicalization { path, message } => "workspace path "@
            + text::debug_view(path) + " could not be resolved: "@ + message,
        ProcessFault::RuntimeInsideWorkspace { runtime, workspace } => "OCI runtime "@
            + text::debug_view(runtime) + " is inside workspace "@ + text::debug_view(workspace),
        ProcessFault::RuntimeDigest { path, message } => "OCI runtime "@ + text::debug_view(path)
            + " could not be fingerprinted: "@ + message,
        ProcessFault::RuntimeMismatch { path, expected } => "OCI runtime "@ + text::debug_view(path)
            + " did not identify itself as "@ + expected,
        ProcessFault::ImageUnavailable { image } => "OCI image "@ + text::debug_view(image)
            + " is not available locally; Pactrail never pulls sandbox images implicitly"@,
        ProcessFault::InvalidImageIdentity(m) =>
        "OCI runtime returned invalid immutable image identity "@ + text::debug_view(m),
        ProcessFault::NonUtf8Workspace(m) =>
        "workspace path is not valid UTF-8 and cannot be mounted safely: "@ + text::debug_view(m),
        ProcessFault::UnsafeMountPath(m) =>
        "workspace mount path contains an unsafe control character: "@ + text::debug_view(m),
        ProcessFault::Spawn { program, message } => "process "@ + text::debug_view(program)
            + " could not be started: "@ + message,
        ProcessFault::Wait { program, message } => "process "@ + text::debug_view(program)
            + " could not be waited on: "@ + message,
        ProcessFault::Pipe { program, stream } => "process "@ + text::debug_view(program)
            + " did not expose a "@ + stream + " pipe"@,
        ProcessFault::Timeout { program, seconds } => "process "@ + text::debug_view(program)
            + " timed out after "@ + text::decimal(seconds as nat) + " seconds"@,
        ProcessFault::Cancelled { program } => "process "@ + text::debug_view(program)
            + " was cancelled"@,
        ProcessFault::OutputRead { stream, message } => stream + " output reader failed: "@
            + message,
        ProcessFault::OutputTask { stream, message } => stream + " output task failed: "@ + message,
        ProcessFault::ContainerCleanup { container } => "container "@ + text::debug_view(container)
            + " still existed after forced cleanup"@,
        ProcessFault::CleanupAfterFailure { primary, cleanup } => "process failed ("@ + primary
            + ") and cleanup could not be proven ("@ + cleanup + ")"@,
    }
}

impl ProcessBackendError {
    /// The error in words.
    pub fn message(&self) -> (r: String)
        ensures
            r@ == process_message(self.deep_view()),
    {
        match self {
            ProcessBackendError::Disabled =>
            "process execution is disabled for this run".to_owned(),
            ProcessBackendError::InvalidConfiguration(m) => text::concat2(
                "invalid process backend configuration: ",
                m.as_str(),
            ),
            ProcessBackendError::ProfileEncoding(m) => text::concat2(
                "could not encode the sandbox profile: ",
                m.as_str(),
            ),
            ProcessBackendError::RuntimeNotFound { executable } => text::concat3(
                "OCI runtime executable ",
                text::debug_text(executable.as_str()).as_str(),
                " was not found on PATH",
            ),
            ProcessBackendError::RuntimeCanonicalization { path, message } => text::concat4(
                "OCI runtime path ",
                text::debug_text(path.as_str()).as_str(),
                " could not be resolved: ",
                message.as_str(),
            ),
            ProcessBackendError::WorkspaceCanonicalization { path, message } => text::concat4(
                "workspace path ",
                text::debug_text(path.as_str()).as_str(),
                " could not be resolved: ",
                message.as_str(),
            ),
            ProcessBackendError::RuntimeInsideWorkspace { runtime, workspace } => text::concat4(
                "OCI runtime ",
                text::debug_text(runtime.as_str()).as_str(),
                " is inside workspace ",
                text::debug_text(workspace.as_str()).as_str(),
            ),
            ProcessBackendError::RuntimeDigest { path, message } => text::concat4(
                "OCI runtime ",
                text::debug_text(path.as_str()).as_str(),
                " could not be fingerprinted: ",
                message.as_str(),
            ),
            ProcessBackendError::RuntimeMismatch { path, expected } => text::concat4(
                "OCI runtime ",
                text::debug_text(path.as_str()).as_str(),
                " did not identify itself as ",
                expected.as_str(),
            ),
            ProcessBackendError::ImageUnavailable { image } => text::concat3(
                "OCI image ",
                text::debug_text(image.as_str()).as_str(),
                " is not available locally; Pactrail never pulls sandbox images implicitly",
            ),
            ProcessBackendError::InvalidImageIdentity(m) => text::concat2(
                "OCI runtime returned invalid immutable image identity ",
                text::debug_text(m.as_str()).as_str(),
            ),
            ProcessBackendError::NonUtf8Workspace(m) => text::concat2(
                "workspace path is not valid UTF-8 and cannot be mounted safely: ",
                text::debug_text(m.as_str()).as_str(),
            ),
            ProcessBackendError::UnsafeMountPath(m) => text::concat2(
                "workspace mount path contains an unsafe control character: ",
                text::debug_text(m.as_str()).as_str(),
            ),
            ProcessBackendError::Spawn { program, message } => text::concat4(
                "process ",
                text::debug_text(program.as_str()).as_str(),
                " could not be started: ",
                message.as_str(),
            ),
            ProcessBackendError::Wait { program, message } => text::concat4(
                "process ",
                text::debug_text(program.as_str()).as_str(),
                " could not be waited on: ",
                message.as_str(),
            ),
            ProcessBackendError::Pipe { program, stream } => text::concat5(
                "process ",
                text::debug_text(program.as_str()).as_str(),
                " did not expose a ",
                stream.as_str(),
                " pipe",
            ),
            ProcessBackendError::Timeout { program, seconds } => text::concat5(
                "process ",
                text::debug_text(program.as_str()).as_str(),
                " timed out after ",
                text::decimal_text(*seconds).as_str(),
                " seconds",
            ),
            ProcessBackendError::Cancelled { program } => text::concat3(
                "process ",
                text::debug_text(program.as_str()).as_str(),
                " was cancelled",
            ),
            ProcessBackendError::OutputRead { stream, message } => text::concat3(
                stream.as_str(),
                " output reader failed: ",
                message.as_str(),
            ),
            ProcessBackendError::OutputTask { stream, message } => text::concat3(
                stream.as_str(),
                " output task failed: ",
                message.as_str(),
            ),
            ProcessBackendError::ContainerCleanup { container } => text::concat3(
                "container ",
                text::debug_text(container.as_str()).as_str(),
                " still existed after forced cleanup",
            ),
            ProcessBackendError::CleanupAfterFailure { primary, cleanup } => text::concat5(
                "process failed (",
                primary.as_str(),
                ") and cleanup could not be proven (",
                cleanup.as_str(),
                ")",
            ),
        }
    }
}

} // verus!
