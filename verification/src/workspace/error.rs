//! What can go wrong with a transaction.

use crate::text;
use crate::workspace::path;
use crate::workspace::path::{PathError, PathFault};
use vstd::prelude::*;

verus! {

/// Failure while creating, mutating, diffing, or applying a transaction.
#[derive(Debug)]
#[allow(inconsistent_fields)]
pub enum TransactionError {
    /// Reading or writing failed; the operating system's message tells why.
    Io { path: String, message: String },
    Walk(String),
    Path(PathError),
    EscapedRoot(String),
    NonUnicodePath(String),
    SymbolicLink(String),
    UnsupportedFile(String),
    NotDirectory(String),
    DestinationNotEmpty(String),
    SourceChangedDuringSnapshot { expected: String, actual: String },
    SnapshotCopyMismatch { expected: String, actual: String },
    EmptyWriteScope,
    WriteOutsideScope(String),
    UnsupportedSchema(u32),
    Serialization(String),
    ArtifactTooLarge { path: String, limit: u64 },
    Invariant(String),
    BaselineDrift {
        path: String,
        expected: Option<String>,
        actual: Option<String>,
        expected_mode: Option<u32>,
        actual_mode: Option<u32>,
    },
    CandidateDrift {
        path: String,
        expected: String,
        actual: String,
        expected_mode: Option<u32>,
        actual_mode: Option<u32>,
    },
    CandidateSetDrift,
    RollbackFailed { apply: Box<TransactionError>, rollback: Box<TransactionError> },
}

/// What a [`TransactionError`] says.
#[allow(inconsistent_fields)]
pub enum TransactionFault {
    Io { path: Seq<char>, message: Seq<char> },
    Walk(Seq<char>),
    Path(PathFault),
    EscapedRoot(Seq<char>),
    NonUnicodePath(Seq<char>),
    SymbolicLink(Seq<char>),
    UnsupportedFile(Seq<char>),
    NotDirectory(Seq<char>),
    DestinationNotEmpty(Seq<char>),
    SourceChangedDuringSnapshot { expected: Seq<char>, actual: Seq<char> },
    SnapshotCopyMismatch { expected: Seq<char>, actual: Seq<char> },
    EmptyWriteScope,
    WriteOutsideScope(Seq<char>),
    UnsupportedSchema(u32),
    Serialization(Seq<char>),
    ArtifactTooLarge { path: Seq<char>, limit: u64 },
    Invariant(Seq<char>),
    BaselineDrift {
        path: Seq<char>,
        expected: Option<Seq<char>>,
        actual: Option<Seq<char>>,
        expected_mode: Option<u32>,
        actual_mode: Option<u32>,
    },
    CandidateDrift {
        path: Seq<char>,
        expected: Seq<char>,
        actual: Seq<char>,
        expected_mode: Option<u32>,
        actual_mode: Option<u32>,
    },
    CandidateSetDrift,
    RollbackFailed { apply: Box<TransactionFault>, rollback: Box<TransactionFault> },
}

/// What an error says.
pub open spec fn fault_of(e: TransactionError) -> TransactionFault
    decreases e,
{
    match e {
        TransactionError::Io { path, message } => TransactionFault::Io {
            path: path@,
            message: message@,
        },
        TransactionError::Walk(m) => TransactionFault::Walk(m@),
        TransactionError::Path(p) => TransactionFault::Path(p.deep_view()),
        TransactionError::EscapedRoot(p) => TransactionFault::EscapedRoot(p@),
        TransactionError::NonUnicodePath(p) => TransactionFault::NonUnicodePath(p@),
        TransactionError::SymbolicLink(p) => TransactionFault::SymbolicLink(p@),
        TransactionError::UnsupportedFile(p) => TransactionFault::UnsupportedFile(p@),
        TransactionError::NotDirectory(p) => TransactionFault::NotDirectory(p@),
        TransactionError::DestinationNotEmpty(p) => TransactionFault::DestinationNotEmpty(p@),
        TransactionError::SourceChangedDuringSnapshot {
            expected,
            actual,
        } => TransactionFault::SourceChangedDuringSnapshot {
            expected: expected@,
            actual: actual@,
        },
        TransactionError::SnapshotCopyMismatch {
            expected,
            actual,
        } => TransactionFault::SnapshotCopyMismatch { expected: expected@, actual: actual@ },
        TransactionError::EmptyWriteScope => TransactionFault::EmptyWriteScope,
        TransactionError::WriteOutsideScope(p) => TransactionFault::WriteOutsideScope(p@),
        TransactionError::UnsupportedSchema(n) => TransactionFault::UnsupportedSchema(n),
        TransactionError::Serialization(m) => TransactionFault::Serialization(m@),
        TransactionError::ArtifactTooLarge { path, limit } => TransactionFault::ArtifactTooLarge {
            path: path@,
            limit,
        },
        TransactionError::Invariant(m) => TransactionFault::Invariant(m@),
        TransactionError::BaselineDrift {
            path,
            expected,
            actual,
            expected_mode,
            actual_mode,
        } => TransactionFault::BaselineDrift {
            path: path@,
            expected: expected.deep_view(),
            actual: actual.deep_view(),
            expected_mode,
            actual_mode,
        },
        TransactionError::CandidateDrift {
            path,
            expected,
            actual,
            expected_mode,
            actual_mode,
        } => TransactionFault::CandidateDrift {
            path: path@,
            expected: expected@,
            actual: actual@,
            expected_mode,
            actual_mode,
        },
        TransactionError::CandidateSetDrift => TransactionFault::CandidateSetDrift,
        TransactionError::RollbackFailed { apply, rollback } => TransactionFault::RollbackFailed {
            apply: Box::new(fault_of(*apply)),
            rollback: Box::new(fault_of(*rollback)),
        },
    }
}

impl DeepView for TransactionError {
    type V = TransactionFault;

    open spec fn deep_view(&self) -> TransactionFault {
        fault_of(*self)
    }
}

/// The words of an error.
pub open spec fn transaction_message(f: TransactionFault) -> Seq<char>
    decreases f,
{
    match f {
        TransactionFault::Io { path, message } => "workspace I/O failed at "@ + path + ": "@
            + message,
        TransactionFault::Walk(m) => "workspace traversal failed: "@ + m,
        TransactionFault::Path(p) => "unsafe workspace path: "@ + path::path_message(p),
        TransactionFault::EscapedRoot(p) => "path escaped workspace root: "@ + p,
        TransactionFault::NonUnicodePath(p) => "non-Unicode workspace path is unsupported: "@ + p,
        TransactionFault::SymbolicLink(p) =>
        "symbolic links are conservatively rejected in v1 transactions: "@ + p,
        TransactionFault::UnsupportedFile(p) => "unsupported special file: "@ + p,
        TransactionFault::NotDirectory(p) => "workspace root is not a directory: "@ + p,
        TransactionFault::DestinationNotEmpty(p) => "transaction destination is not empty: "@ + p,
        TransactionFault::SourceChangedDuringSnapshot { expected, actual } =>
        "source changed while its transaction snapshot was being created (expected manifest "@
            + expected + ", actual "@ + actual + ")"@,
        TransactionFault::SnapshotCopyMismatch { expected, actual } =>
        "transaction copy does not match its captured manifest (expected "@ + expected
            + ", actual "@ + actual + ")"@,
        TransactionFault::EmptyWriteScope => "at least one write scope is required"@,
        TransactionFault::WriteOutsideScope(p) => "write is outside the task contract scope: "@ + p,
        TransactionFault::UnsupportedSchema(n) => "transaction metadata schema "@ + text::decimal(
            n as nat,
        ) + " is unsupported"@,
        TransactionFault::Serialization(m) => "transaction metadata is invalid: "@ + m,
        TransactionFault::ArtifactTooLarge { path, limit } => "transaction artifact "@ + path
            + " exceeds the "@ + text::decimal(limit as nat) + "-byte safety limit"@,
        TransactionFault::Invariant(m) => "transaction invariant failed: "@ + m,
        TransactionFault::BaselineDrift { path, expected, actual, expected_mode, actual_mode } =>
        "source file "@ + path + " changed after the run started "@ + drift_message(
            text::debug_option(expected),
            text::debug_option(actual),
            expected_mode,
            actual_mode,
        ),
        TransactionFault::CandidateDrift { path, expected, actual, expected_mode, actual_mode } =>
        "candidate file "@ + path + " changed after receipt construction "@ + drift_message(
            expected,
            actual,
            expected_mode,
            actual_mode,
        ),
        TransactionFault::CandidateSetDrift =>
        "transaction candidate no longer matches the receipt-bound change set"@,
        TransactionFault::RollbackFailed { apply, rollback } =>
        "apply failed and rollback also failed; apply: "@ + transaction_message(*apply)
            + "; rollback: "@ + transaction_message(*rollback),
    }
}

/// What was expected of a file and what it is, in words.
pub open spec fn drift_message(
    expected: Seq<char>,
    actual: Seq<char>,
    expected_mode: Option<u32>,
    actual_mode: Option<u32>,
) -> Seq<char> {
    "(expected digest "@ + expected + " mode "@ + text::debug_number(expected_mode)
        + ", actual digest "@ + actual + " mode "@ + text::debug_number(actual_mode) + ")"@
}

fn drift_text(
    expected: &str,
    actual: &str,
    expected_mode: Option<u32>,
    actual_mode: Option<u32>,
) -> (r: String)
    ensures
        r@ == drift_message(expected@, actual@, expected_mode, actual_mode),
{
    let first = text::concat4(
        "(expected digest ",
        expected,
        " mode ",
        text::debug_number_text(expected_mode).as_str(),
    );
    let second = text::concat5(
        first.as_str(),
        ", actual digest ",
        actual,
        " mode ",
        text::debug_number_text(actual_mode).as_str(),
    );
    text::concat2(second.as_str(), ")")
}

impl TransactionError {
    /// The error in words.
    pub fn message(&self) -> (r: String)
        ensures
            r@ == transaction_message(self.deep_view()),
        decreases self,
    {
        match self {
            TransactionError::Io { path, message } => text::concat4(
                "workspace I/O failed at ",
                path.as_str(),
                ": ",
                message.as_str(),
            ),
            TransactionError::Walk(m) => text::concat2("workspace traversal failed: ", m.as_str()),
            TransactionError::Path(p) => text::concat2(
                "unsafe workspace path: ",
                p.message().as_str(),
            ),
            TransactionError::EscapedRoot(p) => text::concat2(
                "path escaped workspace root: ",
                p.as_str(),
            ),
            TransactionError::NonUnicodePath(p) => text::concat2(
                "non-Unicode workspace path is unsupported: ",
                p.as_str(),
            ),
            TransactionError::SymbolicLink(p) => text::concat2(
                "symbolic links are conservatively rejected in v1 transactions: ",
                p.as_str(),
            ),
            TransactionError::UnsupportedFile(p) => text::concat2(
                "unsupported special file: ",
                p.as_str(),
            ),
            TransactionError::NotDirectory(p) => text::concat2(
                "workspace root is not a directory: ",
                p.as_str(),
            ),
            TransactionError::DestinationNotEmpty(p) => text::concat2(
                "transaction destination is not empty: ",
                p.as_str(),
            ),
            TransactionError::SourceChangedDuringSnapshot { expected, actual } => text::concat5(
                "source changed while its transaction snapshot was being created (expected manifest ",
                expected.as_str(),
                ", actual ",
                actual.as_str(),
                ")",
            ),
            TransactionError::SnapshotCopyMismatch { expected, actual } => text::concat5(
                "transaction copy does not match its captured manifest (expected ",
                expected.as_str(),
                ", actual ",
                actual.as_str(),
                ")",
            ),
            TransactionError::EmptyWriteScope => "at least one write scope is required".to_owned(),
            TransactionError::WriteOutsideScope(p) => text::concat2(
                "write is outside the task contract scope: ",
                p.as_str(),
            ),
            TransactionError::UnsupportedSchema(n) => text::concat3(
                "transaction metadata schema ",
                text::decimal_text(*n as u64).as_str(),
                " is unsupported",
            ),
            TransactionError::Serialization(m) => text::concat2(
                "transaction metadata is invalid: ",
                m.as_str(),
            ),
            TransactionError::ArtifactTooLarge { path, limit } => text::concat5(
                "transaction artifact ",
                path.as_str(),
                " exceeds the ",
                text::decimal_text(*limit).as_str(),
                "-byte safety limit",
            ),
            TransactionError::Invariant(m) => text::concat2(
                "transaction invariant failed: ",
                m.as_str(),
            ),
            TransactionError::BaselineDrift {
                path,
                expected,
                actual,
                expected_mode,
                actual_mode,
            } => text::concat4(
                "source file ",
                path.as_str(),
                " changed after the run started ",
                drift_text(
                    text::debug_option_text(expected).as_str(),
                    text::debug_option_text(actual).as_str(),
                    *expected_mode,
                    *actual_mode,
                ).as_str(),
            ),
            TransactionError::CandidateDrift {
                path,
                expected,
                actual,
                expected_mode,
                actual_mode,
            } => text::concat4(
                "candidate file ",
                path.as_str(),
                " changed after receipt construction ",
                drift_text(expected.as_str(), actual.as_str(), *expected_mode, *actual_mode).as_str(),
            ),
            TransactionError::CandidateSetDrift =>
            "transaction candidate no longer matches the receipt-bound change set".to_owned(),
            TransactionError::RollbackFailed { apply, rollback } => text::concat4(
                "apply failed and rollback also failed; apply: ",
                apply.message().as_str(),
                "; rollback: ",
                rollback.message().as_str(),
            ),
        }
    }
}

} // verus!
