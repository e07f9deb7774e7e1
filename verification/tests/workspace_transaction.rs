//! Transactions, carried out on disks in memory.

use pactrail::workspace::apply::{
    ApplyAction, ApplyEvent, ApplyFaultPoint, ApplyMachine, ApplyOutcome, ApplyProgress,
    ChangeFingerprint,
};
use pactrail::workspace::changes::FileChange;
use pactrail::workspace::error::TransactionError;
use pactrail::workspace::manifest::{
    fingerprint, portable, records_entry, visits_name, EntryKind, FileTable, WorkspaceManifest,
};
use pactrail::workspace::transaction::{
    ancestors, check_artifact, check_root, pass_ancestor, refuse_links, Found, TransactionMetadata,
    WorkspaceTransaction, MAX_TRANSACTION_METADATA_BYTES,
};
use std::collections::BTreeMap;

const MODE: Option<u32> = Some(0o100_644);

type Files = BTreeMap<String, (Vec<u8>, Option<u32>)>;

fn table(files: &Files) -> FileTable {
    let mut listed = FileTable::new();
    for (path, (content, mode)) in files {
        listed.insert(path, fingerprint(content, content.len() as u64, *mode));
    }
    listed
}

fn snapshot(files: &Files) -> WorkspaceManifest {
    WorkspaceManifest::of(table(files))
}

fn files(entries: &[(&str, &str)]) -> Files {
    entries
        .iter()
        .map(|(path, content)| ((*path).to_owned(), (content.as_bytes().to_vec(), MODE)))
        .collect()
}

/// A source, its copy and the journal.
struct Disk {
    source: Files,
    workspace: Files,
    journal: Option<BTreeMap<usize, Vec<u8>>>,
    transaction: WorkspaceTransaction,
}

impl Disk {
    fn new(source: Files) -> Disk {
        let transaction = WorkspaceTransaction::create(
            "/source".to_owned(),
            "/control/run".to_owned(),
            vec!["src".to_owned()],
            snapshot(&source),
            &snapshot(&source),
            &snapshot(&source),
        )
        .unwrap_or_else(|error| unreachable!("create transaction: {}", error.message()));
        Disk {
            workspace: source.clone(),
            source,
            journal: None,
            transaction,
        }
    }

    fn write_file(&mut self, path: &str, content: &[u8]) -> Result<(), TransactionError> {
        self.transaction.resolve_write(path)?;
        let mode = self.workspace.get(path).map_or(MODE, |file| file.1);
        self.workspace.insert(path.to_owned(), (content.to_vec(), mode));
        Ok(())
    }

    fn changes(&self) -> Vec<FileChange> {
        self.transaction.changes(&snapshot(&self.workspace))
    }

    fn source_text(&self, path: &str) -> Option<String> {
        self.source
            .get(path)
            .map(|file| String::from_utf8_lossy(&file.0).into_owned())
    }

    fn apply(&mut self) -> Result<ApplyOutcome, TransactionError> {
        let started = self
            .transaction
            .apply(&snapshot(&self.workspace))
            .unwrap_or_else(|| unreachable!("few changes"));
        self.run(started, &mut Faults::none())
    }

    fn apply_expected(&mut self, changes: &Vec<FileChange>) -> Result<ApplyOutcome, TransactionError> {
        let started = self.transaction.apply_expected(&snapshot(&self.workspace), changes)?;
        self.run(started, &mut Faults::none())
    }

    fn apply_with_faults(
        &mut self,
        changes: &Vec<FileChange>,
        faults: &mut Faults,
    ) -> Result<ApplyOutcome, TransactionError> {
        let started = self.transaction.apply_expected(&snapshot(&self.workspace), changes)?;
        self.run(started, faults)
    }

    fn run(
        &mut self,
        started: (ApplyMachine, ApplyAction),
        faults: &mut Faults,
    ) -> Result<ApplyOutcome, TransactionError> {
        let paths = self
            .changes()
            .into_iter()
            .map(|change| change.path)
            .collect::<Vec<_>>();
        let (mut machine, mut action) = started;
        loop {
            let event = self.perform(action, &paths, faults);
            let (next, progress) = machine.step(event);
            match progress {
                ApplyProgress::Finished(result) => return result,
                ApplyProgress::Next(following) => {
                    machine = next;
                    action = following;
                }
            }
        }
    }

    fn perform(&mut self, action: ApplyAction, paths: &[String], faults: &mut Faults) -> ApplyEvent {
        match action {
            ApplyAction::Checkpoint(point) => match faults.at(point) {
                Some(error) => ApplyEvent::Failed(error),
                None => ApplyEvent::Done,
            },
            ApplyAction::FindJournal => ApplyEvent::Journal(self.journal.is_some()),
            ApplyAction::Inspect(index) => ApplyEvent::Mark(self.mark(&paths[index])),
            ApplyAction::CreateJournal => {
                self.journal = Some(BTreeMap::new());
                ApplyEvent::Done
            }
            ApplyAction::Backup(index) => {
                let content = self.source[&paths[index]].0.clone();
                self.journal_mut().insert(index, content);
                ApplyEvent::Done
            }
            ApplyAction::CheckPaths(_) => ApplyEvent::Done,
            ApplyAction::ReadCandidate(index) => {
                let (bytes, mode) = self.workspace[&paths[index]].clone();
                ApplyEvent::Content { bytes, mode }
            }
            ApplyAction::Write { index, content, mode } => {
                self.source.insert(paths[index].clone(), (content, mode));
                ApplyEvent::Done
            }
            ApplyAction::Remove(index) | ApplyAction::RemoveAdded(index) => {
                self.source.remove(&paths[index]);
                ApplyEvent::Done
            }
            ApplyAction::Restore { index, mode } => {
                let content = self.journal_mut()[&index].clone();
                self.source.insert(paths[index].clone(), (content, mode));
                ApplyEvent::Done
            }
            ApplyAction::CaptureSource => ApplyEvent::Manifest(snapshot(&self.source).digest),
            ApplyAction::RemoveJournal => {
                self.journal = None;
                ApplyEvent::Done
            }
        }
    }

    fn mark(&self, path: &str) -> ChangeFingerprint {
        match table(&self.source).get(path) {
            Some(print) => ChangeFingerprint {
                digest: Some(print.digest.clone()),
                unix_mode: print.unix_mode,
            },
            None => ChangeFingerprint {
                digest: None,
                unix_mode: None,
            },
        }
    }

    fn journal_mut(&mut self) -> &mut BTreeMap<usize, Vec<u8>> {
        self.journal
            .as_mut()
            .unwrap_or_else(|| unreachable!("journal"))
    }
}

/// Where the disk fails, and how.
struct Faults {
    points: Vec<ApplyFaultPoint>,
    kind: Option<&'static str>,
}

impl Faults {
    fn none() -> Faults {
        Faults::invariants(Vec::new())
    }

    fn invariants(points: Vec<ApplyFaultPoint>) -> Faults {
        Faults { points, kind: None }
    }

    fn io(points: Vec<ApplyFaultPoint>, kind: &'static str) -> Faults {
        Faults {
            points,
            kind: Some(kind),
        }
    }

    fn at(&mut self, point: ApplyFaultPoint) -> Option<TransactionError> {
        let position = self.points.iter().position(|planned| *planned == point)?;
        self.points.remove(position);
        Some(match self.kind {
            Some(kind) => TransactionError::Io {
                path: format!("{point:?}"),
                message: kind.to_owned(),
            },
            None => TransactionError::Invariant(format!("injected apply fault at {point:?}")),
        })
    }
}

fn contains_io_kind(error: &TransactionError, kind: &str) -> bool {
    match error {
        TransactionError::Io { message, .. } => message == kind,
        TransactionError::RollbackFailed { apply, rollback } => {
            contains_io_kind(apply, kind) && contains_io_kind(rollback, kind)
        }
        _ => false,
    }
}

fn fixture() -> Disk {
    Disk::new(files(&[("src/lib.rs", "pub fn old() {}\n")]))
}

fn two_file_fixture() -> Disk {
    let mut disk = Disk::new(files(&[
        ("src/first.rs", "old first\n"),
        ("src/second.rs", "old second\n"),
    ]));
    for (path, content) in [("src/first.rs", "new first\n"), ("src/second.rs", "new second\n")] {
        disk.write_file(path, content.as_bytes())
            .unwrap_or_else(|error| unreachable!("candidate: {}", error.message()));
    }
    disk
}

fn assert_two_file_source(disk: &Disk, first: &str, second: &str) {
    assert_eq!(disk.source_text("src/first.rs").as_deref(), Some(first));
    assert_eq!(disk.source_text("src/second.rs").as_deref(), Some(second));
}

#[test]
fn write_is_isolated_until_apply() {
    let mut disk = fixture();
    disk.write_file("src/lib.rs", b"pub fn new() {}\n")
        .unwrap_or_else(|error| unreachable!("transaction write: {}", error.message()));
    assert_eq!(disk.source_text("src/lib.rs"), Some("pub fn old() {}\n".to_owned()));
    assert_eq!(disk.changes().len(), 1);

    let outcome = disk
        .apply()
        .unwrap_or_else(|error| unreachable!("apply transaction: {}", error.message()));
    assert_eq!(outcome.changed_files, 1);
    assert_eq!(disk.source_text("src/lib.rs"), Some("pub fn new() {}\n".to_owned()));
    let repeated = disk
        .apply()
        .unwrap_or_else(|error| unreachable!("idempotent apply: {}", error.message()));
    assert_eq!(repeated.changed_files, 1);
}

#[test]
fn refuses_to_overwrite_concurrent_user_change() {
    let mut disk = fixture();
    disk.write_file("src/lib.rs", b"pub fn agent() {}\n")
        .unwrap_or_else(|error| unreachable!("transaction write: {}", error.message()));
    disk.source.insert(
        "src/lib.rs".to_owned(),
        (b"pub fn user() {}\n".to_vec(), MODE),
    );
    assert!(matches!(disk.apply(), Err(TransactionError::BaselineDrift { .. })));
    assert_eq!(disk.source_text("src/lib.rs"), Some("pub fn user() {}\n".to_owned()));
}

#[test]
fn write_scope_is_enforced() {
    let mut disk = fixture();
    assert!(matches!(
        disk.write_file("README.md", b"no"),
        Err(TransactionError::WriteOutsideScope(_))
    ));
}

#[test]
fn transaction_reopens_from_durable_metadata() {
    let disk = fixture();
    let metadata = disk.transaction.metadata();
    let stored = TransactionMetadata {
        schema_version: metadata.schema_version,
        source_root: metadata.source_root.clone(),
        allowed_write_paths: metadata.allowed_write_paths.clone(),
        baseline: metadata.baseline.clone(),
    };
    let reopened = WorkspaceTransaction::open(
        disk.transaction.control_root().to_owned(),
        stored,
        true,
        EntryKind::Directory,
    )
    .unwrap_or_else(|error| unreachable!("open transaction: {}", error.message()));
    assert_eq!(reopened.baseline_digest(), disk.transaction.baseline_digest());
}

#[test]
fn tampered_metadata_is_refused() {
    let disk = fixture();
    let stored = |schema_version: u32, source_root: &str, scopes: Vec<String>, digest: &str| {
        let mut baseline = disk.transaction.metadata().baseline.clone();
        if !digest.is_empty() {
            baseline.digest = digest.to_owned();
        }
        TransactionMetadata {
            schema_version,
            source_root: source_root.to_owned(),
            allowed_write_paths: scopes,
            baseline,
        }
    };
    let open = |metadata: TransactionMetadata, absolute: bool, kind: EntryKind| {
        WorkspaceTransaction::open("/control/run".to_owned(), metadata, absolute, kind)
    };
    let scopes = || vec!["src".to_owned()];
    assert!(open(stored(1, "/source", scopes(), ""), true, EntryKind::Directory).is_ok());
    assert!(matches!(
        open(stored(2, "/source", scopes(), ""), true, EntryKind::Directory),
        Err(TransactionError::UnsupportedSchema(2))
    ));
    assert!(open(stored(1, "source", scopes(), ""), false, EntryKind::Directory).is_err());
    assert!(matches!(
        open(stored(1, "/source", Vec::new(), ""), true, EntryKind::Directory),
        Err(TransactionError::EmptyWriteScope)
    ));
    assert!(open(stored(1, "/source", scopes(), &"0".repeat(64)), true, EntryKind::Directory).is_err());
    assert!(open(stored(1, "/source", scopes(), ""), true, EntryKind::SymbolicLink).is_err());
}

#[test]
fn apply_failure_rolls_back_and_retry_completes_from_the_journal() {
    let mut disk = two_file_fixture();
    let changes = disk.changes();
    let mut faults = Faults::invariants(vec![ApplyFaultPoint::ApplyChange(1)]);
    assert!(matches!(
        disk.apply_with_faults(&changes, &mut faults),
        Err(TransactionError::Invariant(message)) if message.contains("ApplyChange(1)")
    ));
    assert_two_file_source(&disk, "old first\n", "old second\n");
    assert!(disk.journal.is_some());

    disk.apply_expected(&changes)
        .unwrap_or_else(|error| unreachable!("journal retry: {}", error.message()));
    assert_two_file_source(&disk, "new first\n", "new second\n");
    assert!(disk.journal.is_none());
}

#[test]
fn rollback_failure_is_diagnosable_and_a_clean_retry_recovers() {
    let mut disk = two_file_fixture();
    let changes = disk.changes();
    let mut faults = Faults::invariants(vec![
        ApplyFaultPoint::ApplyChange(1),
        ApplyFaultPoint::RollbackChange(0),
    ]);
    assert!(matches!(
        disk.apply_with_faults(&changes, &mut faults),
        Err(TransactionError::RollbackFailed { .. })
    ));
    assert_two_file_source(&disk, "new first\n", "old second\n");

    disk.apply_expected(&changes)
        .unwrap_or_else(|error| unreachable!("recovery retry: {}", error.message()));
    assert_two_file_source(&disk, "new first\n", "new second\n");
}

#[test]
fn cleanup_failure_leaves_an_idempotently_recoverable_applied_journal() {
    let mut disk = two_file_fixture();
    let changes = disk.changes();
    let mut faults = Faults::invariants(vec![ApplyFaultPoint::JournalCleanup]);
    assert!(matches!(
        disk.apply_with_faults(&changes, &mut faults),
        Err(TransactionError::Invariant(message)) if message.contains("JournalCleanup")
    ));
    assert_eq!(disk.source_text("src/first.rs"), Some("new first\n".to_owned()));
    assert!(disk.journal.is_some());

    let recovered = disk
        .apply_expected(&changes)
        .unwrap_or_else(|error| unreachable!("cleanup recovery: {}", error.message()));
    assert_eq!(recovered.changed_files, 2);
    assert!(disk.journal.is_none());
}

#[test]
fn platform_io_failure_matrix_preserves_or_recovers_every_apply_boundary() {
    let points = [
        ApplyFaultPoint::JournalCreate,
        ApplyFaultPoint::BackupChange(0),
        ApplyFaultPoint::BackupChangeWritten(0),
        ApplyFaultPoint::BackupChange(1),
        ApplyFaultPoint::BackupChangeWritten(1),
        ApplyFaultPoint::ApplyChange(0),
        ApplyFaultPoint::ApplyChangeWritten(0),
        ApplyFaultPoint::ApplyChange(1),
        ApplyFaultPoint::ApplyChangeWritten(1),
        ApplyFaultPoint::JournalCleanup,
    ];

    for kind in ["permission denied", "no storage space"] {
        for point in points {
            let mut disk = two_file_fixture();
            let changes = disk.changes();
            let mut faults = Faults::io(vec![point], kind);
            let Err(error) = disk.apply_with_faults(&changes, &mut faults) else {
                unreachable!("fault {point:?} with {kind:?} unexpectedly succeeded")
            };
            assert!(
                contains_io_kind(&error, kind),
                "fault {point:?} did not preserve {kind:?}: {}",
                error.message()
            );

            if point == ApplyFaultPoint::JournalCleanup {
                assert_two_file_source(&disk, "new first\n", "new second\n");
            } else {
                assert_two_file_source(&disk, "old first\n", "old second\n");
            }

            disk.apply_expected(&changes).unwrap_or_else(|error| {
                unreachable!("recovery after {point:?} with {kind:?}: {}", error.message())
            });
            assert_two_file_source(&disk, "new first\n", "new second\n");
            assert!(disk.journal.is_none());
        }
    }
}

#[test]
fn rollback_io_failure_matrix_remains_diagnosable_and_retryable() {
    let rollback_points = [
        ApplyFaultPoint::RollbackChange(0),
        ApplyFaultPoint::RollbackChangeWritten(0),
        ApplyFaultPoint::RollbackChange(1),
        ApplyFaultPoint::RollbackChangeWritten(1),
    ];

    for kind in ["permission denied", "no storage space"] {
        for rollback_point in rollback_points {
            let mut disk = two_file_fixture();
            let changes = disk.changes();
            let mut faults =
                Faults::io(vec![ApplyFaultPoint::ApplyChange(1), rollback_point], kind);
            let Err(error) = disk.apply_with_faults(&changes, &mut faults) else {
                unreachable!("rollback fault {rollback_point:?} with {kind:?} unexpectedly succeeded")
            };
            assert!(matches!(error, TransactionError::RollbackFailed { .. }));
            assert!(contains_io_kind(&error, kind));
            if rollback_point == ApplyFaultPoint::RollbackChange(0) {
                assert_two_file_source(&disk, "new first\n", "old second\n");
            } else {
                assert_two_file_source(&disk, "old first\n", "old second\n");
            }

            disk.apply_expected(&changes).unwrap_or_else(|error| {
                unreachable!(
                    "recovery after rollback {rollback_point:?} with {kind:?}: {}",
                    error.message()
                )
            });
            assert_two_file_source(&disk, "new first\n", "new second\n");
            assert!(disk.journal.is_none());
        }
    }
}

#[test]
fn oversized_metadata_and_linked_artifacts_fail_closed() {
    let path = "/control/run/transaction.json";
    assert!(check_artifact(EntryKind::File, MAX_TRANSACTION_METADATA_BYTES, path).is_ok());
    assert!(matches!(
        check_artifact(EntryKind::File, MAX_TRANSACTION_METADATA_BYTES + 1, path),
        Err(TransactionError::ArtifactTooLarge { .. })
    ));
    assert!(check_artifact(EntryKind::SymbolicLink, 1, path).is_err());
    assert!(check_root(EntryKind::Directory, "/control/run").is_ok());
    assert!(check_root(EntryKind::File, "/control/run").is_err());
}

#[test]
fn arbitrary_candidate_bytes_land_exactly() {
    for content in [&b""[..], &[0, 159, 146, 150], &[0xff; 8191]] {
        let mut disk = fixture();
        let mut expected = content.to_vec();
        expected.push(0xff);
        disk.write_file("src/lib.rs", &expected)
            .unwrap_or_else(|error| unreachable!("candidate: {}", error.message()));
        let changes = disk.changes();
        assert_eq!(changes.len(), 1);
        assert!(disk.apply_expected(&changes).is_ok());
        assert_eq!(disk.source["src/lib.rs"].0, expected);
    }
}

#[test]
fn unix_mode_changes_are_receipted_and_applied() {
    let mut disk = fixture();
    let baseline_mode = disk.workspace["src/lib.rs"].1.unwrap_or_else(|| unreachable!("mode"));
    let changed_mode = baseline_mode ^ 0o100;
    if let Some(candidate) = disk.workspace.get_mut("src/lib.rs") {
        candidate.1 = Some(changed_mode);
    }

    let changes = disk.changes();
    assert_eq!(changes.len(), 1);
    assert_eq!(changes[0].before_digest, changes[0].after_digest);
    assert_eq!(changes[0].before_unix_mode, Some(baseline_mode));
    assert_eq!(changes[0].after_unix_mode, Some(changed_mode));
    disk.apply_expected(&changes)
        .unwrap_or_else(|error| unreachable!("mode apply: {}", error.message()));
    assert_eq!(disk.source["src/lib.rs"].1, Some(changed_mode));
}

#[test]
fn added_and_removed_files_are_landed_and_rolled_back() {
    let edited = || {
        let mut disk = Disk::new(files(&[("src/old.rs", "old\n")]));
        disk.workspace.remove("src/old.rs");
        disk.write_file("src/new.rs", b"new\n")
            .unwrap_or_else(|error| unreachable!("candidate: {}", error.message()));
        disk
    };
    let mut landed = edited();
    let outcome = landed
        .apply()
        .unwrap_or_else(|error| unreachable!("apply: {}", error.message()));
    assert_eq!(outcome.changed_files, 2);
    assert_eq!(landed.source_text("src/old.rs"), None);
    assert_eq!(landed.source_text("src/new.rs"), Some("new\n".to_owned()));
    assert_eq!(outcome.resulting_digest, snapshot(&landed.workspace).digest);

    let mut interrupted = edited();
    let changes = interrupted.changes();
    let mut faults = Faults::invariants(vec![ApplyFaultPoint::ApplyChangeWritten(1)]);
    assert!(interrupted.apply_with_faults(&changes, &mut faults).is_err());
    assert_eq!(interrupted.source_text("src/old.rs"), Some("old\n".to_owned()));
    assert_eq!(interrupted.source_text("src/new.rs"), None);
}

#[test]
fn another_change_set_than_the_expected_is_refused() {
    let mut disk = two_file_fixture();
    let changes = disk.changes();
    disk.write_file("src/first.rs", b"newer first\n")
        .unwrap_or_else(|error| unreachable!("candidate: {}", error.message()));
    assert!(matches!(
        disk.apply_expected(&changes),
        Err(TransactionError::CandidateSetDrift)
    ));
    assert_two_file_source(&disk, "old first\n", "old second\n");
}

#[test]
fn snapshots_that_move_are_refused() {
    let before = files(&[("src/lib.rs", "a")]);
    let after = files(&[("src/lib.rs", "b")]);
    let create = |copied: &Files, again: &Files| {
        WorkspaceTransaction::create(
            "/source".to_owned(),
            "/control/run".to_owned(),
            vec!["src".to_owned()],
            snapshot(&before),
            &snapshot(copied),
            &snapshot(again),
        )
    };
    for (scopes, empty) in [(Vec::new(), true), (vec!["../src".to_owned()], false)] {
        let created = WorkspaceTransaction::create(
            "/source".to_owned(),
            "/control/run".to_owned(),
            scopes,
            snapshot(&before),
            &snapshot(&before),
            &snapshot(&before),
        );
        match created {
            Err(TransactionError::EmptyWriteScope) => assert!(empty),
            Err(TransactionError::Path(_)) => assert!(!empty),
            _ => unreachable!("scopes must be safe"),
        }
    }
    assert!(matches!(
        create(&after, &before),
        Err(TransactionError::SnapshotCopyMismatch { .. })
    ));
    assert!(matches!(
        create(&before, &after),
        Err(TransactionError::SourceChangedDuringSnapshot { .. })
    ));
    let begin = |is_directory: bool, occupied: bool, scopes: Vec<String>| {
        WorkspaceTransaction::begin("/source", is_directory, "/control/run", occupied, &scopes)
    };
    assert!(begin(true, false, vec!["src".to_owned()]).is_ok());
    assert!(matches!(
        begin(false, false, vec!["src".to_owned()]),
        Err(TransactionError::NotDirectory(_))
    ));
    assert!(matches!(
        begin(true, true, vec!["src".to_owned()]),
        Err(TransactionError::DestinationNotEmpty(_))
    ));
    assert!(matches!(
        begin(true, false, vec!["../src".to_owned()]),
        Err(TransactionError::Path(_))
    ));
}

#[test]
fn manifests_record_regular_files_only() {
    assert!(visits_name("src"));
    assert!(!visits_name(".git"));
    assert!(matches!(records_entry(EntryKind::File, "src/lib.rs"), Ok(true)));
    assert!(matches!(records_entry(EntryKind::Directory, "src"), Ok(false)));
    assert!(matches!(
        records_entry(EntryKind::SymbolicLink, "src/link"),
        Err(TransactionError::SymbolicLink(_))
    ));
    assert!(matches!(
        records_entry(EntryKind::Special, "src/pipe"),
        Err(TransactionError::UnsupportedFile(_))
    ));
    assert_eq!(portable("src/lib.rs").ok().as_deref(), Some("src/lib.rs"));
    assert!(matches!(portable("../lib.rs"), Err(TransactionError::EscapedRoot(_))));
    let forward = snapshot(&files(&[("a", "1"), ("b", "2")]));
    let swapped = snapshot(&files(&[("a", "2"), ("b", "1")]));
    assert_eq!(forward.digest.len(), 64);
    assert_ne!(forward.digest, swapped.digest);
}

#[test]
fn linked_ancestors_are_refused() {
    let disk = fixture();
    let resolved = disk
        .transaction
        .resolve_read("src/deep/lib.rs")
        .unwrap_or_else(|error| unreachable!("path: {}", error.message()));
    assert_eq!(resolved, "/control/run/workspace/src/deep/lib.rs");
    let relative = pactrail::workspace::path::SafeRelativePath::new("src/deep/lib.rs")
        .unwrap_or_else(|error| unreachable!("path: {}", error.message()));
    assert_eq!(
        ancestors("/root", &relative),
        vec!["/root/src", "/root/src/deep", "/root/src/deep/lib.rs"]
    );
    assert!(matches!(
        pass_ancestor("/root/src", &Found::Entry(EntryKind::SymbolicLink)),
        Err(TransactionError::SymbolicLink(_))
    ));
    assert!(matches!(pass_ancestor("/root/src", &Found::Entry(EntryKind::Directory)), Ok(true)));
    assert!(matches!(pass_ancestor("/root/src", &Found::Missing), Ok(false)));
    let directory = || Found::Entry(EntryKind::Directory);
    let link = || Found::Entry(EntryKind::SymbolicLink);
    assert!(matches!(
        refuse_links("/root", &relative, vec![directory(), link(), link()]),
        Err(TransactionError::SymbolicLink(path)) if path == "/root/src/deep"
    ));
    assert!(matches!(
        refuse_links("/root", &relative, vec![Found::Failed("denied".to_owned()), link(), link()]),
        Err(TransactionError::Io { path, message }) if path == "/root/src" && message == "denied"
    ));
    let file = Found::Entry(EntryKind::File);
    assert!(refuse_links("/root", &relative, vec![directory(), directory(), file]).is_ok());
    assert!(refuse_links("/root", &relative, vec![directory(), Found::Missing, link()]).is_ok());
}

#[test]
fn current_digests_and_removals_stay_in_scope() {
    let disk = fixture();
    assert!(disk.transaction.remove_file("src/lib.rs", Ok(EntryKind::File)).is_ok());
    assert!(matches!(
        disk.transaction.remove_file("README.md", Ok(EntryKind::File)),
        Err(TransactionError::WriteOutsideScope(_))
    ));
    assert!(disk.transaction.remove_file("src", Ok(EntryKind::Directory)).is_err());
}

#[test]
fn a_second_apply_answers_the_same_and_changes_nothing() {
    let mut disk = two_file_fixture();
    disk.workspace.remove("src/second.rs");
    let first = disk
        .apply()
        .unwrap_or_else(|error| unreachable!("apply: {}", error.message()));
    let landed = disk.source.clone();
    assert_eq!(disk.source, disk.workspace);
    let second = disk
        .apply()
        .unwrap_or_else(|error| unreachable!("apply again: {}", error.message()));
    assert_eq!(first, second);
    assert_eq!(disk.source, landed);
    assert!(disk.journal.is_none());
}

#[test]
fn control_paths_join_their_root_as_a_directory() {
    let disk = fixture();
    for (root, workspace, journal, metadata) in [
        ("", "workspace", "apply-journal", "transaction.json"),
        ("run", "run/workspace", "run/apply-journal", "run/transaction.json"),
        ("/run/", "/run/workspace", "/run/apply-journal", "/run/transaction.json"),
    ] {
        let stored = disk.transaction.metadata();
        let transaction = WorkspaceTransaction::open(
            root.to_owned(),
            TransactionMetadata {
                schema_version: stored.schema_version,
                source_root: stored.source_root.clone(),
                allowed_write_paths: stored.allowed_write_paths.clone(),
                baseline: stored.baseline.clone(),
            },
            true,
            EntryKind::Directory,
        )
        .unwrap_or_else(|error| unreachable!("open transaction: {}", error.message()));
        assert_eq!(transaction.workspace_root(), workspace);
        assert_eq!(transaction.journal_root(), journal);
        assert_eq!(transaction.metadata_path(), metadata);
        assert_eq!(
            transaction.resolve_read("src/lib.rs").ok(),
            Some(format!("{workspace}/src/lib.rs"))
        );
    }
}
