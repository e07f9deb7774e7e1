//! Landing a change set: a journaled protocol that rolls back what it cannot finish.

use crate::digest;
use crate::outcome;
use crate::text;
use crate::workspace::changes::{ChangeView, FileChange};
use crate::workspace::error::{TransactionError, TransactionFault};
use crate::workspace::manifest;
use crate::workspace::manifest::{FileTable, Listing};
use vstd::prelude::*;

verus! {

/// What a file is known by: nothing at all where it is missing.
#[derive(Debug, PartialEq, Eq)]
pub struct ChangeFingerprint {
    pub digest: Option<String>,
    pub unix_mode: Option<u32>,
}

/// A [`ChangeFingerprint`] by its digest's text.
pub struct MarkView {
    pub digest: Option<Seq<char>>,
    pub unix_mode: Option<u32>,
}

impl DeepView for ChangeFingerprint {
    type V = MarkView;

    open spec fn deep_view(&self) -> MarkView {
        MarkView { digest: self.digest.deep_view(), unix_mode: self.unix_mode }
    }
}

/// What a file is known by before a change.
pub open spec fn mark_before(c: ChangeView) -> MarkView {
    MarkView { digest: c.before_digest, unix_mode: c.before_unix_mode }
}

/// What a file is known by after a change.
pub open spec fn mark_after(c: ChangeView) -> MarkView {
    MarkView { digest: c.after_digest, unix_mode: c.after_unix_mode }
}

/// Whether a file is as before or as after a change.
pub open spec fn is_known(c: ChangeView, m: MarkView) -> bool {
    m == mark_before(c) || m == mark_after(c)
}

impl ChangeFingerprint {
    /// Whether a file is as before a change.
    pub fn is_before(&self, change: &FileChange) -> (r: bool)
        ensures
            r == (self.deep_view() == mark_before(change.deep_view())),
    {
        text::same_option(&self.digest, &change.before_digest) && manifest::same_mode(
            self.unix_mode,
            change.before_unix_mode,
        )
    }

    /// Whether a file is as after a change.
    pub fn is_after(&self, change: &FileChange) -> (r: bool)
        ensures
            r == (self.deep_view() == mark_after(change.deep_view())),
    {
        text::same_option(&self.digest, &change.after_digest) && manifest::same_mode(
            self.unix_mode,
            change.after_unix_mode,
        )
    }
}

/// How the source relates to a change set.
#[derive(Debug, PartialEq, Eq)]
pub enum SourceState {
    Baseline,
    Applied,
    Partial,
    Drift {
        path: String,
        expected: Option<String>,
        actual: Option<String>,
        expected_mode: Option<u32>,
        actual_mode: Option<u32>,
    },
}

/// A [`SourceState`] by its texts.
pub enum StateView {
    Baseline,
    Applied,
    Partial,
    Drift {
        path: Seq<char>,
        expected: Option<Seq<char>>,
        actual: Option<Seq<char>>,
        expected_mode: Option<u32>,
        actual_mode: Option<u32>,
    },
}

impl DeepView for SourceState {
    type V = StateView;

    open spec fn deep_view(&self) -> StateView {
        match self {
            SourceState::Baseline => StateView::Baseline,
            SourceState::Applied => StateView::Applied,
            SourceState::Partial => StateView::Partial,
            SourceState::Drift {
                path,
                expected,
                actual,
                expected_mode,
                actual_mode,
            } => StateView::Drift {
                path: path@,
                expected: expected.deep_view(),
                actual: actual.deep_view(),
                expected_mode: *expected_mode,
                actual_mode: *actual_mode,
            },
        }
    }
}

/// Whether every file is as before its change.
pub open spec fn all_before(changes: Seq<ChangeView>, marks: Seq<MarkView>) -> bool {
    forall|i: int| 0 <= i < changes.len() ==> marks[i] == mark_before(#[trigger] changes[i])
}

/// Whether every file is as after its change.
pub open spec fn all_after(changes: Seq<ChangeView>, marks: Seq<MarkView>) -> bool {
    forall|i: int| 0 <= i < changes.len() ==> marks[i] == mark_after(#[trigger] changes[i])
}

/// Whether every file is as before or as after its change.
pub open spec fn all_known(changes: Seq<ChangeView>, marks: Seq<MarkView>) -> bool {
    forall|i: int| 0 <= i < changes.len() ==> is_known(#[trigger] changes[i], marks[i])
}

/// The position of the first file from `i` on that is neither as before nor as after
/// its change.
pub open spec fn first_unknown(changes: Seq<ChangeView>, marks: Seq<MarkView>, i: int) -> int
    decreases changes.len() - i,
{
    if i < 0 || i >= changes.len() || !is_known(changes[i], marks[i]) {
        i
    } else {
        first_unknown(changes, marks, i + 1)
    }
}

/// How the source relates to a change set, given what its files are known by.
pub open spec fn source_state_spec(changes: Seq<ChangeView>, marks: Seq<MarkView>) -> StateView {
    if all_before(changes, marks) {
        StateView::Baseline
    } else if all_after(changes, marks) {
        StateView::Applied
    } else if all_known(changes, marks) {
        StateView::Partial
    } else {
        let i = first_unknown(changes, marks, 0);
        StateView::Drift {
            path: changes[i].path,
            expected: changes[i].before_digest,
            actual: marks[i].digest,
            expected_mode: changes[i].before_unix_mode,
            actual_mode: marks[i].unix_mode,
        }
    }
}

proof fn lemma_first_unknown(changes: Seq<ChangeView>, marks: Seq<MarkView>, i: int, k: int)
    requires
        0 <= i <= k < changes.len(),
        forall|j: int| i <= j < k ==> is_known(#[trigger] changes[j], marks[j]),
        !is_known(changes[k], marks[k]),
    ensures
        first_unknown(changes, marks, i) == k,
    decreases k - i,
{
    if i < k {
        assert(is_known(changes[i], marks[i]));
        lemma_first_unknown(changes, marks, i + 1, k);
    }
}

/// How the source relates to a change set, given what its files are known by.
pub fn source_state(changes: &Vec<FileChange>, marks: &Vec<ChangeFingerprint>) -> (r: SourceState)
    requires
        marks@.len() == changes@.len(),
    ensures
        r.deep_view() == source_state_spec(changes.deep_view(), marks.deep_view()),
{
    let ghost cs = changes.deep_view();
    let ghost ms = marks.deep_view();
    let mut baseline = true;
    let mut applied = true;
    let mut drift: Option<SourceState> = None;
    let ghost mut unknown: int = 0;
    let mut i: usize = 0;
    while i < changes.len()
        invariant
            i <= changes@.len(),
            marks@.len() == changes@.len(),
            cs == changes.deep_view(),
            ms == marks.deep_view(),
            cs.len() == changes@.len(),
            ms.len() == marks@.len(),
            baseline == forall|k: int|
                0 <= k < i ==> ms[k] == mark_before(#[trigger] cs[k]),
            applied == forall|k: int|
                0 <= k < i ==> ms[k] == mark_after(#[trigger] cs[k]),
            match drift {
                None => forall|k: int| 0 <= k < i ==> is_known(#[trigger] cs[k], ms[k]),
                Some(d) => {
                    &&& 0 <= unknown < i
                    &&& !is_known(cs[unknown], ms[unknown])
                    &&& forall|k: int| 0 <= k < unknown ==> is_known(#[trigger] cs[k], ms[k])
                    &&& d.deep_view() == (StateView::Drift {
                        path: cs[unknown].path,
                        expected: cs[unknown].before_digest,
                        actual: ms[unknown].digest,
                        expected_mode: cs[unknown].before_unix_mode,
                        actual_mode: ms[unknown].unix_mode,
                    })
                },
            },
        decreases changes@.len() - i,
    {
        let change = &changes[i];
        let mark = &marks[i];
        assert(cs[i as int] == change.deep_view());
        assert(ms[i as int] == mark.deep_view());
        let before = mark.is_before(change);
        let after = mark.is_after(change);
        if !before {
            baseline = false;
        }
        if !after {
            applied = false;
        }
        if !before && !after && drift.is_none() {
            proof {
                unknown = i as int;
            }
            drift = Some(
                SourceState::Drift {
                    path: change.path.clone(),
                    expected: text::copy_option(&change.before_digest),
                    actual: text::copy_option(&mark.digest),
                    expected_mode: change.before_unix_mode,
                    actual_mode: mark.unix_mode,
                },
            );
        }
        i += 1;
    }
    if baseline {
        return SourceState::Baseline;
    }
    if applied {
        return SourceState::Applied;
    }
    match drift {
        Some(d) => {
            proof {
                lemma_first_unknown(cs, ms, 0, unknown);
            }
            d
        },
        None => SourceState::Partial,
    }
}

/// A boundary at which an apply can be interrupted.
#[derive(Clone, Copy, Debug, PartialEq, Eq, Structural)]
pub enum ApplyFaultPoint {
    JournalCreate,
    BackupChange(usize),
    BackupChangeWritten(usize),
    ApplyChange(usize),
    ApplyChangeWritten(usize),
    RollbackChange(usize),
    RollbackChangeWritten(usize),
    JournalCleanup,
}

/// Result of landing a workspace transaction.
#[derive(Debug, PartialEq, Eq)]
pub struct ApplyOutcome {
    pub changed_files: usize,
    pub baseline_digest: String,
    pub resulting_digest: String,
}

/// An [`ApplyOutcome`] by its texts.
pub struct OutcomeView {
    pub changed_files: nat,
    pub baseline_digest: Seq<char>,
    pub resulting_digest: Seq<char>,
}

impl DeepView for ApplyOutcome {
    type V = OutcomeView;

    open spec fn deep_view(&self) -> OutcomeView {
        OutcomeView {
            changed_files: self.changed_files as nat,
            baseline_digest: self.baseline_digest@,
            resulting_digest: self.resulting_digest@,
        }
    }
}

/// What is to be done next. Numbers are positions in the change set.
#[derive(Debug)]
#[allow(inconsistent_fields)]
pub enum ApplyAction {
    /// Pass a boundary.
    Checkpoint(ApplyFaultPoint),
    /// See whether a journal exists.
    FindJournal,
    /// See what a source file is known by.
    Inspect(usize),
    /// Create the journal.
    CreateJournal,
    /// Copy a source file into the journal.
    Backup(usize),
    /// Make sure that no symbolic link leads to a source file or its candidate.
    CheckPaths(usize),
    /// Read a candidate file.
    ReadCandidate(usize),
    /// Replace a source file in one step.
    Write { index: usize, content: Vec<u8>, mode: Option<u32> },
    /// Remove a source file.
    Remove(usize),
    /// Replace a source file in one step by its copy in the journal.
    Restore { index: usize, mode: Option<u32> },
    /// Remove a source file if it exists.
    RemoveAdded(usize),
    /// Take the digest of the whole source.
    CaptureSource,
    /// Remove the journal.
    RemoveJournal,
}

/// An [`ApplyAction`] by its contents.
#[allow(inconsistent_fields)]
pub enum ActionView {
    Checkpoint(ApplyFaultPoint),
    FindJournal,
    Inspect(int),
    CreateJournal,
    Backup(int),
    CheckPaths(int),
    ReadCandidate(int),
    Write { index: int, content: Seq<u8>, mode: Option<u32> },
    Remove(int),
    Restore { index: int, mode: Option<u32> },
    RemoveAdded(int),
    CaptureSource,
    RemoveJournal,
}

impl DeepView for ApplyAction {
    type V = ActionView;

    open spec fn deep_view(&self) -> ActionView {
        match self {
            ApplyAction::Checkpoint(p) => ActionView::Checkpoint(*p),
            ApplyAction::FindJournal => ActionView::FindJournal,
            ApplyAction::Inspect(i) => ActionView::Inspect(*i as int),
            ApplyAction::CreateJournal => ActionView::CreateJournal,
            ApplyAction::Backup(i) => ActionView::Backup(*i as int),
            ApplyAction::CheckPaths(i) => ActionView::CheckPaths(*i as int),
            ApplyAction::ReadCandidate(i) => ActionView::ReadCandidate(*i as int),
            ApplyAction::Write { index, content, mode } => ActionView::Write {
                index: *index as int,
                content: content@,
                mode: *mode,
            },
            ApplyAction::Remove(i) => ActionView::Remove(*i as int),
            ApplyAction::Restore { index, mode } => ActionView::Restore {
                index: *index as int,
                mode: *mode,
            },
            ApplyAction::RemoveAdded(i) => ActionView::RemoveAdded(*i as int),
            ApplyAction::CaptureSource => ActionView::CaptureSource,
            ApplyAction::RemoveJournal => ActionView::RemoveJournal,
        }
    }
}

/// What came of an action.
#[derive(Debug)]
#[allow(inconsistent_fields)]
pub enum ApplyEvent {
    Done,
    Journal(bool),
    Mark(ChangeFingerprint),
    Content { bytes: Vec<u8>, mode: Option<u32> },
    Manifest(String),
    Failed(TransactionError),
}

/// An [`ApplyEvent`] by its contents.
#[allow(inconsistent_fields)]
pub enum EventView {
    Done,
    Journal(bool),
    Mark(MarkView),
    Content { bytes: Seq<u8>, mode: Option<u32> },
    Manifest(Seq<char>),
    Failed(TransactionFault),
}

impl DeepView for ApplyEvent {
    type V = EventView;

    open spec fn deep_view(&self) -> EventView {
        match self {
            ApplyEvent::Done => EventView::Done,
            ApplyEvent::Journal(b) => EventView::Journal(*b),
            ApplyEvent::Mark(m) => EventView::Mark(m.deep_view()),
            ApplyEvent::Content { bytes, mode } => EventView::Content {
                bytes: bytes@,
                mode: *mode,
            },
            ApplyEvent::Manifest(d) => EventView::Manifest(d@),
            ApplyEvent::Failed(e) => EventView::Failed(e.deep_view()),
        }
    }
}

/// What follows the digest of the whole source.
#[derive(Clone, Copy, Debug, PartialEq, Eq, Structural)]
pub enum AfterCapture {
    /// The journal is still to be removed.
    Clear,
    /// Nothing is left to do.
    Finish,
}

/// Where in the handling of one file a step stands.
#[derive(Clone, Copy, Debug, PartialEq, Eq, Structural)]
pub enum FileStage {
    Before,
    Act,
    After,
}

/// Where in the landing of one file a step stands.
#[derive(Clone, Copy, Debug, PartialEq, Eq, Structural)]
pub enum LandingStage {
    Before,
    Paths,
    Inspect,
    Read,
    Change,
    After,
}

/// Where an apply stands: the action that it waits for.
#[derive(Debug)]
#[allow(inconsistent_fields)]
pub enum Phase {
    Looking,
    Surveying { recovering: bool, marks: Vec<ChangeFingerprint> },
    Capturing { then: AfterCapture },
    /// The journal is removed, and the outcome returned or the source surveyed anew.
    Clearing { passed: bool, outcome: Option<ApplyOutcome> },
    Creating { passed: bool },
    BackingUp { index: usize, stage: FileStage },
    Landing { index: usize, stage: LandingStage },
    RollingBack { index: usize, stage: FileStage, apply: Option<TransactionError> },
    Ended,
}

/// A [`Phase`] by its contents.
#[allow(inconsistent_fields)]
pub enum PhaseView {
    Looking,
    Surveying { recovering: bool, marks: Seq<MarkView> },
    Capturing { then: AfterCapture },
    Clearing { passed: bool, outcome: Option<OutcomeView> },
    Creating { passed: bool },
    BackingUp { index: int, stage: FileStage },
    Landing { index: int, stage: LandingStage },
    RollingBack { index: int, stage: FileStage, apply: Option<TransactionFault> },
    Ended,
}

impl DeepView for Phase {
    type V = PhaseView;

    open spec fn deep_view(&self) -> PhaseView {
        match self {
            Phase::Looking => PhaseView::Looking,
            Phase::Surveying { recovering, marks } => PhaseView::Surveying {
                recovering: *recovering,
                marks: marks.deep_view(),
            },
            Phase::Capturing { then } => PhaseView::Capturing { then: *then },
            Phase::Clearing { passed, outcome } => PhaseView::Clearing {
                passed: *passed,
                outcome: outcome.deep_view(),
            },
            Phase::Creating { passed } => PhaseView::Creating { passed: *passed },
            Phase::BackingUp { index, stage } => PhaseView::BackingUp {
                index: *index as int,
                stage: *stage,
            },
            Phase::Landing { index, stage } => PhaseView::Landing {
                index: *index as int,
                stage: *stage,
            },
            Phase::RollingBack { index, stage, apply } => PhaseView::RollingBack {
                index: *index as int,
                stage: *stage,
                apply: apply.deep_view(),
            },
            Phase::Ended => PhaseView::Ended,
        }
    }
}

/// What an apply does next.
#[derive(Debug)]
pub enum ApplyProgress {
    Next(ApplyAction),
    Finished(Result<ApplyOutcome, TransactionError>),
}

/// An [`ApplyProgress`] by its contents.
pub enum ProgressView {
    Next(ActionView),
    Finished(Result<OutcomeView, TransactionFault>),
}

impl DeepView for ApplyProgress {
    type V = ProgressView;

    open spec fn deep_view(&self) -> ProgressView {
        match self {
            ApplyProgress::Next(a) => ProgressView::Next(a.deep_view()),
            ApplyProgress::Finished(r) => ProgressView::Finished(outcome::of(*r)),
        }
    }
}

/// What an apply goes by, beside its phase.
pub struct Plan {
    pub changes: Seq<ChangeView>,
    /// The modes that files get back in a rollback.
    pub modes: Seq<Option<u32>>,
    pub baseline_digest: Seq<char>,
}

/// The next phase and what is to be done in it.
pub struct Move {
    pub phase: PhaseView,
    pub progress: ProgressView,
}

/// An apply that goes on.
pub open spec fn go(phase: PhaseView, action: ActionView) -> Move {
    Move { phase, progress: ProgressView::Next(action) }
}

/// An apply that ends.
pub open spec fn end(result: Result<OutcomeView, TransactionFault>) -> Move {
    Move { phase: PhaseView::Ended, progress: ProgressView::Finished(result) }
}

/// The removal of the journal begins.
pub open spec fn begin_clearing(outcome: Option<OutcomeView>) -> Move {
    go(
        PhaseView::Clearing { passed: false, outcome },
        ActionView::Checkpoint(ApplyFaultPoint::JournalCleanup),
    )
}

/// The landing of the files from `index` on begins.
pub open spec fn begin_landing(plan: Plan, index: int) -> Move {
    if index >= plan.changes.len() {
        go(
            PhaseView::Capturing { then: AfterCapture::Clear },
            ActionView::CaptureSource,
        )
    } else {
        go(
            PhaseView::Landing { index, stage: LandingStage::Before },
            ActionView::Checkpoint(ApplyFaultPoint::ApplyChange(index as usize)),
        )
    }
}

/// The backup of the files from `index` on begins; files that did not exist need
/// none.
pub open spec fn begin_backup(plan: Plan, index: int) -> Move
    decreases plan.changes.len() - index,
{
    if index < 0 || index >= plan.changes.len() {
        begin_landing(plan, 0)
    } else if plan.changes[index].before_digest is None {
        begin_backup(plan, index + 1)
    } else {
        go(
            PhaseView::BackingUp { index, stage: FileStage::Before },
            ActionView::Checkpoint(ApplyFaultPoint::BackupChange(index as usize)),
        )
    }
}

/// The rollback of the files from `index` on begins. With all files rolled back, a
/// failed apply ends and a recovery goes on.
pub open spec fn begin_rollback(plan: Plan, index: int, apply: Option<TransactionFault>) -> Move {
    if index >= plan.changes.len() {
        match apply {
            Some(e) => end(Err(e)),
            None => begin_clearing(None),
        }
    } else {
        go(
            PhaseView::RollingBack { index, stage: FileStage::Before, apply },
            ActionView::Checkpoint(ApplyFaultPoint::RollbackChange(index as usize)),
        )
    }
}

/// What follows a survey of the source.
pub open spec fn surveyed(plan: Plan, recovering: bool, marks: Seq<MarkView>) -> Move {
    match source_state_spec(plan.changes, marks) {
        StateView::Baseline => if recovering {
            begin_clearing(None)
        } else {
            go(
                PhaseView::Creating { passed: false },
                ActionView::Checkpoint(ApplyFaultPoint::JournalCreate),
            )
        },
        StateView::Applied => go(
            PhaseView::Capturing {
                then: if recovering {
                    AfterCapture::Clear
                } else {
                    AfterCapture::Finish
                },
            },
            ActionView::CaptureSource,
        ),
        StateView::Partial => if recovering {
            begin_rollback(plan, 0, None)
        } else {
            end(
                Err(
                    TransactionFault::Invariant(
                        "source contains a partial apply without a recovery journal"@,
                    ),
                ),
            )
        },
        StateView::Drift { path, expected, actual, expected_mode, actual_mode } => end(
            Err(
                TransactionFault::BaselineDrift {
                    path,
                    expected,
                    actual,
                    expected_mode,
                    actual_mode,
                },
            ),
        ),
    }
}

/// A survey goes on with the next file, if there is one.
pub open spec fn go_surveying(plan: Plan, recovering: bool, marks: Seq<MarkView>) -> Move {
    if marks.len() >= plan.changes.len() {
        surveyed(plan, recovering, marks)
    } else {
        go(
            PhaseView::Surveying { recovering, marks },
            ActionView::Inspect(marks.len() as int),
        )
    }
}

/// Whether an event answers what a phase waits for.
pub open spec fn answers_phase(phase: PhaseView, event: EventView) -> bool {
    ||| event is Failed
    ||| match phase {
        PhaseView::Looking => event is Journal,
        PhaseView::Surveying { .. } => event is Mark,
        PhaseView::Capturing { .. } => event is Manifest,
        PhaseView::Landing { index, stage } => match stage {
            LandingStage::Inspect => event is Mark,
            LandingStage::Read => event is Content,
            _ => event is Done,
        },
        _ => event is Done,
    }
}

/// What a failure does.
pub open spec fn failed(plan: Plan, phase: PhaseView, e: TransactionFault) -> Move {
    match phase {
        PhaseView::Landing { index, stage } => begin_rollback(plan, 0, Some(e)),
        PhaseView::RollingBack { index, stage, apply: Some(a) } => end(
            Err(TransactionFault::RollbackFailed { apply: Box::new(a), rollback: Box::new(e) }),
        ),
        _ => end(Err(e)),
    }
}

/// The step after a source file was found, before it is changed.
pub open spec fn inspected(plan: Plan, index: int, mark: MarkView) -> Move {
    let c = plan.changes[index];
    if mark != mark_before(c) {
        begin_rollback(
            plan,
            0,
            Some(
                TransactionFault::BaselineDrift {
                    path: c.path,
                    expected: c.before_digest,
                    actual: mark.digest,
                    expected_mode: c.before_unix_mode,
                    actual_mode: mark.unix_mode,
                },
            ),
        )
    } else if c.after_digest is Some {
        go(
            PhaseView::Landing { index, stage: LandingStage::Read },
            ActionView::ReadCandidate(index),
        )
    } else {
        go(PhaseView::Landing { index, stage: LandingStage::Change }, ActionView::Remove(index))
    }
}

/// The step after a candidate file was read, whose digest is given.
pub open spec fn candidate_read(
    plan: Plan,
    index: int,
    content: Seq<u8>,
    actual: Seq<char>,
    mode: Option<u32>,
) -> Move {
    let c = plan.changes[index];
    if c.after_digest != Some(actual) || mode != c.after_unix_mode {
        begin_rollback(
            plan,
            0,
            Some(
                TransactionFault::CandidateDrift {
                    path: c.path,
                    expected: match c.after_digest {
                        Some(d) => d,
                        None => Seq::empty(),
                    },
                    actual,
                    expected_mode: c.after_unix_mode,
                    actual_mode: mode,
                },
            ),
        )
    } else {
        go(
            PhaseView::Landing { index, stage: LandingStage::Change },
            ActionView::Write { index, content, mode: c.after_unix_mode },
        )
    }
}

/// The step after an action of the rollback or of the backup of one file.
pub open spec fn passed_file(plan: Plan, phase: PhaseView) -> Move {
    match phase {
        PhaseView::BackingUp { index, stage } => match stage {
            FileStage::Before => go(
                PhaseView::BackingUp { index, stage: FileStage::Act },
                ActionView::Backup(index),
            ),
            FileStage::Act => go(
                PhaseView::BackingUp { index, stage: FileStage::After },
                ActionView::Checkpoint(ApplyFaultPoint::BackupChangeWritten(index as usize)),
            ),
            FileStage::After => begin_backup(plan, index + 1),
        },
        PhaseView::RollingBack { index, stage, apply } => match stage {
            FileStage::Before => go(
                PhaseView::RollingBack { index, stage: FileStage::Act, apply },
                if plan.changes[index].before_digest is Some {
                    ActionView::Restore { index, mode: plan.modes[index] }
                } else {
                    ActionView::RemoveAdded(index)
                },
            ),
            FileStage::Act => go(
                PhaseView::RollingBack { index, stage: FileStage::After, apply },
                ActionView::Checkpoint(ApplyFaultPoint::RollbackChangeWritten(index as usize)),
            ),
            FileStage::After => begin_rollback(plan, index + 1, apply),
        },
        PhaseView::Landing { index, stage } => match stage {
            LandingStage::Before => go(
                PhaseView::Landing { index, stage: LandingStage::Paths },
                ActionView::CheckPaths(index),
            ),
            LandingStage::Paths => go(
                PhaseView::Landing { index, stage: LandingStage::Inspect },
                ActionView::Inspect(index),
            ),
            LandingStage::Change => go(
                PhaseView::Landing { index, stage: LandingStage::After },
                ActionView::Checkpoint(ApplyFaultPoint::ApplyChangeWritten(index as usize)),
            ),
            _ => begin_landing(plan, index + 1),
        },
        PhaseView::Creating { passed } => if passed {
            begin_backup(plan, 0)
        } else {
            go(PhaseView::Creating { passed: true }, ActionView::CreateJournal)
        },
        PhaseView::Clearing { passed, outcome } => if !passed {
            go(PhaseView::Clearing { passed: true, outcome }, ActionView::RemoveJournal)
        } else {
            match outcome {
                Some(o) => end(Ok(o)),
                None => go_surveying(plan, false, Seq::empty()),
            }
        },
        _ => end(Err(TransactionFault::Invariant("apply has ended"@))),
    }
}

/// What an event does that answers what the phase waits for.
pub open spec fn answered(plan: Plan, phase: PhaseView, event: EventView) -> Move {
    match event {
        EventView::Failed(e) => failed(plan, phase, e),
        EventView::Journal(exists) => go_surveying(plan, exists, Seq::empty()),
        EventView::Mark(mark) => match phase {
            PhaseView::Surveying { recovering, marks } => go_surveying(
                plan,
                recovering,
                marks.push(mark),
            ),
            PhaseView::Landing { index, stage } => inspected(plan, index, mark),
            _ => end(Err(TransactionFault::Invariant("apply has ended"@))),
        },
        EventView::Content { bytes, mode } => match phase {
            PhaseView::Landing { index, stage } => candidate_read(
                plan,
                index,
                bytes,
                digest::blake3_hex(bytes),
                mode,
            ),
            _ => end(Err(TransactionFault::Invariant("apply has ended"@))),
        },
        EventView::Manifest(d) => {
            let o = OutcomeView {
                changed_files: plan.changes.len(),
                baseline_digest: plan.baseline_digest,
                resulting_digest: d,
            };
            match phase {
                PhaseView::Capturing { then: AfterCapture::Clear } => begin_clearing(Some(o)),
                _ => end(Ok(o)),
            }
        },
        EventView::Done => passed_file(plan, phase),
    }
}

/// The fault of an event that answers another action than the outstanding one.
pub open spec fn misfit() -> TransactionFault {
    TransactionFault::Invariant("apply received the answer to another action"@)
}

/// What an event does.
pub open spec fn step_spec(plan: Plan, phase: PhaseView, event: EventView) -> Move {
    if phase is Ended {
        end(Err(TransactionFault::Invariant("apply has ended"@)))
    } else if answers_phase(phase, event) {
        answered(plan, phase, event)
    } else {
        failed(plan, phase, misfit())
    }
}

/// An apply under way.
#[derive(Debug)]
pub struct ApplyMachine {
    changes: Vec<FileChange>,
    modes: Vec<Option<u32>>,
    baseline_digest: String,
    phase: Phase,
}

impl ApplyMachine {
    /// What the apply goes by.
    pub closed spec fn plan(self) -> Plan {
        Plan {
            changes: self.changes.deep_view(),
            modes: self.modes@,
            baseline_digest: self.baseline_digest@,
        }
    }

    /// Where the apply stands.
    pub closed spec fn phase_view(self) -> PhaseView {
        self.phase.deep_view()
    }

    /// Every file has its mode, and positions are those of files.
    #[verifier::type_invariant]
    closed spec fn consistent(self) -> bool {
        &&& self.modes@.len() == self.changes@.len()
        &&& self.changes@.len() < usize::MAX
        &&& phase_fits(self.changes.deep_view(), self.phase.deep_view())
    }
}

/// Whether the position that a phase names is that of a file.
pub open spec fn phase_fits(changes: Seq<ChangeView>, phase: PhaseView) -> bool {
    match phase {
        PhaseView::Surveying { recovering, marks } => marks.len() < changes.len(),
        PhaseView::BackingUp { index, stage } => 0 <= index < changes.len(),
        PhaseView::Landing { index, stage } => 0 <= index < changes.len() && (stage
            == LandingStage::Read ==> changes[index].after_digest is Some),
        PhaseView::RollingBack { index, stage, apply } => 0 <= index < changes.len(),
        _ => true,
    }
}

/// The modes that files get back in a rollback.
pub open spec fn restore_modes(changes: Seq<ChangeView>, baseline: Listing) -> Seq<Option<u32>> {
    Seq::new(
        changes.len(),
        |i: int|
            match manifest::listed(baseline, changes[i].path) {
                Some(f) => f.unix_mode,
                None => None,
            },
    )
}

/// What an apply of a change set goes by.
pub open spec fn plan_of(changes: Seq<ChangeView>, baseline: Listing, digest: Seq<char>) -> Plan {
    Plan { changes, modes: restore_modes(changes, baseline), baseline_digest: digest }
}

impl ApplyMachine {
    /// An apply of a change set to the source of a baseline; it begins with looking for
    /// a journal.
    pub fn start(changes: Vec<FileChange>, baseline: &FileTable, baseline_digest: &str) -> (r: (
        ApplyMachine,
        ApplyAction,
    ))
        requires
            changes@.len() < usize::MAX,
        ensures
            r.0.plan() == plan_of(changes.deep_view(), baseline.deep_view(), baseline_digest@),
            r.0.phase_view() is Looking,
            r.1.deep_view() is FindJournal,
    {
        let ghost cs = changes.deep_view();
        let mut modes: Vec<Option<u32>> = Vec::new();
        let mut i: usize = 0;
        while i < changes.len()
            invariant
                i <= changes@.len(),
                cs == changes.deep_view(),
                cs.len() == changes@.len(),
                modes@.len() == i,
                forall|k: int|
                    0 <= k < i ==> #[trigger] modes@[k] == restore_modes(
                        cs,
                        baseline.deep_view(),
                    )[k],
            decreases changes@.len() - i,
        {
            assert(cs[i as int] == changes@[i as int].deep_view());
            let mode = match baseline.get(changes[i].path.as_str()) {
                Some(f) => f.unix_mode,
                None => None,
            };
            modes.push(mode);
            i += 1;
        }
        assert(modes@ =~= restore_modes(cs, baseline.deep_view()));
        let machine = ApplyMachine {
            changes,
            modes,
            baseline_digest: baseline_digest.to_owned(),
            phase: Phase::Looking,
        };
        (machine, ApplyAction::FindJournal)
    }

    fn at(self, phase: Phase, action: ApplyAction) -> (r: (ApplyMachine, ApplyProgress))
        requires
            phase_fits(self.plan().changes, phase.deep_view()),
        ensures
            r.0.plan() == self.plan(),
            r.0.phase_view() == phase.deep_view(),
            r.1.deep_view() == ProgressView::Next(action.deep_view()),
    {
        proof {
            use_type_invariant(&self);
        }
        let machine = ApplyMachine {
            changes: self.changes,
            modes: self.modes,
            baseline_digest: self.baseline_digest,
            phase,
        };
        (machine, ApplyProgress::Next(action))
    }

    fn ended(self, result: Result<ApplyOutcome, TransactionError>) -> (r: (
        ApplyMachine,
        ApplyProgress,
    ))
        ensures
            r.0.plan() == self.plan(),
            r.0.phase_view() is Ended,
            r.1.deep_view() == ProgressView::Finished(outcome::of(result)),
    {
        proof {
            use_type_invariant(&self);
        }
        let machine = ApplyMachine {
            changes: self.changes,
            modes: self.modes,
            baseline_digest: self.baseline_digest,
            phase: Phase::Ended,
        };
        (machine, ApplyProgress::Finished(result))
    }

    fn clear(self, outcome: Option<ApplyOutcome>) -> (r: (ApplyMachine, ApplyProgress))
        ensures
            r.0.plan() == self.plan(),
            (Move { phase: r.0.phase_view(), progress: r.1.deep_view() }) == begin_clearing(
                outcome.deep_view(),
            ),
    {
        self.at(
            Phase::Clearing { passed: false, outcome },
            ApplyAction::Checkpoint(ApplyFaultPoint::JournalCleanup),
        )
    }

    fn land(self, index: usize) -> (r: (ApplyMachine, ApplyProgress))
        ensures
            r.0.plan() == self.plan(),
            (Move { phase: r.0.phase_view(), progress: r.1.deep_view() }) == begin_landing(
                self.plan(),
                index as int,
            ),
    {
        assert(self.changes.deep_view().len() == self.changes@.len());
        if index >= self.changes.len() {
            self.at(Phase::Capturing { then: AfterCapture::Clear }, ApplyAction::CaptureSource)
        } else {
            self.at(
                Phase::Landing { index, stage: LandingStage::Before },
                ApplyAction::Checkpoint(ApplyFaultPoint::ApplyChange(index)),
            )
        }
    }

    fn back_up(self, from: usize) -> (r: (ApplyMachine, ApplyProgress))
        ensures
            r.0.plan() == self.plan(),
            (Move { phase: r.0.phase_view(), progress: r.1.deep_view() }) == begin_backup(
                self.plan(),
                from as int,
            ),
    {
        let ghost plan = self.plan();
        let mut index: usize = from;
        assert(self.changes.deep_view().len() == self.changes@.len());
        while index < self.changes.len() && self.changes[index].before_digest.is_none()
            invariant
                plan == self.plan(),
                plan.changes == self.changes.deep_view(),
                plan.changes.len() == self.changes@.len(),
                begin_backup(plan, from as int) == begin_backup(plan, index as int),
            decreases self.changes@.len() - index,
        {
            assert(plan.changes[index as int] == self.changes@[index as int].deep_view());
            index += 1;
        }
        if index >= self.changes.len() {
            return self.land(0);
        }
        assert(plan.changes[index as int] == self.changes@[index as int].deep_view());
        self.at(
            Phase::BackingUp { index, stage: FileStage::Before },
            ApplyAction::Checkpoint(ApplyFaultPoint::BackupChange(index)),
        )
    }

    fn roll_back(self, index: usize, apply: Option<TransactionError>) -> (r: (
        ApplyMachine,
        ApplyProgress,
    ))
        ensures
            r.0.plan() == self.plan(),
            (Move { phase: r.0.phase_view(), progress: r.1.deep_view() }) == begin_rollback(
                self.plan(),
                index as int,
                apply.deep_view(),
            ),
    {
        assert(self.changes.deep_view().len() == self.changes@.len());
        if index >= self.changes.len() {
            match apply {
                Some(e) => self.ended(Err(e)),
                None => self.clear(None),
            }
        } else {
            self.at(
                Phase::RollingBack { index, stage: FileStage::Before, apply },
                ApplyAction::Checkpoint(ApplyFaultPoint::RollbackChange(index)),
            )
        }
    }

    fn survey(self, recovering: bool, marks: Vec<ChangeFingerprint>) -> (r: (
        ApplyMachine,
        ApplyProgress,
    ))
        requires
            marks@.len() <= self.plan().changes.len(),
        ensures
            r.0.plan() == self.plan(),
            (Move { phase: r.0.phase_view(), progress: r.1.deep_view() }) == go_surveying(
                self.plan(),
                recovering,
                marks.deep_view(),
            ),
    {
        assert(self.changes.deep_view().len() == self.changes@.len());
        assert(marks.deep_view().len() == marks@.len());
        let count: usize = marks.len();
        if count < self.changes.len() {
            return self.at(
                Phase::Surveying { recovering, marks },
                ApplyAction::Inspect(count),
            );
        }
        match source_state(&self.changes, &marks) {
            SourceState::Baseline => if recovering {
                self.clear(None)
            } else {
                self.at(
                    Phase::Creating { passed: false },
                    ApplyAction::Checkpoint(ApplyFaultPoint::JournalCreate),
                )
            },
            SourceState::Applied => {
                let then = if recovering {
                    AfterCapture::Clear
                } else {
                    AfterCapture::Finish
                };
                self.at(Phase::Capturing { then }, ApplyAction::CaptureSource)
            },
            SourceState::Partial => if recovering {
                self.roll_back(0, None)
            } else {
                self.ended(
                    Err(
                        TransactionError::Invariant(
                            "source contains a partial apply without a recovery journal".to_owned(),
                        ),
                    ),
                )
            },
            SourceState::Drift { path, expected, actual, expected_mode, actual_mode } => self.ended(
                Err(
                    TransactionError::BaselineDrift {
                        path,
                        expected,
                        actual,
                        expected_mode,
                        actual_mode,
                    },
                ),
            ),
        }
    }

    fn fail(self, phase: Phase, e: TransactionError) -> (r: (ApplyMachine, ApplyProgress))
        ensures
            r.0.plan() == self.plan(),
            (Move { phase: r.0.phase_view(), progress: r.1.deep_view() }) == failed(
                self.plan(),
                phase.deep_view(),
                e.deep_view(),
            ),
    {
        match phase {
            Phase::Landing { .. } => self.roll_back(0, Some(e)),
            Phase::RollingBack { index, stage, apply } => match apply {
                Some(a) => self.ended(
                    Err(
                        TransactionError::RollbackFailed {
                            apply: Box::new(a),
                            rollback: Box::new(e),
                        },
                    ),
                ),
                None => self.ended(Err(e)),
            },
            _ => self.ended(Err(e)),
        }
    }

    /// The step after the source file of change `index` was found.
    fn inspect(self, index: usize, mark: ChangeFingerprint) -> (r: (ApplyMachine, ApplyProgress))
        requires
            index < self.plan().changes.len(),
        ensures
            r.0.plan() == self.plan(),
            (Move { phase: r.0.phase_view(), progress: r.1.deep_view() }) == inspected(
                self.plan(),
                index as int,
                mark.deep_view(),
            ),
    {
        let change = &self.changes[index];
        assert(self.plan().changes[index as int] == change.deep_view());
        if !mark.is_before(change) {
            let drift = TransactionError::BaselineDrift {
                path: change.path.clone(),
                expected: text::copy_option(&change.before_digest),
                actual: mark.digest,
                expected_mode: change.before_unix_mode,
                actual_mode: mark.unix_mode,
            };
            return self.roll_back(0, Some(drift));
        }
        if change.after_digest.is_some() {
            self.at(
                Phase::Landing { index, stage: LandingStage::Read },
                ApplyAction::ReadCandidate(index),
            )
        } else {
            self.at(
                Phase::Landing { index, stage: LandingStage::Change },
                ApplyAction::Remove(index),
            )
        }
    }

    /// The step after the candidate file of change `index` was read, whose digest is
    /// given.
    pub fn take_candidate(
        self,
        index: usize,
        content: Vec<u8>,
        actual: String,
        mode: Option<u32>,
    ) -> (r: (ApplyMachine, ApplyProgress))
        requires
            index < self.plan().changes.len(),
            self.plan().changes[index as int].after_digest is Some,
        ensures
            r.0.plan() == self.plan(),
            (Move { phase: r.0.phase_view(), progress: r.1.deep_view() }) == candidate_read(
                self.plan(),
                index as int,
                content@,
                actual@,
                mode,
            ),
    {
        let change = &self.changes[index];
        assert(self.plan().changes[index as int] == change.deep_view());
        let expected = match &change.after_digest {
            Some(d) => d.clone(),
            None => String::new(),
        };
        let after_mode = change.after_unix_mode;
        if !text::same(expected.as_str(), actual.as_str()) || !manifest::same_mode(
            mode,
            after_mode,
        ) {
            let drift = TransactionError::CandidateDrift {
                path: change.path.clone(),
                expected,
                actual,
                expected_mode: after_mode,
                actual_mode: mode,
            };
            return self.roll_back(0, Some(drift));
        }
        self.at(
            Phase::Landing { index, stage: LandingStage::Change },
            ApplyAction::Write { index, content, mode: after_mode },
        )
    }

    /// The step after an action that brought nothing back.
    fn pass(self, phase: Phase) -> (r: (ApplyMachine, ApplyProgress))
        requires
            phase_fits(self.plan().changes, phase.deep_view()),
        ensures
            r.0.plan() == self.plan(),
            (Move { phase: r.0.phase_view(), progress: r.1.deep_view() }) == passed_file(
                self.plan(),
                phase.deep_view(),
            ),
    {
        proof {
            use_type_invariant(&self);
            assert(self.changes.deep_view().len() == self.changes@.len());
        }
        match phase {
            Phase::BackingUp { index, stage } => match stage {
                FileStage::Before => self.at(
                    Phase::BackingUp { index, stage: FileStage::Act },
                    ApplyAction::Backup(index),
                ),
                FileStage::Act => self.at(
                    Phase::BackingUp { index, stage: FileStage::After },
                    ApplyAction::Checkpoint(ApplyFaultPoint::BackupChangeWritten(index)),
                ),
                FileStage::After => self.back_up(index + 1),
            },
            Phase::RollingBack { index, stage, apply } => match stage {
                FileStage::Before => {
                    assert(self.plan().changes[index as int]
                        == self.changes@[index as int].deep_view());
                    let action = if self.changes[index].before_digest.is_some() {
                        ApplyAction::Restore { index, mode: self.modes[index] }
                    } else {
                        ApplyAction::RemoveAdded(index)
                    };
                    self.at(Phase::RollingBack { index, stage: FileStage::Act, apply }, action)
                },
                FileStage::Act => self.at(
                    Phase::RollingBack { index, stage: FileStage::After, apply },
                    ApplyAction::Checkpoint(ApplyFaultPoint::RollbackChangeWritten(index)),
                ),
                FileStage::After => self.roll_back(index + 1, apply),
            },
            Phase::Landing { index, stage } => match stage {
                LandingStage::Before => self.at(
                    Phase::Landing { index, stage: LandingStage::Paths },
                    ApplyAction::CheckPaths(index),
                ),
                LandingStage::Paths => self.at(
                    Phase::Landing { index, stage: LandingStage::Inspect },
                    ApplyAction::Inspect(index),
                ),
                LandingStage::Change => self.at(
                    Phase::Landing { index, stage: LandingStage::After },
                    ApplyAction::Checkpoint(ApplyFaultPoint::ApplyChangeWritten(index)),
                ),
                _ => self.land(index + 1),
            },
            Phase::Creating { passed } => if passed {
                self.back_up(0)
            } else {
                self.at(Phase::Creating { passed: true }, ApplyAction::CreateJournal)
            },
            Phase::Clearing { passed, outcome } => if !passed {
                self.at(Phase::Clearing { passed: true, outcome }, ApplyAction::RemoveJournal)
            } else {
                match outcome {
                    Some(o) => self.ended(Ok(o)),
                    None => {
                        let marks: Vec<ChangeFingerprint> = Vec::new();
                        assert(marks.deep_view() =~= Seq::<MarkView>::empty());
                        self.survey(false, marks)
                    },
                }
            },
            _ => self.ended(Err(TransactionError::Invariant("apply has ended".to_owned()))),
        }
    }

    /// Takes what came of the outstanding action, and says what is to be done next.
    pub fn step(self, event: ApplyEvent) -> (r: (ApplyMachine, ApplyProgress))
        ensures
            r.0.plan() == self.plan(),
            (Move { phase: r.0.phase_view(), progress: r.1.deep_view() }) == step_spec(
                self.plan(),
                self.phase_view(),
                event.deep_view(),
            ),
    {
        proof {
            use_type_invariant(&self);
            assert(self.changes.deep_view().len() == self.changes@.len());
        }
        let ghost plan = self.plan();
        let ApplyMachine { changes, modes, baseline_digest, phase } = self;
        let machine = ApplyMachine { changes, modes, baseline_digest, phase: Phase::Ended };
        assert(machine.plan() == plan);
        if let Phase::Ended = phase {
            return machine.ended(Err(TransactionError::Invariant("apply has ended".to_owned())));
        }
        match event {
            ApplyEvent::Failed(e) => machine.fail(phase, e),
            ApplyEvent::Journal(exists) => match phase {
                Phase::Looking => {
                    let marks: Vec<ChangeFingerprint> = Vec::new();
                    assert(marks.deep_view() =~= Seq::<MarkView>::empty());
                    machine.survey(exists, marks)
                },
                other => machine.refuse(other),
            },
            ApplyEvent::Mark(mark) => match phase {
                Phase::Surveying { recovering, marks } => {
                    let ghost before = marks.deep_view();
                    let ghost m = mark.deep_view();
                    assert(before.len() == marks@.len());
                    let mut marks = marks;
                    marks.push(mark);
                    assert(marks.deep_view() =~= before.push(m));
                    machine.survey(recovering, marks)
                },
                Phase::Landing { index, stage: LandingStage::Inspect } => machine.inspect(
                    index,
                    mark,
                ),
                other => machine.refuse(other),
            },
            ApplyEvent::Content { bytes, mode } => match phase {
                Phase::Landing { index, stage: LandingStage::Read } => {
                    let actual = digest::content_digest(bytes.as_slice());
                    machine.take_candidate(index, bytes, actual, mode)
                },
                other => machine.refuse(other),
            },
            ApplyEvent::Manifest(resulting) => match phase {
                Phase::Capturing { then } => {
                    let outcome = ApplyOutcome {
                        changed_files: machine.changes.len(),
                        baseline_digest: machine.baseline_digest.clone(),
                        resulting_digest: resulting,
                    };
                    match then {
                        AfterCapture::Clear => machine.clear(Some(outcome)),
                        AfterCapture::Finish => machine.ended(Ok(outcome)),
                    }
                },
                other => machine.refuse(other),
            },
            ApplyEvent::Done => {
                let fits = match &phase {
                    Phase::Looking => false,
                    Phase::Surveying { .. } => false,
                    Phase::Capturing { .. } => false,
                    Phase::Landing { index, stage } => match stage {
                        LandingStage::Inspect => false,
                        LandingStage::Read => false,
                        _ => true,
                    },
                    _ => true,
                };
                if fits {
                    machine.pass(phase)
                } else {
                    machine.refuse(phase)
                }
            },
        }
    }

    fn refuse(self, phase: Phase) -> (r: (ApplyMachine, ApplyProgress))
        ensures
            r.0.plan() == self.plan(),
            (Move { phase: r.0.phase_view(), progress: r.1.deep_view() }) == failed(
                self.plan(),
                phase.deep_view(),
                misfit(),
            ),
    {
        self.fail(
            phase,
            TransactionError::Invariant("apply received the answer to another action".to_owned()),
        )
    }
}

} // verus!
