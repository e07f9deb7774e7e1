//! What holds of every apply, wherever it is interrupted.

use crate::digest;
use crate::text;
use crate::workspace::apply;
use crate::workspace::apply::{
    ActionView, AfterCapture, ApplyFaultPoint, EventView, FileStage, LandingStage, MarkView, Move,
    OutcomeView, PhaseView, Plan, ProgressView,
};
use crate::workspace::changes;
use crate::workspace::changes::ChangeView;
use crate::workspace::error::TransactionFault;
use crate::workspace::manifest::Listing;
use vstd::prelude::*;

verus! {

/// A regular file.
pub struct FileState {
    pub content: Seq<u8>,
    pub mode: Option<u32>,
}

/// The files that an apply deals with: the source, the candidate and, if it exists,
/// the journal.
pub struct Disk {
    pub source: Map<Seq<char>, FileState>,
    pub candidate: Map<Seq<char>, FileState>,
    pub journal: Option<Map<Seq<char>, Seq<u8>>>,
}

/// What a file, which may be missing, is known by.
pub open spec fn mark_of(files: Map<Seq<char>, FileState>, path: Seq<char>) -> MarkView {
    if files.contains_key(path) {
        MarkView {
            digest: Some(digest::blake3_hex(files[path].content)),
            unix_mode: files[path].mode,
        }
    } else {
        MarkView { digest: None, unix_mode: None }
    }
}

/// What the source file of a change is known by.
pub open spec fn mark_at(plan: Plan, d: Disk, i: int) -> MarkView {
    mark_of(d.source, plan.changes[i].path)
}

/// Whether the source file of a change is as before.
pub open spec fn at_before(plan: Plan, d: Disk, i: int) -> bool {
    mark_at(plan, d, i) == apply::mark_before(plan.changes[i])
}

/// Whether the source file of a change is as after.
pub open spec fn at_after(plan: Plan, d: Disk, i: int) -> bool {
    mark_at(plan, d, i) == apply::mark_after(plan.changes[i])
}

/// Whether the source is the baseline, as far as the change set goes.
pub open spec fn is_baseline(plan: Plan, d: Disk) -> bool {
    forall|i: int| 0 <= i < plan.changes.len() ==> #[trigger] at_before(plan, d, i)
}

/// Whether the change set has landed.
pub open spec fn is_landed(plan: Plan, d: Disk) -> bool {
    forall|i: int| 0 <= i < plan.changes.len() ==> #[trigger] at_after(plan, d, i)
}

/// Whether every source file of the change set is as before or as after.
pub open spec fn is_known(plan: Plan, d: Disk) -> bool {
    forall|i: int|
        0 <= i < plan.changes.len() ==> #[trigger] at_before(plan, d, i) || at_after(plan, d, i)
}

/// Whether nothing is half done.
pub open spec fn at_rest(plan: Plan, d: Disk) -> bool {
    is_baseline(plan, d) || is_landed(plan, d)
}

/// Whether the journal holds a copy of change `i`'s file, where there was one.
pub open spec fn saved(plan: Plan, journal: Map<Seq<char>, Seq<u8>>, i: int) -> bool {
    match plan.changes[i].before_digest {
        Some(h) => journal.contains_key(plan.changes[i].path) && digest::blake3_hex(
            journal[plan.changes[i].path],
        ) == h,
        None => true,
    }
}

/// Whether the journal holds copies of the first `n` files.
pub open spec fn backed_up(plan: Plan, journal: Map<Seq<char>, Seq<u8>>, n: int) -> bool {
    forall|i: int| 0 <= i < n ==> #[trigger] saved(plan, journal, i)
}

/// Whether another apply can take up what this one leaves: where files are half done,
/// a journal holds all that is needed to undo it.
pub open spec fn recoverable(plan: Plan, d: Disk) -> bool {
    match d.journal {
        Some(j) => is_known(plan, d) && !at_rest(plan, d) ==> backed_up(
            plan,
            j,
            plan.changes.len() as int,
        ),
        None => true,
    }
}

/// Whether a plan is one that a change set from a baseline makes.
pub open spec fn lawful(plan: Plan) -> bool {
    &&& changes::ordered(plan.changes)
    &&& plan.modes.len() == plan.changes.len()
    &&& plan.changes.len() < usize::MAX
    &&& forall|i: int|
        0 <= i < plan.changes.len() ==> {
            let c = #[trigger] plan.changes[i];
            &&& c.before_digest is Some ==> plan.modes[i] == c.before_unix_mode
            &&& c.before_digest is None ==> c.before_unix_mode is None
            &&& c.after_digest is None ==> c.after_unix_mode is None
        }
}

/// A change set between two snapshots makes a lawful plan.
pub proof fn lemma_change_sets_are_lawful(
    baseline: Listing,
    current: Listing,
    cs: Seq<ChangeView>,
    baseline_digest: Seq<char>,
)
    requires
        changes::is_change_set(baseline, current, cs),
        cs.len() < usize::MAX,
    ensures
        lawful(apply::plan_of(cs, baseline, baseline_digest)),
{
    let plan = apply::plan_of(cs, baseline, baseline_digest);
    assert forall|i: int| 0 <= i < plan.changes.len() implies {
        let c = #[trigger] plan.changes[i];
        &&& c.before_digest is Some ==> plan.modes[i] == c.before_unix_mode
        &&& c.before_digest is None ==> c.before_unix_mode is None
        &&& c.after_digest is None ==> c.after_unix_mode is None
    } by {
        assert(changes::change_at(baseline, current, cs[i].path) == Some(cs[i]));
    }
}

/// The path of change `i` is that of no other.
pub proof fn lemma_paths_differ(plan: Plan, i: int, k: int)
    requires
        lawful(plan),
        0 <= i < plan.changes.len(),
        0 <= k < plan.changes.len(),
        i != k,
    ensures
        plan.changes[i].path != plan.changes[k].path,
{
    text::lemma_precedes_irreflexive(plan.changes[i].path);
    if i < k {
        assert(text::precedes(plan.changes[i].path, plan.changes[k].path));
    } else {
        assert(text::precedes(plan.changes[k].path, plan.changes[i].path));
    }
}

/// The disk with another source file at a path, or none.
pub open spec fn with_source(d: Disk, path: Seq<char>, file: Option<FileState>) -> Disk {
    Disk {
        source: match file {
            Some(f) => d.source.insert(path, f),
            None => d.source.remove(path),
        },
        ..d
    }
}

/// Whether an action can leave the disk as `after` and be answered by `event`. Every
/// action can fail. One that replaces or removes a file does so as a whole or not at
/// all; copying into the journal and removing it can stop half way.
pub open spec fn can_answer(
    plan: Plan,
    before: Disk,
    action: ActionView,
    after: Disk,
    event: EventView,
) -> bool {
    match action {
        ActionView::Checkpoint(_) | ActionView::CheckPaths(_) => after == before && (event is Done
            || event is Failed),
        ActionView::FindJournal => after == before && event == EventView::Journal(
            before.journal is Some,
        ),
        ActionView::Inspect(i) => after == before && (event == EventView::Mark(
            mark_at(plan, before, i),
        ) || event is Failed),
        ActionView::CreateJournal => (event is Done && after == (Disk {
            journal: match before.journal {
                Some(j) => Some(j),
                None => Some(Map::empty()),
            },
            ..before
        })) || (event is Failed && after == before),
        ActionView::Backup(i) => {
            let path = plan.changes[i].path;
            &&& before.journal is Some
            &&& after.journal is Some
            &&& after.source == before.source
            &&& after.candidate == before.candidate
            &&& forall|p: Seq<char>|
                #![trigger after.journal->0.contains_key(p)]
                p != path ==> (after.journal->0.contains_key(p)
                    == before.journal->0.contains_key(p)) && after.journal->0[p]
                    == before.journal->0[p]
            &&& event is Failed || (event is Done && before.source.contains_key(path)
                && after.journal->0.contains_key(path) && after.journal->0[path]
                == before.source[path].content)
        },
        ActionView::ReadCandidate(i) => {
            let path = plan.changes[i].path;
            after == before && (event is Failed || (before.candidate.contains_key(path) && event
                == (EventView::Content {
                bytes: before.candidate[path].content,
                mode: before.candidate[path].mode,
            })))
        },
        ActionView::Write { index, content, mode } => (event is Done && after == with_source(
            before,
            plan.changes[index].path,
            Some(FileState { content, mode }),
        )) || (event is Failed && after == before),
        ActionView::Remove(i) | ActionView::RemoveAdded(i) => (event is Done && after
            == with_source(before, plan.changes[i].path, None)) || (event is Failed && after
            == before),
        ActionView::Restore { index, mode } => {
            let path = plan.changes[index].path;
            (event is Done && before.journal is Some && before.journal->0.contains_key(path)
                && after == with_source(
                before,
                path,
                Some(FileState { content: before.journal->0[path], mode }),
            )) || (event is Failed && after == before)
        },
        ActionView::CaptureSource => after == before && (event is Manifest || event is Failed),
        ActionView::RemoveJournal => after.source == before.source && after.candidate
            == before.candidate && ((event is Done && after.journal is None) || event is Failed),
    }
}

/// The first file that a survey has yet to see, and what it has seen so far.
pub open spec fn seen_rightly(plan: Plan, d: Disk, marks: Seq<MarkView>) -> bool {
    forall|k: int| 0 <= k < marks.len() ==> #[trigger] marks[k] == mark_at(plan, d, k)
}

/// The action of a stage of the landing.
pub open spec fn landing_action(plan: Plan, index: int, stage: LandingStage, a: ActionView) -> bool {
    let c = plan.changes[index];
    match stage {
        LandingStage::Before => a == ActionView::Checkpoint(
            ApplyFaultPoint::ApplyChange(index as usize),
        ),
        LandingStage::Paths => a == ActionView::CheckPaths(index),
        LandingStage::Inspect => a == ActionView::Inspect(index),
        LandingStage::Read => c.after_digest is Some && a == ActionView::ReadCandidate(index),
        LandingStage::Change => match c.after_digest {
            Some(h) => match a {
                ActionView::Write { index: i, content, mode } => i == index && digest::blake3_hex(
                    content,
                ) == h && mode == c.after_unix_mode,
                _ => false,
            },
            None => a == ActionView::Remove(index),
        },
        LandingStage::After => a == ActionView::Checkpoint(
            ApplyFaultPoint::ApplyChangeWritten(index as usize),
        ),
    }
}

/// Whether an apply and the disk agree.
pub open spec fn sound(plan: Plan, m: Move, d: Disk) -> bool {
    &&& lawful(plan)
    &&& recoverable(plan, d)
    &&& match (m.phase, m.progress) {
        (PhaseView::Looking, ProgressView::Next(a)) => a == ActionView::FindJournal,
        (PhaseView::Surveying { recovering, marks }, ProgressView::Next(a)) => {
            &&& marks.len() < plan.changes.len()
            &&& a == ActionView::Inspect(marks.len() as int)
            &&& seen_rightly(plan, d, marks)
            &&& recovering == (d.journal is Some)
        },
        (PhaseView::Capturing { then }, ProgressView::Next(a)) => {
            &&& a == ActionView::CaptureSource
            &&& is_landed(plan, d)
            &&& then == AfterCapture::Finish ==> d.journal is None
        },
        (PhaseView::Clearing { passed, outcome }, ProgressView::Next(a)) => {
            &&& a == (if passed {
                ActionView::RemoveJournal
            } else {
                ActionView::Checkpoint(ApplyFaultPoint::JournalCleanup)
            })
            &&& outcome is Some ==> is_landed(plan, d)
            &&& outcome is None ==> is_baseline(plan, d)
        },
        (PhaseView::Creating { passed }, ProgressView::Next(a)) => {
            &&& a == (if passed {
                ActionView::CreateJournal
            } else {
                ActionView::Checkpoint(ApplyFaultPoint::JournalCreate)
            })
            &&& is_baseline(plan, d)
        },
        (PhaseView::BackingUp { index, stage }, ProgressView::Next(a)) => {
            &&& 0 <= index < plan.changes.len()
            &&& plan.changes[index].before_digest is Some
            &&& is_baseline(plan, d)
            &&& d.journal is Some
            &&& backed_up(
                plan,
                d.journal->0,
                if stage == FileStage::After {
                    index + 1
                } else {
                    index
                },
            )
            &&& a == (match stage {
                FileStage::Before => ActionView::Checkpoint(
                    ApplyFaultPoint::BackupChange(index as usize),
                ),
                FileStage::Act => ActionView::Backup(index),
                FileStage::After => ActionView::Checkpoint(
                    ApplyFaultPoint::BackupChangeWritten(index as usize),
                ),
            })
        },
        (PhaseView::Landing { index, stage }, ProgressView::Next(a)) => {
            &&& 0 <= index < plan.changes.len()
            &&& d.journal is Some
            &&& backed_up(plan, d.journal->0, plan.changes.len() as int)
            &&& forall|k: int| 0 <= k < index ==> #[trigger] at_after(plan, d, k)
            &&& forall|k: int|
                index < k < plan.changes.len() ==> #[trigger] at_before(plan, d, k)
            &&& if stage == LandingStage::After {
                at_after(plan, d, index)
            } else {
                at_before(plan, d, index)
            }
            &&& landing_action(plan, index, stage, a)
        },
        (PhaseView::RollingBack { index, stage, apply }, ProgressView::Next(a)) => {
            &&& 0 <= index < plan.changes.len()
            &&& d.journal is Some
            &&& backed_up(plan, d.journal->0, plan.changes.len() as int)
            &&& is_known(plan, d)
            &&& forall|k: int| 0 <= k < index ==> #[trigger] at_before(plan, d, k)
            &&& stage == FileStage::After ==> at_before(plan, d, index)
            &&& a == (match stage {
                FileStage::Before => ActionView::Checkpoint(
                    ApplyFaultPoint::RollbackChange(index as usize),
                ),
                FileStage::Act => if plan.changes[index].before_digest is Some {
                    ActionView::Restore { index, mode: plan.modes[index] }
                } else {
                    ActionView::RemoveAdded(index)
                },
                FileStage::After => ActionView::Checkpoint(
                    ApplyFaultPoint::RollbackChangeWritten(index as usize),
                ),
            })
        },
        (PhaseView::Ended, ProgressView::Finished(r)) => {
            &&& r is Ok ==> is_landed(plan, d) && d.journal is None
        },
        _ => false,
    }
}

pub proof fn lemma_states(plan: Plan, d: Disk, marks: Seq<MarkView>)
    requires
        marks.len() == plan.changes.len(),
        seen_rightly(plan, d, marks),
    ensures
        apply::all_before(plan.changes, marks) == is_baseline(plan, d),
        apply::all_after(plan.changes, marks) == is_landed(plan, d),
        apply::all_known(plan.changes, marks) == is_known(plan, d),
{
    assert forall|i: int| 0 <= i < plan.changes.len() implies #[trigger] marks[i] == mark_at(
        plan,
        d,
        i,
    ) by {}
    if is_baseline(plan, d) {
        assert forall|i: int| 0 <= i < plan.changes.len() implies marks[i] == apply::mark_before(
            #[trigger] plan.changes[i],
        ) by {
            assert(at_before(plan, d, i));
        }
    }
    if apply::all_before(plan.changes, marks) {
        assert forall|i: int| 0 <= i < plan.changes.len() implies #[trigger] at_before(
            plan,
            d,
            i,
        ) by {
            assert(marks[i] == apply::mark_before(plan.changes[i]));
        }
    }
    if is_landed(plan, d) {
        assert forall|i: int| 0 <= i < plan.changes.len() implies marks[i] == apply::mark_after(
            #[trigger] plan.changes[i],
        ) by {
            assert(at_after(plan, d, i));
        }
    }
    if apply::all_after(plan.changes, marks) {
        assert forall|i: int| 0 <= i < plan.changes.len() implies #[trigger] at_after(
            plan,
            d,
            i,
        ) by {
            assert(marks[i] == apply::mark_after(plan.changes[i]));
        }
    }
    if is_known(plan, d) {
        assert forall|i: int| 0 <= i < plan.changes.len() implies apply::is_known(
            #[trigger] plan.changes[i],
            marks[i],
        ) by {
            assert(at_before(plan, d, i) || at_after(plan, d, i));
        }
    }
    if apply::all_known(plan.changes, marks) {
        assert forall|i: int| 0 <= i < plan.changes.len() implies #[trigger] at_before(plan, d, i)
            || at_after(plan, d, i) by {
            assert(apply::is_known(plan.changes[i], marks[i]));
        }
    }
}

proof fn lemma_begin_landing(plan: Plan, d: Disk, index: int)
    requires
        lawful(plan),
        0 <= index <= plan.changes.len(),
        d.journal is Some,
        backed_up(plan, d.journal->0, plan.changes.len() as int),
        forall|k: int| 0 <= k < index ==> #[trigger] at_after(plan, d, k),
        forall|k: int| index <= k < plan.changes.len() ==> #[trigger] at_before(plan, d, k),
    ensures
        sound(plan, apply::begin_landing(plan, index), d),
{
}

proof fn lemma_begin_backup(plan: Plan, d: Disk, index: int)
    requires
        lawful(plan),
        0 <= index <= plan.changes.len(),
        d.journal is Some,
        backed_up(plan, d.journal->0, index),
        is_baseline(plan, d),
    ensures
        sound(plan, apply::begin_backup(plan, index), d),
    decreases plan.changes.len() - index,
{
    if index == plan.changes.len() {
        lemma_begin_landing(plan, d, 0);
    } else if plan.changes[index].before_digest is None {
        assert(saved(plan, d.journal->0, index));
        lemma_begin_backup(plan, d, index + 1);
    }
}

proof fn lemma_begin_rollback(plan: Plan, d: Disk, index: int, apply_error: Option<TransactionFault>)
    requires
        lawful(plan),
        0 <= index <= plan.changes.len(),
        d.journal is Some,
        backed_up(plan, d.journal->0, plan.changes.len() as int),
        is_known(plan, d),
        forall|k: int| 0 <= k < index ==> #[trigger] at_before(plan, d, k),
    ensures
        sound(plan, apply::begin_rollback(plan, index, apply_error), d),
{
}

proof fn lemma_surveying(plan: Plan, d: Disk, marks: Seq<MarkView>)
    requires
        lawful(plan),
        recoverable(plan, d),
        marks.len() <= plan.changes.len(),
        seen_rightly(plan, d, marks),
    ensures
        sound(plan, apply::go_surveying(plan, d.journal is Some, marks), d),
{
    if marks.len() == plan.changes.len() {
        lemma_states(plan, d, marks);
        if is_known(plan, d) && !at_rest(plan, d) && d.journal is Some {
            lemma_begin_rollback(plan, d, 0, None);
        }
    }
}

/// Changing the source file of one change leaves the others as they are.
proof fn lemma_others_stay(plan: Plan, d: Disk, index: int, file: Option<FileState>)
    requires
        lawful(plan),
        0 <= index < plan.changes.len(),
    ensures
        forall|k: int|
            0 <= k < plan.changes.len() && k != index ==> #[trigger] mark_at(
                plan,
                with_source(d, plan.changes[index].path, file),
                k,
            ) == mark_at(plan, d, k),
{
    assert forall|k: int| 0 <= k < plan.changes.len() && k != index implies #[trigger] mark_at(
        plan,
        with_source(d, plan.changes[index].path, file),
        k,
    ) == mark_at(plan, d, k) by {
        lemma_paths_differ(plan, index, k);
    }
}

proof fn lemma_landing_step(
    plan: Plan,
    m: Move,
    d: Disk,
    d2: Disk,
    event: EventView,
)
    requires
        sound(plan, m, d),
        m.phase is Landing,
        m.progress is Next,
        can_answer(plan, d, m.progress->Next_0, d2, event),
    ensures
        sound(plan, apply::step_spec(plan, m.phase, event), d2),
{
    if let PhaseView::Landing { index, stage } = m.phase {
        let a = m.progress->Next_0;
        let n = plan.changes.len() as int;
        if event is Failed {
            assert(d2 == d);
            assert(is_known(plan, d));
            lemma_begin_rollback(plan, d, 0, Some(event->Failed_0));
        } else if stage == LandingStage::Inspect {
            let mark = mark_at(plan, d, index);
            assert(mark == apply::mark_before(plan.changes[index]));
        } else if stage == LandingStage::Read {
            assert(is_known(plan, d));
            match event {
                EventView::Content { bytes, mode } => {
                    let c = plan.changes[index];
                    if c.after_digest != Some(digest::blake3_hex(bytes)) || mode
                        != c.after_unix_mode {
                        lemma_begin_rollback(
                            plan,
                            d,
                            0,
                            Some(
                                TransactionFault::CandidateDrift {
                                    path: c.path,
                                    expected: match c.after_digest {
                                        Some(d) => d,
                                        None => Seq::empty(),
                                    },
                                    actual: digest::blake3_hex(bytes),
                                    expected_mode: c.after_unix_mode,
                                    actual_mode: mode,
                                },
                            ),
                        );
                    }
                },
                _ => {},
            }
        } else if stage == LandingStage::Change {
            let path = plan.changes[index].path;
            let file = match a {
                ActionView::Write { index: i, content, mode } => Some(FileState { content, mode }),
                _ => None,
            };
            assert(d2 == with_source(d, path, file));
            lemma_others_stay(plan, d, index, file);
            assert(at_after(plan, d2, index));
            assert forall|k: int| 0 <= k < index implies #[trigger] at_after(plan, d2, k) by {
                assert(at_after(plan, d, k));
                assert(mark_at(plan, with_source(d, path, file), k) == mark_at(plan, d, k));
            }
            assert forall|k: int| index < k < n implies #[trigger] at_before(plan, d2, k) by {
                assert(at_before(plan, d, k));
                assert(mark_at(plan, with_source(d, path, file), k) == mark_at(plan, d, k));
            }
            assert(is_known(plan, d2)) by {
                assert forall|k: int| 0 <= k < n implies #[trigger] at_before(plan, d2, k)
                    || at_after(plan, d2, k) by {
                    if k < index {
                        assert(at_after(plan, d2, k));
                    }
                }
            }
        } else if stage == LandingStage::After {
            lemma_begin_landing(plan, d, index + 1);
        }
    }
}

proof fn lemma_rollback_step(
    plan: Plan,
    m: Move,
    d: Disk,
    d2: Disk,
    event: EventView,
)
    requires
        sound(plan, m, d),
        m.phase is RollingBack,
        m.progress is Next,
        can_answer(plan, d, m.progress->Next_0, d2, event),
    ensures
        sound(plan, apply::step_spec(plan, m.phase, event), d2),
{
    if let PhaseView::RollingBack { index, stage, apply: apply_error } = m.phase {
        let n = plan.changes.len() as int;
        if event is Failed {
            assert(d2 == d);
        } else if stage == FileStage::Act {
            let path = plan.changes[index].path;
            let file = if plan.changes[index].before_digest is Some {
                Some(FileState { content: d.journal->0[path], mode: plan.modes[index] })
            } else {
                None
            };
            assert(saved(plan, d.journal->0, index));
            assert(d2 == with_source(d, path, file));
            lemma_others_stay(plan, d, index, file);
            assert(at_before(plan, d2, index));
            assert forall|k: int| 0 <= k < index implies #[trigger] at_before(plan, d2, k) by {
                assert(at_before(plan, d, k));
                assert(mark_at(plan, with_source(d, path, file), k) == mark_at(plan, d, k));
            }
            assert forall|k: int| 0 <= k < n implies #[trigger] at_before(plan, d2, k) || at_after(
                plan,
                d2,
                k,
            ) by {
                if k != index {
                    assert(at_before(plan, d, k) || at_after(plan, d, k));
                    assert(mark_at(plan, with_source(d, path, file), k) == mark_at(plan, d, k));
                }
            }
        } else if stage == FileStage::After {
            assert forall|k: int| 0 <= k < index + 1 implies #[trigger] at_before(plan, d, k) by {}
            lemma_begin_rollback(plan, d, index + 1, apply_error);
        }
    }
}

proof fn lemma_backup_step(
    plan: Plan,
    m: Move,
    d: Disk,
    d2: Disk,
    event: EventView,
)
    requires
        sound(plan, m, d),
        m.phase is BackingUp,
        m.progress is Next,
        can_answer(plan, d, m.progress->Next_0, d2, event),
    ensures
        sound(plan, apply::step_spec(plan, m.phase, event), d2),
{
    if let PhaseView::BackingUp { index, stage } = m.phase {
        assert(d2.source == d.source);
        assert forall|k: int| 0 <= k < plan.changes.len() implies #[trigger] at_before(
            plan,
            d2,
            k,
        ) by {
            assert(at_before(plan, d, k));
        }
        if event is Failed {
        } else if stage == FileStage::Act {
            assert(at_before(plan, d, index));
            assert forall|k: int| 0 <= k < index + 1 implies #[trigger] saved(
                plan,
                d2.journal->0,
                k,
            ) by {
                if k < index {
                    assert(saved(plan, d.journal->0, k));
                    lemma_paths_differ(plan, index, k);
                    let p = plan.changes[k].path;
                    assert(d2.journal->0.contains_key(p) == d.journal->0.contains_key(p));
                }
            }
        } else if stage == FileStage::After {
            lemma_begin_backup(plan, d, index + 1);
        }
    }
}

/// Whatever came of the outstanding action, the apply and the disk agree afterwards.
pub proof fn law_every_step_is_sound(plan: Plan, m: Move, d: Disk, d2: Disk, event: EventView)
    requires
        sound(plan, m, d),
        m.progress is Next,
        can_answer(plan, d, m.progress->Next_0, d2, event),
    ensures
        sound(plan, apply::step_spec(plan, m.phase, event), d2),
{
    match m.phase {
        PhaseView::Landing { .. } => {
            lemma_landing_step(plan, m, d, d2, event);
        },
        PhaseView::RollingBack { .. } => {
            lemma_rollback_step(plan, m, d, d2, event);
        },
        PhaseView::BackingUp { .. } => {
            lemma_backup_step(plan, m, d, d2, event);
        },
        PhaseView::Looking => {
            lemma_surveying(plan, d, Seq::empty());
        },
        PhaseView::Surveying { recovering, marks } => {
            if let EventView::Mark(mark) = event {
                let next = marks.push(mark);
                assert(seen_rightly(plan, d, next)) by {
                    assert forall|k: int| 0 <= k < next.len() implies #[trigger] next[k] == mark_at(
                        plan,
                        d,
                        k,
                    ) by {
                        if k < marks.len() {
                            assert(next[k] == marks[k]);
                        }
                    }
                }
                lemma_surveying(plan, d, next);
            }
        },
        PhaseView::Capturing { then } => {},
        PhaseView::Clearing { passed, outcome } => {
            assert forall|k: int| 0 <= k < plan.changes.len() implies (#[trigger] at_before(
                plan,
                d2,
                k,
            ) == at_before(plan, d, k)) && (at_after(plan, d2, k) == at_after(plan, d, k)) by {}
            if outcome is Some {
                assert(is_landed(plan, d2)) by {
                    assert forall|k: int| 0 <= k < plan.changes.len() implies #[trigger] at_after(
                        plan,
                        d2,
                        k,
                    ) by {
                        assert(at_after(plan, d, k));
                    }
                }
            } else {
                assert(is_baseline(plan, d2));
            }
            if passed && event is Done && outcome is None {
                lemma_surveying(plan, d2, Seq::empty());
            }
        },
        PhaseView::Creating { passed } => {
            assert forall|k: int| 0 <= k < plan.changes.len() implies #[trigger] at_before(
                plan,
                d2,
                k,
            ) by {
                assert(at_before(plan, d, k));
            }
            if passed && event is Done {
                lemma_begin_backup(plan, d2, 0);
            }
        },
        PhaseView::Ended => {},
    }
}

/// An apply begins in agreement with every disk that an earlier one may have left.
pub proof fn law_recoverable_disks_can_be_taken_up(plan: Plan, d: Disk)
    requires
        lawful(plan),
        recoverable(plan, d),
    ensures
        sound(plan, apply::go(PhaseView::Looking, ActionView::FindJournal), d),
{
}

/// At every moment of an apply, and however it ends, another one can take up what it
/// leaves; and when it reports success, every file of the change set has landed and no
/// journal is left.
pub proof fn law_success_means_landed(plan: Plan, m: Move, d: Disk)
    requires
        sound(plan, m, d),
    ensures
        recoverable(plan, d),
        match m.progress {
            ProgressView::Finished(Ok(_)) => is_landed(plan, d) && d.journal is None,
            _ => true,
        },
{
}

/// Whether an action changes the source.
pub open spec fn changes_source(a: ActionView) -> bool {
    a is Write || a is Remove || a is Restore || a is RemoveAdded
}

/// An apply changes only files of the change set.
pub proof fn law_other_files_are_untouched(
    plan: Plan,
    m: Move,
    d: Disk,
    d2: Disk,
    event: EventView,
    path: Seq<char>,
)
    requires
        sound(plan, m, d),
        m.progress is Next,
        can_answer(plan, d, m.progress->Next_0, d2, event),
        !changes::touches(plan.changes, path),
    ensures
        d2.source.contains_key(path) == d.source.contains_key(path),
        d2.source[path] == d.source[path],
        d2.candidate == d.candidate,
{
    let a = m.progress->Next_0;
    if changes_source(a) {
        let index = match a {
            ActionView::Write { index, content, mode } => index,
            ActionView::Remove(i) => i,
            ActionView::RemoveAdded(i) => i,
            ActionView::Restore { index, mode } => index,
            _ => 0,
        };
        assert(0 <= index < plan.changes.len());
        assert(plan.changes[index].path != path);
    }
}

/// A file that is neither as before nor as after its change is never overwritten: no
/// action that changes the source is taken while there is one.
pub proof fn law_drift_is_never_overwritten(plan: Plan, m: Move, d: Disk)
    requires
        sound(plan, m, d),
        !is_known(plan, d),
    ensures
        match m.progress {
            ProgressView::Next(a) => !changes_source(a),
            ProgressView::Finished(r) => r is Err,
        },
{
    if is_landed(plan, d) || is_baseline(plan, d) {
        assert forall|i: int| 0 <= i < plan.changes.len() implies #[trigger] at_before(plan, d, i)
            || at_after(plan, d, i) by {
            if is_landed(plan, d) {
                assert(at_after(plan, d, i));
            }
        }
    }
    match m.phase {
        PhaseView::Landing { index, stage } => {
            assert forall|i: int| 0 <= i < plan.changes.len() implies #[trigger] at_before(
                plan,
                d,
                i,
            ) || at_after(plan, d, i) by {
                if i < index {
                    assert(at_after(plan, d, i));
                }
            }
        },
        _ => {},
    }
}

/// Even where the source changes behind an apply's back, a file that was just found
/// other than before its change is not changed; the apply rolls back and reports the
/// drift.
pub proof fn law_landing_rechecks_each_file(plan: Plan, index: int, mark: MarkView)
    requires
        0 <= index < plan.changes.len(),
        mark != apply::mark_before(plan.changes[index]),
    ensures
        apply::step_spec(
            plan,
            PhaseView::Landing { index, stage: LandingStage::Inspect },
            EventView::Mark(mark),
        ) == apply::begin_rollback(
            plan,
            0,
            Some(
                TransactionFault::BaselineDrift {
                    path: plan.changes[index].path,
                    expected: plan.changes[index].before_digest,
                    actual: mark.digest,
                    expected_mode: plan.changes[index].before_unix_mode,
                    actual_mode: mark.unix_mode,
                },
            ),
        ),
{
}

/// Whether an apply that began with nothing half done has kept its promise so far.
pub open spec fn rests(plan: Plan, m: Move, d: Disk) -> bool {
    match m.phase {
        PhaseView::Looking | PhaseView::Surveying { .. } => at_rest(plan, d),
        PhaseView::RollingBack { index, stage, apply } => apply is Some,
        PhaseView::Ended => match m.progress {
            ProgressView::Finished(Err(TransactionFault::RollbackFailed { .. })) => true,
            _ => at_rest(plan, d),
        },
        _ => true,
    }
}

pub proof fn lemma_backup_goes_on(plan: Plan, index: int)
    ensures
        ({
            let phase = apply::begin_backup(plan, index).phase;
            phase is BackingUp || phase is Landing || phase is Capturing
        }),
    decreases plan.changes.len() - index,
{
    if 0 <= index < plan.changes.len() && plan.changes[index].before_digest is None {
        lemma_backup_goes_on(plan, index + 1);
    }
}

/// An apply that began with nothing half done leaves nothing half done, whatever
/// fails, unless it reports that its rollback failed, too.
pub proof fn law_failed_applies_are_rolled_back(
    plan: Plan,
    m: Move,
    d: Disk,
    d2: Disk,
    event: EventView,
)
    requires
        sound(plan, m, d),
        rests(plan, m, d),
        m.progress is Next,
        can_answer(plan, d, m.progress->Next_0, d2, event),
    ensures
        rests(plan, apply::step_spec(plan, m.phase, event), d2),
{
    law_every_step_is_sound(plan, m, d, d2, event);
    let next = apply::step_spec(plan, m.phase, event);
    assert forall|k: int| d2.source == d.source && 0 <= k < plan.changes.len() implies (
    #[trigger] at_before(plan, d2, k) == at_before(plan, d, k)) && (at_after(plan, d2, k)
        == at_after(plan, d, k)) by {}
    if d2.source == d.source && at_rest(plan, d) {
        if is_landed(plan, d) {
            assert forall|k: int| 0 <= k < plan.changes.len() implies #[trigger] at_after(
                plan,
                d2,
                k,
            ) by {
                assert(at_after(plan, d, k));
            }
        } else {
            assert forall|k: int| 0 <= k < plan.changes.len() implies #[trigger] at_before(
                plan,
                d2,
                k,
            ) by {
                assert(at_before(plan, d, k));
            }
        }
        assert(at_rest(plan, d2));
    }
    match m.phase {
        PhaseView::Surveying { recovering, marks } => {
            if let EventView::Mark(mark) = event {
                let all = marks.push(mark);
                if all.len() == plan.changes.len() {
                    assert forall|k: int| 0 <= k < all.len() implies #[trigger] all[k] == mark_at(
                        plan,
                        d,
                        k,
                    ) by {
                        if k < marks.len() {
                            assert(all[k] == marks[k]);
                        }
                    }
                    lemma_states(plan, d, all);
                }
            }
        },
        PhaseView::Looking => {
            if plan.changes.len() == 0 {
                lemma_states(plan, d, Seq::empty());
            }
        },
        PhaseView::Clearing { passed, outcome } => {
            if passed && event is Done && outcome is None && plan.changes.len() == 0 {
                lemma_states(plan, d2, Seq::empty());
            }
        },
        PhaseView::RollingBack { index, stage, apply } => {
            if stage == FileStage::After && event is Done && index + 1 >= plan.changes.len() {
                assert forall|k: int| 0 <= k < plan.changes.len() implies #[trigger] at_before(
                    plan,
                    d2,
                    k,
                ) by {
                    assert(at_before(plan, d, k));
                }
            }
        },
        PhaseView::Landing { index, stage } => {
            assert(plan.changes.len() > 0);
        },
        PhaseView::Creating { passed } => {
            lemma_backup_goes_on(plan, 0);
        },
        PhaseView::BackingUp { index, stage } => {
            lemma_backup_goes_on(plan, index + 1);
        },
        _ => {},
    }
}

/// An action that succeeds: what it leaves, and the answer. The digest of the whole
/// source is given.
pub open spec fn performed(plan: Plan, d: Disk, a: ActionView, whole: Seq<char>) -> (
    Disk,
    EventView,
) {
    match a {
        ActionView::Checkpoint(_) | ActionView::CheckPaths(_) => (d, EventView::Done),
        ActionView::FindJournal => (d, EventView::Journal(d.journal is Some)),
        ActionView::Inspect(i) => (d, EventView::Mark(mark_at(plan, d, i))),
        ActionView::CreateJournal => (
            Disk {
                journal: match d.journal {
                    Some(j) => Some(j),
                    None => Some(Map::empty()),
                },
                ..d
            },
            EventView::Done,
        ),
        ActionView::Backup(i) => (
            Disk {
                journal: Some(
                    (d.journal->0).insert(
                        plan.changes[i].path,
                        d.source[plan.changes[i].path].content,
                    ),
                ),
                ..d
            },
            EventView::Done,
        ),
        ActionView::ReadCandidate(i) => (
            d,
            EventView::Content {
                bytes: d.candidate[plan.changes[i].path].content,
                mode: d.candidate[plan.changes[i].path].mode,
            },
        ),
        ActionView::Write { index, content, mode } => (
            with_source(d, plan.changes[index].path, Some(FileState { content, mode })),
            EventView::Done,
        ),
        ActionView::Remove(i) | ActionView::RemoveAdded(i) => (
            with_source(d, plan.changes[i].path, None),
            EventView::Done,
        ),
        ActionView::Restore { index, mode } => (
            with_source(
                d,
                plan.changes[index].path,
                Some(FileState { content: d.journal->0[plan.changes[index].path], mode }),
            ),
            EventView::Done,
        ),
        ActionView::CaptureSource => (d, EventView::Manifest(whole)),
        ActionView::RemoveJournal => (Disk { journal: None, ..d }, EventView::Done),
    }
}

/// Whether the candidate still holds what the change set says.
pub open spec fn candidate_matches(plan: Plan, d: Disk) -> bool {
    forall|i: int|
        0 <= i < plan.changes.len() && (#[trigger] plan.changes[i]).after_digest is Some
            ==> d.candidate.contains_key(plan.changes[i].path) && mark_of(
            d.candidate,
            plan.changes[i].path,
        ) == apply::mark_after(plan.changes[i])
}

/// Whether nothing stands in the way of an apply: no file drifted, the candidate
/// matches, and what is half done has a journal.
pub open spec fn unhindered(plan: Plan, m: Move, d: Disk) -> bool {
    &&& is_known(plan, d)
    &&& candidate_matches(plan, d)
    &&& match m.phase {
        PhaseView::Looking => d.journal is None ==> at_rest(plan, d),
        PhaseView::Surveying { recovering, marks } => !recovering ==> at_rest(plan, d),
        PhaseView::RollingBack { index, stage, apply } => apply is None,
        PhaseView::Ended => m.progress matches ProgressView::Finished(Ok(_)),
        _ => true,
    }
}

/// A bound on the steps that are left.
pub open spec fn steps_left(plan: Plan, phase: PhaseView) -> int {
    let n = plan.changes.len() as int;
    let k = 8 * (n + 2);
    match phase {
        PhaseView::Looking => 9 * k,
        PhaseView::Surveying { recovering, marks } => (if recovering {
            8 * k
        } else {
            4 * k
        }) + (n - marks.len()),
        PhaseView::RollingBack { index, stage, apply } => 6 * k + 4 * (n - index) - (match stage {
            FileStage::Before => 0int,
            FileStage::Act => 1,
            FileStage::After => 2,
        }),
        PhaseView::Clearing { passed, outcome } => (if outcome is Some {
            0int
        } else {
            5 * k
        }) + (if passed {
            1int
        } else {
            2
        }),
        PhaseView::Creating { passed } => 3 * k + (if passed {
            0int
        } else {
            1
        }),
        PhaseView::BackingUp { index, stage } => 2 * k + 4 * (n - index) - (match stage {
            FileStage::Before => 0int,
            FileStage::Act => 1,
            FileStage::After => 2,
        }),
        PhaseView::Landing { index, stage } => k + 7 * (n - index) - (match stage {
            LandingStage::Before => 0int,
            LandingStage::Paths => 1,
            LandingStage::Inspect => 2,
            LandingStage::Read => 3,
            LandingStage::Change => 4,
            LandingStage::After => 5,
        }),
        PhaseView::Capturing { then } => 3,
        PhaseView::Ended => 0,
    }
}

pub proof fn lemma_backup_gets_closer(plan: Plan, index: int)
    requires
        0 <= index <= plan.changes.len(),
    ensures
        steps_left(plan, apply::begin_backup(plan, index).phase) <= 16 * (plan.changes.len() + 2)
            + 4 * (plan.changes.len() - index),
    decreases plan.changes.len() - index,
{
    if index < plan.changes.len() && plan.changes[index].before_digest is None {
        lemma_backup_gets_closer(plan, index + 1);
    }
}

/// An action that succeeds is one that can be taken.
pub proof fn lemma_performed(plan: Plan, m: Move, d: Disk, whole: Seq<char>)
    requires
        sound(plan, m, d),
        candidate_matches(plan, d),
        m.progress is Next,
    ensures
        ({
            let (d2, event) = performed(plan, d, m.progress->Next_0, whole);
            can_answer(plan, d, m.progress->Next_0, d2, event)
        }),
{
    match m.phase {
        PhaseView::BackingUp { index, stage } => {
            assert(at_before(plan, d, index));
        },
        PhaseView::RollingBack { index, stage, apply } => {
            assert(saved(plan, d.journal->0, index));
        },
        PhaseView::Landing { index, stage } => {
            let c = plan.changes[index];
        },
        _ => {},
    }
}

proof fn lemma_one_step_closer(plan: Plan, m: Move, d: Disk, whole: Seq<char>)
    requires
        sound(plan, m, d),
        unhindered(plan, m, d),
        m.progress is Next,
    ensures
        ({
            let (d2, event) = performed(plan, d, m.progress->Next_0, whole);
            let next = apply::step_spec(plan, m.phase, event);
            &&& sound(plan, next, d2)
            &&& unhindered(plan, next, d2)
            &&& steps_left(plan, next.phase) < steps_left(plan, m.phase)
            &&& steps_left(plan, next.phase) >= 0
        }),
{
    let a = m.progress->Next_0;
    let (d2, event) = performed(plan, d, a, whole);
    lemma_performed(plan, m, d, whole);
    law_every_step_is_sound(plan, m, d, d2, event);
    let next = apply::step_spec(plan, m.phase, event);
    let n = plan.changes.len() as int;
    assert(candidate_matches(plan, d2));
    assert forall|k: int| d2.source == d.source && 0 <= k < n implies (#[trigger] at_before(
        plan,
        d2,
        k,
    ) == at_before(plan, d, k)) && (at_after(plan, d2, k) == at_after(plan, d, k)) by {}
    if d2.source == d.source {
        assert(is_known(plan, d2)) by {
            assert forall|k: int| 0 <= k < n implies #[trigger] at_before(plan, d2, k) || at_after(
                plan,
                d2,
                k,
            ) by {
                assert(at_before(plan, d, k) || at_after(plan, d, k));
            }
        }
        if is_baseline(plan, d) {
            assert(is_baseline(plan, d2)) by {
                assert forall|k: int| 0 <= k < n implies #[trigger] at_before(plan, d2, k) by {
                    assert(at_before(plan, d, k));
                }
            }
        }
        if is_landed(plan, d) {
            assert(is_landed(plan, d2)) by {
                assert forall|k: int| 0 <= k < n implies #[trigger] at_after(plan, d2, k) by {
                    assert(at_after(plan, d, k));
                }
            }
        }
    }
    match m.phase {
        PhaseView::Looking => {
            lemma_survey_unhindered(plan, d, Seq::empty());
        },
        PhaseView::Surveying { recovering, marks } => {
            let all = marks.push(mark_at(plan, d, marks.len() as int));
            assert forall|k: int| 0 <= k < all.len() implies #[trigger] all[k] == mark_at(
                plan,
                d,
                k,
            ) by {
                if k < marks.len() {
                    assert(all[k] == marks[k]);
                }
            }
            lemma_survey_unhindered(plan, d, all);
        },
        PhaseView::Clearing { passed, outcome } => {
            if passed && outcome is None {
                lemma_survey_unhindered(plan, d2, Seq::empty());
            }
        },
        PhaseView::Creating { passed } => {
            lemma_backup_goes_on(plan, 0);
            lemma_backup_gets_closer(plan, 0);
        },
        PhaseView::BackingUp { index, stage } => {
            lemma_backup_goes_on(plan, index + 1);
            lemma_backup_gets_closer(plan, index + 1);
        },
        PhaseView::Landing { index, stage } => {
            let path = plan.changes[index].path;
            if stage == LandingStage::Change {
                let file = match a {
                    ActionView::Write { index: i, content, mode } => Some(
                        FileState { content, mode },
                    ),
                    _ => None,
                };
                lemma_others_stay(plan, d, index, file);
                assert(is_known(plan, d2)) by {
                    assert forall|k: int| 0 <= k < n implies #[trigger] at_before(plan, d2, k)
                        || at_after(plan, d2, k) by {
                        if k != index {
                            assert(at_before(plan, d, k) || at_after(plan, d, k));
                            assert(mark_at(plan, with_source(d, path, file), k) == mark_at(
                                plan,
                                d,
                                k,
                            ));
                        }
                    }
                }
            } else if stage == LandingStage::Inspect {
                assert(at_before(plan, d, index));
            } else if stage == LandingStage::Read {
                assert(plan.changes[index].after_digest is Some);
            }
        },
        PhaseView::RollingBack { index, stage, apply: apply_error } => {
            if stage == FileStage::Act {
                if let PhaseView::RollingBack { .. } = next.phase {
                    assert(is_known(plan, d2));
                }
            }
        },
        _ => {},
    }
}

pub proof fn lemma_survey_unhindered(plan: Plan, d: Disk, marks: Seq<MarkView>)
    requires
        lawful(plan),
        is_known(plan, d),
        candidate_matches(plan, d),
        marks.len() <= plan.changes.len(),
        seen_rightly(plan, d, marks),
        d.journal is None ==> at_rest(plan, d),
    ensures
        unhindered(plan, apply::go_surveying(plan, d.journal is Some, marks), d),
        steps_left(plan, apply::go_surveying(plan, d.journal is Some, marks).phase) <= (
        if d.journal is Some {
            64 * (plan.changes.len() + 2)
        } else {
            32 * (plan.changes.len() + 2)
        }) + (plan.changes.len() - marks.len()),
        steps_left(plan, apply::go_surveying(plan, d.journal is Some, marks).phase) >= 0,
{
    if marks.len() == plan.changes.len() {
        lemma_states(plan, d, marks);
    }
}

/// What an apply comes to when nothing fails: its last move and the disk it leaves.
pub open spec fn undisturbed(plan: Plan, m: Move, d: Disk, whole: Seq<char>, steps: nat) -> (
    Move,
    Disk,
)
    decreases steps,
{
    match m.progress {
        ProgressView::Finished(_) => (m, d),
        ProgressView::Next(a) => if steps == 0 {
            (m, d)
        } else {
            let (d2, event) = performed(plan, d, a, whole);
            undisturbed(
                plan,
                apply::step_spec(plan, m.phase, event),
                d2,
                whole,
                (steps - 1) as nat,
            )
        },
    }
}

/// What an apply reports, given the digest of the whole source.
pub open spec fn report(plan: Plan, whole: Seq<char>) -> OutcomeView {
    OutcomeView {
        changed_files: plan.changes.len(),
        baseline_digest: plan.baseline_digest,
        resulting_digest: whole,
    }
}

/// Whether what an apply is about to report is right.
pub open spec fn reports_rightly(plan: Plan, m: Move, whole: Seq<char>) -> bool {
    match m.phase {
        PhaseView::Clearing { passed, outcome: Some(o) } => o == report(plan, whole),
        PhaseView::Ended => match m.progress {
            ProgressView::Finished(Ok(o)) => o == report(plan, whole),
            _ => true,
        },
        _ => true,
    }
}

proof fn lemma_undisturbed(plan: Plan, m: Move, d: Disk, whole: Seq<char>, steps: nat)
    requires
        sound(plan, m, d),
        unhindered(plan, m, d),
        reports_rightly(plan, m, whole),
        steps >= steps_left(plan, m.phase),
    ensures
        ({
            let (last, left) = undisturbed(plan, m, d, whole, steps);
            &&& sound(plan, last, left)
            &&& last.progress == ProgressView::Finished(Ok(report(plan, whole)))
        }),
    decreases steps,
{
    match m.progress {
        ProgressView::Finished(_) => {},
        ProgressView::Next(a) => {
            lemma_one_step_closer(plan, m, d, whole);
            let (d2, event) = performed(plan, d, a, whole);
            let next = apply::step_spec(plan, m.phase, event);
            match m.phase {
                PhaseView::Creating { .. } => {
                    lemma_backup_goes_on(plan, 0);
                },
                PhaseView::BackingUp { index, .. } => {
                    lemma_backup_goes_on(plan, index + 1);
                },
                _ => {},
            }
            lemma_undisturbed(plan, next, d2, whole, (steps - 1) as nat);
        },
    }
}

/// An apply that nothing disturbs lands the change set, from a clean start as well as
/// from whatever an interrupted apply left: it reports the number of files and both
/// digests, every file has landed, and no journal is left. So a retry completes what a failure interrupted, and a
/// second apply of a landed change set succeeds, too.
pub proof fn law_undisturbed_applies_land(plan: Plan, d: Disk, whole: Seq<char>, steps: nat)
    requires
        lawful(plan),
        recoverable(plan, d),
        is_known(plan, d),
        d.journal is None ==> at_rest(plan, d),
        candidate_matches(plan, d),
        steps >= 72 * (plan.changes.len() + 2),
    ensures
        ({
            let start = apply::go(PhaseView::Looking, ActionView::FindJournal);
            let (last, left) = undisturbed(plan, start, d, whole, steps);
            &&& last.progress == ProgressView::Finished(Ok(report(plan, whole)))
            &&& is_landed(plan, left)
            &&& left.journal is None
        }),
{
    lemma_undisturbed(
        plan,
        apply::go(PhaseView::Looking, ActionView::FindJournal),
        d,
        whole,
        steps,
    );
}

} // verus!
