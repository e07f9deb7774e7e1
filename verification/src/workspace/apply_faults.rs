//! One fault at any boundary of an apply, and the retry that follows it.

use crate::workspace::apply;
use crate::workspace::apply::{
    ActionView, AfterCapture, ApplyFaultPoint, EventView, FileStage, LandingStage, MarkView, Move,
    PhaseView, Plan, ProgressView,
};
use crate::workspace::apply_laws;
use crate::workspace::apply_laws::{Disk, FileState};
use crate::workspace::changes;
use crate::workspace::error::TransactionFault;
use vstd::prelude::*;

verus! {

/// Whether a path holds the same file, or none, in two trees.
pub open spec fn same_at(
    a: Map<Seq<char>, FileState>,
    b: Map<Seq<char>, FileState>,
    path: Seq<char>,
) -> bool {
    a.contains_key(path) == b.contains_key(path) && (b.contains_key(path) ==> a[path] == b[path])
}

/// Whether change `i`'s source file is the one of an earlier disk, in its bytes and its
/// mode.
pub open spec fn kept(plan: Plan, d: Disk, origin: Disk, i: int) -> bool {
    same_at(d.source, origin.source, plan.changes[i].path)
}

/// Whether change `i`'s source file is its candidate, in its bytes and its mode, and
/// missing where the change deletes it.
pub open spec fn replaced(plan: Plan, d: Disk, origin: Disk, i: int) -> bool {
    let path = plan.changes[i].path;
    if plan.changes[i].after_digest is Some {
        d.source.contains_key(path) && origin.candidate.contains_key(path) && d.source[path]
            == origin.candidate[path]
    } else {
        !d.source.contains_key(path)
    }
}

/// Whether every source file of the change set is that of an earlier disk.
pub open spec fn all_kept(plan: Plan, d: Disk, origin: Disk) -> bool {
    forall|i: int| 0 <= i < plan.changes.len() ==> #[trigger] kept(plan, d, origin, i)
}

/// Whether every source file of the change set is its candidate.
pub open spec fn all_replaced(plan: Plan, d: Disk, origin: Disk) -> bool {
    forall|i: int| 0 <= i < plan.changes.len() ==> #[trigger] replaced(plan, d, origin, i)
}

/// Whether the candidate and the source files outside the change set are those of an
/// earlier disk.
pub open spec fn rest_kept(plan: Plan, d: Disk, origin: Disk) -> bool {
    &&& d.candidate == origin.candidate
    &&& forall|path: Seq<char>|
        !#[trigger] changes::touches(plan.changes, path) ==> same_at(d.source, origin.source, path)
}

/// Whether a boundary is passed by an apply that starts from the baseline.
pub open spec fn reached(plan: Plan, point: ApplyFaultPoint) -> bool {
    match point {
        ApplyFaultPoint::JournalCreate | ApplyFaultPoint::JournalCleanup => true,
        ApplyFaultPoint::BackupChange(i) | ApplyFaultPoint::BackupChangeWritten(i) => i
            < plan.changes.len() && plan.changes[i as int].before_digest is Some,
        ApplyFaultPoint::ApplyChange(i) | ApplyFaultPoint::ApplyChangeWritten(i) => i
            < plan.changes.len(),
        ApplyFaultPoint::RollbackChange(_) | ApplyFaultPoint::RollbackChangeWritten(_) => false,
    }
}

/// What comes of an action when one boundary fails and nothing else does.
pub open spec fn performed_but(
    plan: Plan,
    d: Disk,
    a: ActionView,
    whole: Seq<char>,
    fault: Option<ApplyFaultPoint>,
    e: TransactionFault,
) -> (Disk, EventView) {
    match a {
        ActionView::Checkpoint(point) => if fault == Some(point) {
            (d, EventView::Failed(e))
        } else {
            (d, EventView::Done)
        },
        _ => apply_laws::performed(plan, d, a, whole),
    }
}

/// What an apply comes to when one boundary fails and nothing else does: its last move
/// and the disk it leaves.
pub open spec fn interrupted(
    plan: Plan,
    m: Move,
    d: Disk,
    whole: Seq<char>,
    fault: Option<ApplyFaultPoint>,
    e: TransactionFault,
    steps: nat,
) -> (Move, Disk)
    decreases steps,
{
    match m.progress {
        ProgressView::Finished(_) => (m, d),
        ProgressView::Next(a) => if steps == 0 {
            (m, d)
        } else {
            let (d2, event) = performed_but(plan, d, a, whole, fault, e);
            interrupted(
                plan,
                apply::step_spec(plan, m.phase, event),
                d2,
                whole,
                fault,
                e,
                (steps - 1) as nat,
            )
        },
    }
}

/// Without a fault, that is an apply that nothing disturbs.
proof fn lemma_no_fault(
    plan: Plan,
    m: Move,
    d: Disk,
    whole: Seq<char>,
    e: TransactionFault,
    steps: nat,
)
    ensures
        interrupted(plan, m, d, whole, None, e, steps) == apply_laws::undisturbed(
            plan,
            m,
            d,
            whole,
            steps,
        ),
    decreases steps,
{
    if let ProgressView::Next(a) = m.progress {
        if steps > 0 {
            let (d2, event) = apply_laws::performed(plan, d, a, whole);
            assert(performed_but(plan, d, a, whole, None, e) == (d2, event));
            lemma_no_fault(
                plan,
                apply::step_spec(plan, m.phase, event),
                d2,
                whole,
                e,
                (steps - 1) as nat,
            );
        }
    }
}

/// What a run goes by: the disk at the first start, whether the files had landed before
/// this run, which boundary fails in it and how, and the digest of the whole source.
struct Course {
    origin: Disk,
    done: bool,
    fault: Option<ApplyFaultPoint>,
    e: TransactionFault,
    whole: Seq<char>,
}

/// Whether a course is one of a change set from its baseline.
spec fn fair(plan: Plan, c: Course) -> bool {
    &&& apply_laws::lawful(plan)
    &&& apply_laws::is_baseline(plan, c.origin)
    &&& apply_laws::candidate_matches(plan, c.origin)
    &&& c.fault matches Some(point) ==> !c.done && reached(plan, point)
}

/// Whether change `i`'s file is as it was when the run began.
spec fn as_begun(plan: Plan, d: Disk, c: Course, i: int) -> bool {
    if c.done {
        replaced(plan, d, c.origin, i)
    } else {
        kept(plan, d, c.origin, i)
    }
}

spec fn all_as_begun(plan: Plan, d: Disk, c: Course) -> bool {
    forall|i: int| 0 <= i < plan.changes.len() ==> #[trigger] as_begun(plan, d, c, i)
}

/// Whether a boundary is still ahead of a phase.
spec fn ahead(phase: PhaseView, point: ApplyFaultPoint) -> bool {
    let surveying = phase is Looking || phase is Surveying;
    let creating = surveying || phase is Creating;
    let saving = creating || phase is BackingUp;
    match point {
        ApplyFaultPoint::JournalCreate => surveying || (phase matches PhaseView::Creating { passed }
            && !passed),
        ApplyFaultPoint::BackupChange(i) => creating || (phase matches PhaseView::BackingUp {
            index,
            stage,
        } && (index < i || index == i && stage == FileStage::Before)),
        ApplyFaultPoint::BackupChangeWritten(i) => creating || (
        phase matches PhaseView::BackingUp { index, stage } && index <= i),
        ApplyFaultPoint::ApplyChange(i) => saving || (phase matches PhaseView::Landing {
            index,
            stage,
        } && (index < i || index == i && stage == LandingStage::Before)),
        ApplyFaultPoint::ApplyChangeWritten(i) => saving || (phase matches PhaseView::Landing {
            index,
            stage,
        } && index <= i),
        ApplyFaultPoint::JournalCleanup => saving || phase is Landing || phase is Capturing || (
        phase matches PhaseView::Clearing { passed, outcome } && !passed),
        _ => false,
    }
}

/// Whether the journal holds the bytes that the first `n` files had at first.
spec fn copied(plan: Plan, d: Disk, c: Course, n: int) -> bool {
    d.journal is Some && forall|i: int|
        0 <= i < n && i < plan.changes.len() && (#[trigger] plan.changes[i]).before_digest is Some
            ==> (d.journal->0).contains_key(plan.changes[i].path)
            && (d.journal->0)[plan.changes[i].path]
            == c.origin.source[plan.changes[i].path].content
}

/// Whether the bytes about to be written are the candidate's.
spec fn writes_candidate(plan: Plan, c: Course, index: int, a: ActionView) -> bool {
    match a {
        ActionView::Write { index: i, content, mode } => content
            == c.origin.candidate[plan.changes[index].path].content,
        _ => true,
    }
}

/// Whether a run is where its course takes it.
spec fn on_course(plan: Plan, m: Move, d: Disk, c: Course) -> bool {
    &&& fair(plan, c)
    &&& apply_laws::sound(plan, m, d)
    &&& rest_kept(plan, d, c.origin)
    &&& match m.phase {
        PhaseView::Looking | PhaseView::Surveying { .. } => {
            &&& all_as_begun(plan, d, c)
            &&& c.fault matches Some(point) ==> d.journal is None && ahead(m.phase, point)
        },
        PhaseView::Creating { passed } => {
            &&& all_as_begun(plan, d, c)
            &&& c.fault matches Some(point) ==> ahead(m.phase, point)
        },
        PhaseView::BackingUp { index, stage } => {
            &&& all_as_begun(plan, d, c)
            &&& c.fault matches Some(point) ==> ahead(m.phase, point)
            &&& !c.done ==> copied(
                plan,
                d,
                c,
                if stage == FileStage::After {
                    index + 1
                } else {
                    index
                },
            )
        },
        PhaseView::Landing { index, stage } => {
            &&& c.fault matches Some(point) ==> ahead(m.phase, point)
            &&& !c.done ==> copied(plan, d, c, plan.changes.len() as int)
            &&& forall|i: int| 0 <= i < index ==> #[trigger] replaced(plan, d, c.origin, i)
            &&& forall|i: int|
                index < i < plan.changes.len() ==> #[trigger] as_begun(plan, d, c, i)
            &&& if stage == LandingStage::After {
                replaced(plan, d, c.origin, index)
            } else {
                as_begun(plan, d, c, index)
            }
            &&& writes_candidate(plan, c, index, m.progress->Next_0)
        },
        PhaseView::Capturing { then } => {
            &&& all_replaced(plan, d, c.origin)
            &&& c.fault matches Some(point) ==> ahead(m.phase, point) && then
                == AfterCapture::Clear
        },
        PhaseView::Clearing { passed, outcome } => match outcome {
            Some(o) => {
                &&& all_replaced(plan, d, c.origin)
                &&& o == apply_laws::report(plan, c.whole)
                &&& c.fault matches Some(point) ==> ahead(m.phase, point)
            },
            None => all_as_begun(plan, d, c) && c.fault is None,
        },
        PhaseView::RollingBack { index, stage, apply } => {
            &&& apply == Some(c.e)
            &&& !c.done
            &&& c.fault is Some
            &&& c.fault != Some(ApplyFaultPoint::JournalCleanup)
            &&& copied(plan, d, c, plan.changes.len() as int)
            &&& forall|i: int| 0 <= i < index ==> #[trigger] kept(plan, d, c.origin, i)
            &&& forall|i: int|
                index <= i < plan.changes.len() ==> #[trigger] kept(plan, d, c.origin, i)
                    || replaced(plan, d, c.origin, i)
            &&& stage == FileStage::After ==> kept(plan, d, c.origin, index)
        },
        PhaseView::Ended => match m.progress {
            ProgressView::Finished(Ok(o)) => {
                &&& c.fault is None
                &&& all_replaced(plan, d, c.origin)
                &&& o == apply_laws::report(plan, c.whole)
            },
            ProgressView::Finished(Err(f)) => {
                &&& f == c.e
                &&& c.fault is Some
                &&& if c.fault == Some(ApplyFaultPoint::JournalCleanup) {
                    all_replaced(plan, d, c.origin)
                } else {
                    all_kept(plan, d, c.origin)
                }
            },
            _ => false,
        },
    }
}

/// A bound on the steps that are left, with a rollback that ends the apply.
spec fn left_of(plan: Plan, phase: PhaseView) -> int {
    match phase {
        PhaseView::RollingBack { index, stage, apply: Some(_) } => 4 * (plan.changes.len() - index)
            - (match stage {
            FileStage::Before => 0int,
            FileStage::Act => 1,
            FileStage::After => 2,
        }),
        _ => apply_laws::steps_left(plan, phase),
    }
}

/// What files are known by follows from their bytes and modes.
proof fn lemma_marks(plan: Plan, d: Disk, c: Course, i: int)
    requires
        fair(plan, c),
        0 <= i < plan.changes.len(),
    ensures
        kept(plan, d, c.origin, i) ==> apply_laws::at_before(plan, d, i),
        replaced(plan, d, c.origin, i) ==> apply_laws::at_after(plan, d, i),
{
    assert(apply_laws::at_before(plan, c.origin, i));
    let change = plan.changes[i];
    if change.after_digest is Some {
        assert(apply_laws::mark_of(c.origin.candidate, change.path) == apply::mark_after(change));
    }
}

proof fn lemma_all_marks(plan: Plan, d: Disk, c: Course)
    requires
        fair(plan, c),
        rest_kept(plan, d, c.origin),
    ensures
        all_kept(plan, d, c.origin) ==> apply_laws::is_baseline(plan, d),
        all_replaced(plan, d, c.origin) ==> apply_laws::is_landed(plan, d),
        all_as_begun(plan, d, c) ==> apply_laws::at_rest(plan, d) && apply_laws::is_known(plan, d),
        all_as_begun(plan, d, c) && !c.done ==> apply_laws::is_baseline(plan, d) && all_kept(
            plan,
            d,
            c.origin,
        ),
        all_as_begun(plan, d, c) && c.done ==> apply_laws::is_landed(plan, d) && all_replaced(
            plan,
            d,
            c.origin,
        ),
        apply_laws::candidate_matches(plan, d),
{
    if all_as_begun(plan, d, c) {
        assert forall|i: int| 0 <= i < plan.changes.len() && !c.done implies #[trigger] kept(
            plan,
            d,
            c.origin,
            i,
        ) by {
            assert(as_begun(plan, d, c, i));
        }
        assert forall|i: int| 0 <= i < plan.changes.len() && c.done implies #[trigger] replaced(
            plan,
            d,
            c.origin,
            i,
        ) by {
            assert(as_begun(plan, d, c, i));
        }
    }
    if all_kept(plan, d, c.origin) {
        assert forall|i: int| 0 <= i < plan.changes.len() implies #[trigger] apply_laws::at_before(
            plan,
            d,
            i,
        ) by {
            assert(kept(plan, d, c.origin, i));
            lemma_marks(plan, d, c, i);
        }
    }
    if all_replaced(plan, d, c.origin) {
        assert forall|i: int| 0 <= i < plan.changes.len() implies #[trigger] apply_laws::at_after(
            plan,
            d,
            i,
        ) by {
            assert(replaced(plan, d, c.origin, i));
            lemma_marks(plan, d, c, i);
        }
    }
    if apply_laws::at_rest(plan, d) {
        assert forall|i: int| 0 <= i < plan.changes.len() implies #[trigger] apply_laws::at_before(
            plan,
            d,
            i,
        ) || apply_laws::at_after(plan, d, i) by {
            if apply_laws::is_landed(plan, d) {
                assert(apply_laws::at_after(plan, d, i));
            }
        }
    }
    assert forall|i: int|
        0 <= i < plan.changes.len() && (#[trigger] plan.changes[i]).after_digest is Some implies {
        d.candidate.contains_key(plan.changes[i].path) && apply_laws::mark_of(
            d.candidate,
            plan.changes[i].path,
        ) == apply::mark_after(plan.changes[i])
    } by {}
}

/// A survey of the source goes on along the course.
proof fn lemma_survey(plan: Plan, d: Disk, c: Course, marks: Seq<MarkView>)
    requires
        fair(plan, c),
        rest_kept(plan, d, c.origin),
        all_as_begun(plan, d, c),
        marks.len() <= plan.changes.len(),
        apply_laws::seen_rightly(plan, d, marks),
        c.fault is Some ==> d.journal is None,
        apply_laws::sound(plan, apply::go_surveying(plan, d.journal is Some, marks), d),
    ensures
        on_course(plan, apply::go_surveying(plan, d.journal is Some, marks), d, c),
        left_of(plan, apply::go_surveying(plan, d.journal is Some, marks).phase)
            == apply_laws::steps_left(
            plan,
            apply::go_surveying(plan, d.journal is Some, marks).phase,
        ),
{
    lemma_all_marks(plan, d, c);
    if marks.len() == plan.changes.len() {
        apply_laws::lemma_states(plan, d, marks);
    }
}

/// Where the backup goes on: with the next file that existed, or with the landing.
proof fn lemma_backup_from(plan: Plan, index: int)
    requires
        0 <= index <= plan.changes.len(),
    ensures
        match apply::begin_backup(plan, index).phase {
            PhaseView::BackingUp { index: next, stage } => index <= next < plan.changes.len()
                && stage == FileStage::Before && forall|i: int|
                index <= i < next ==> (#[trigger] plan.changes[i]).before_digest is None,
            _ => apply::begin_backup(plan, index) == apply::begin_landing(plan, 0) && forall|i: int|
                index <= i < plan.changes.len() ==> (#[trigger] plan.changes[i]).before_digest is None,
        },
    decreases plan.changes.len() - index,
{
    if index < plan.changes.len() && plan.changes[index].before_digest is None {
        lemma_backup_from(plan, index + 1);
    }
}

proof fn lemma_backup_on_course(plan: Plan, d: Disk, c: Course, index: int)
    requires
        fair(plan, c),
        rest_kept(plan, d, c.origin),
        all_as_begun(plan, d, c),
        0 <= index <= plan.changes.len(),
        !c.done ==> copied(plan, d, c, index),
        d.journal is Some,
        apply_laws::sound(plan, apply::begin_backup(plan, index), d),
        match c.fault {
            Some(ApplyFaultPoint::JournalCreate) => false,
            Some(ApplyFaultPoint::BackupChange(i)) => index <= i,
            Some(ApplyFaultPoint::BackupChangeWritten(i)) => index <= i,
            _ => true,
        },
    ensures
        on_course(plan, apply::begin_backup(plan, index), d, c),
{
    lemma_backup_from(plan, index);
    let next = apply::begin_backup(plan, index);
    if let Some(point) = c.fault {
        match point {
            ApplyFaultPoint::BackupChange(i) => {
                assert(plan.changes[i as int].before_digest is Some);
            },
            ApplyFaultPoint::BackupChangeWritten(i) => {
                assert(plan.changes[i as int].before_digest is Some);
            },
            _ => {},
        }
    }
    if plan.changes.len() == 0 {
        assert(all_replaced(plan, d, c.origin));
    } else if next.phase is Landing {
        assert(as_begun(plan, d, c, 0));
        assert(next == apply::begin_landing(plan, 0));
    }
}

/// Changing one source file of the change set leaves the other files as they are.
proof fn lemma_only_one_changes(
    plan: Plan,
    d: Disk,
    c: Course,
    index: int,
    file: Option<FileState>,
)
    requires
        fair(plan, c),
        0 <= index < plan.changes.len(),
        rest_kept(plan, d, c.origin),
    ensures
        ({
            let d2 = apply_laws::with_source(d, plan.changes[index].path, file);
            &&& rest_kept(plan, d2, c.origin)
            &&& forall|i: int|
                0 <= i < plan.changes.len() && i != index ==> #[trigger] kept(plan, d2, c.origin, i)
                    == kept(plan, d, c.origin, i)
            &&& forall|i: int|
                0 <= i < plan.changes.len() && i != index ==> #[trigger] replaced(
                    plan,
                    d2,
                    c.origin,
                    i,
                ) == replaced(plan, d, c.origin, i)
        }),
{
    let path = plan.changes[index].path;
    let d2 = apply_laws::with_source(d, path, file);
    assert forall|p: Seq<char>| !#[trigger] changes::touches(plan.changes, p) implies same_at(
        d2.source,
        c.origin.source,
        p,
    ) by {
        if p == path {
            assert(plan.changes[index].path == p);
        }
    }
    assert forall|i: int| 0 <= i < plan.changes.len() && i != index implies #[trigger] kept(
        plan,
        d2,
        c.origin,
        i,
    ) == kept(plan, d, c.origin, i) by {
        apply_laws::lemma_paths_differ(plan, index, i);
    }
    assert forall|i: int| 0 <= i < plan.changes.len() && i != index implies #[trigger] replaced(
        plan,
        d2,
        c.origin,
        i,
    ) == replaced(plan, d, c.origin, i) by {
        apply_laws::lemma_paths_differ(plan, index, i);
    }
}

/// What a step comes to, and where the apply goes on.
spec fn stepped(plan: Plan, m: Move, d: Disk, c: Course) -> (Move, Disk) {
    let (d2, event) = performed_but(plan, d, m.progress->Next_0, c.whole, c.fault, c.e);
    (apply::step_spec(plan, m.phase, event), d2)
}

proof fn lemma_step_sound(plan: Plan, m: Move, d: Disk, c: Course)
    requires
        on_course(plan, m, d, c),
        m.progress is Next,
    ensures
        apply_laws::sound(plan, stepped(plan, m, d, c).0, stepped(plan, m, d, c).1),
        apply_laws::candidate_matches(plan, d),
{
    let a = m.progress->Next_0;
    let (d2, event) = performed_but(plan, d, a, c.whole, c.fault, c.e);
    lemma_all_marks(plan, d, c);
    apply_laws::lemma_performed(plan, m, d, c.whole);
    assert(apply_laws::can_answer(plan, d, a, d2, event));
    apply_laws::law_every_step_is_sound(plan, m, d, d2, event);
}

proof fn lemma_landing_stays_on_course(plan: Plan, m: Move, d: Disk, c: Course)
    requires
        on_course(plan, m, d, c),
        m.progress is Next,
        m.phase is Landing,
    ensures
        on_course(plan, stepped(plan, m, d, c).0, stepped(plan, m, d, c).1, c),
        0 <= left_of(plan, stepped(plan, m, d, c).0.phase) < left_of(plan, m.phase),
{
    lemma_step_sound(plan, m, d, c);
    let a = m.progress->Next_0;
    let (next, d2) = stepped(plan, m, d, c);
    let n = plan.changes.len() as int;
    if let PhaseView::Landing { index, stage } = m.phase {
        let change = plan.changes[index];
        let path = change.path;
        let failing = match a {
            ActionView::Checkpoint(point) => c.fault == Some(point),
            _ => false,
        };
        if failing {
            assert(next == apply::begin_rollback(plan, 0, Some(c.e)));
            assert forall|i: int| 0 <= i < n implies #[trigger] kept(plan, d, c.origin, i)
                || replaced(plan, d, c.origin, i) by {
                if i > index {
                    assert(as_begun(plan, d, c, i));
                } else if i < index {
                    assert(replaced(plan, d, c.origin, i));
                }
            }
        } else if stage == LandingStage::Inspect {
            assert(apply_laws::at_before(plan, d, index));
        } else if stage == LandingStage::Read {
            assert(apply_laws::mark_of(d.candidate, path) == apply::mark_after(change));
        } else if stage == LandingStage::Change {
            let file = match a {
                ActionView::Write { index: i, content, mode } => Some(FileState { content, mode }),
                _ => None,
            };
            assert(d2 == apply_laws::with_source(d, path, file));
            lemma_only_one_changes(plan, d, c, index, file);
            assert(replaced(plan, d2, c.origin, index)) by {
                if change.after_digest is Some {
                    assert(apply_laws::mark_of(c.origin.candidate, path) == apply::mark_after(
                        change,
                    ));
                    assert(file->0 == c.origin.candidate[path]);
                }
            }
            assert forall|i: int| index < i < n implies #[trigger] as_begun(plan, d2, c, i) by {
                assert(as_begun(plan, d, c, i));
                assert(kept(plan, d2, c.origin, i) == kept(plan, d, c.origin, i));
                assert(replaced(plan, d2, c.origin, i) == replaced(plan, d, c.origin, i));
            }
            assert forall|i: int| 0 <= i < index implies #[trigger] replaced(
                plan,
                d2,
                c.origin,
                i,
            ) by {
                assert(replaced(plan, d, c.origin, i));
            }
        } else if stage == LandingStage::After {
            assert(next == apply::begin_landing(plan, index + 1));
            if index + 1 < n {
                assert(as_begun(plan, d, c, index + 1));
            }
        }
    }
}

proof fn lemma_rollback_stays_on_course(plan: Plan, m: Move, d: Disk, c: Course)
    requires
        on_course(plan, m, d, c),
        m.progress is Next,
        m.phase is RollingBack,
    ensures
        on_course(plan, stepped(plan, m, d, c).0, stepped(plan, m, d, c).1, c),
        0 <= left_of(plan, stepped(plan, m, d, c).0.phase) < left_of(plan, m.phase),
{
    lemma_step_sound(plan, m, d, c);
    let a = m.progress->Next_0;
    let (next, d2) = stepped(plan, m, d, c);
    let n = plan.changes.len() as int;
    if let PhaseView::RollingBack { index, stage, apply: error } = m.phase {
        let change = plan.changes[index];
        let path = change.path;
        if let ActionView::Checkpoint(point) = a {
            assert(c.fault != Some(point));
        }
        if stage == FileStage::Act {
            assert(apply_laws::at_before(plan, c.origin, index));
            let file = if change.before_digest is Some {
                Some(FileState { content: d.journal->0[path], mode: plan.modes[index] })
            } else {
                None
            };
            assert(d2 == apply_laws::with_source(d, path, file));
            lemma_only_one_changes(plan, d, c, index, file);
            assert(kept(plan, d2, c.origin, index));
            assert forall|i: int| 0 <= i < index implies #[trigger] kept(
                plan,
                d2,
                c.origin,
                i,
            ) by {
                assert(kept(plan, d, c.origin, i));
            }
            assert forall|i: int| index <= i < n implies #[trigger] kept(plan, d2, c.origin, i)
                || replaced(plan, d2, c.origin, i) by {
                if i != index {
                    assert(kept(plan, d, c.origin, i) || replaced(plan, d, c.origin, i));
                    assert(replaced(plan, d2, c.origin, i) == replaced(plan, d, c.origin, i));
                }
            }
        }
    }
}

proof fn lemma_backup_stays_on_course(plan: Plan, m: Move, d: Disk, c: Course)
    requires
        on_course(plan, m, d, c),
        m.progress is Next,
        m.phase is BackingUp,
    ensures
        on_course(plan, stepped(plan, m, d, c).0, stepped(plan, m, d, c).1, c),
        0 <= left_of(plan, stepped(plan, m, d, c).0.phase) < left_of(plan, m.phase),
{
    lemma_step_sound(plan, m, d, c);
    let a = m.progress->Next_0;
    let (next, d2) = stepped(plan, m, d, c);
    if let PhaseView::BackingUp { index, stage } = m.phase {
        lemma_all_marks(plan, d, c);
        let failing = match a {
            ActionView::Checkpoint(point) => c.fault == Some(point),
            _ => false,
        };
        assert(d2.source == d.source);
        assert(all_as_begun(plan, d2, c)) by {
            assert forall|i: int| 0 <= i < plan.changes.len() implies #[trigger] as_begun(
                plan,
                d2,
                c,
                i,
            ) by {
                assert(as_begun(plan, d, c, i));
            }
        }
        if failing {
        } else if stage == FileStage::Act {
            if !c.done {
                assert(kept(plan, d, c.origin, index));
                assert(apply_laws::at_before(plan, d, index));
                let path = plan.changes[index].path;
                assert forall|i: int|
                    0 <= i < index + 1 && i < plan.changes.len()
                        && (#[trigger] plan.changes[i]).before_digest is Some implies (
                d2.journal->0).contains_key(plan.changes[i].path)
                    && (d2.journal->0)[plan.changes[i].path]
                    == c.origin.source[plan.changes[i].path].content by {
                    if i != index {
                        apply_laws::lemma_paths_differ(plan, index, i);
                    }
                }
            }
        } else if stage == FileStage::After {
            lemma_backup_on_course(plan, d, c, index + 1);
            apply_laws::lemma_backup_goes_on(plan, index + 1);
            apply_laws::lemma_backup_gets_closer(plan, index + 1);
        }
    }
}

proof fn lemma_clearing_stays_on_course(plan: Plan, m: Move, d: Disk, c: Course)
    requires
        on_course(plan, m, d, c),
        m.progress is Next,
        m.phase is Clearing || m.phase is Capturing || m.phase is Creating,
    ensures
        on_course(plan, stepped(plan, m, d, c).0, stepped(plan, m, d, c).1, c),
        0 <= left_of(plan, stepped(plan, m, d, c).0.phase) < left_of(plan, m.phase),
{
    lemma_step_sound(plan, m, d, c);
    let a = m.progress->Next_0;
    let (next, d2) = stepped(plan, m, d, c);
    assert(d2.source == d.source);
    assert forall|i: int| 0 <= i < plan.changes.len() implies (#[trigger] as_begun(plan, d2, c, i)
        == as_begun(plan, d, c, i)) by {}
    assert forall|i: int| 0 <= i < plan.changes.len() implies (#[trigger] replaced(
        plan,
        d2,
        c.origin,
        i,
    ) == replaced(plan, d, c.origin, i)) by {}
    lemma_all_marks(plan, d, c);
    match m.phase {
        PhaseView::Clearing { passed, outcome } => {
            if passed && outcome is None {
                lemma_all_marks(plan, d2, c);
                lemma_survey(plan, d2, c, Seq::empty());
                apply_laws::lemma_survey_unhindered(plan, d2, Seq::empty());
            }
        },
        PhaseView::Creating { passed } => {
            let failing = match a {
                ActionView::Checkpoint(point) => c.fault == Some(point),
                _ => false,
            };
            if failing {
                assert forall|i: int| 0 <= i < plan.changes.len() implies #[trigger] kept(
                    plan,
                    d2,
                    c.origin,
                    i,
                ) by {
                    assert(as_begun(plan, d, c, i));
                }
            } else if passed {
                lemma_backup_on_course(plan, d2, c, 0);
                apply_laws::lemma_backup_goes_on(plan, 0);
                apply_laws::lemma_backup_gets_closer(plan, 0);
            }
        },
        _ => {},
    }
}

proof fn lemma_stays_on_course(plan: Plan, m: Move, d: Disk, c: Course)
    requires
        on_course(plan, m, d, c),
        m.progress is Next,
    ensures
        on_course(plan, stepped(plan, m, d, c).0, stepped(plan, m, d, c).1, c),
        0 <= left_of(plan, stepped(plan, m, d, c).0.phase) < left_of(plan, m.phase),
{
    let (next, d2) = stepped(plan, m, d, c);
    match m.phase {
        PhaseView::Landing { .. } => {
            lemma_landing_stays_on_course(plan, m, d, c);
        },
        PhaseView::RollingBack { .. } => {
            lemma_rollback_stays_on_course(plan, m, d, c);
        },
        PhaseView::BackingUp { .. } => {
            lemma_backup_stays_on_course(plan, m, d, c);
        },
        PhaseView::Looking => {
            lemma_step_sound(plan, m, d, c);
            lemma_all_marks(plan, d, c);
            lemma_survey(plan, d, c, Seq::empty());
            apply_laws::lemma_survey_unhindered(plan, d, Seq::empty());
        },
        PhaseView::Surveying { recovering, marks } => {
            lemma_step_sound(plan, m, d, c);
            lemma_all_marks(plan, d, c);
            let all = marks.push(apply_laws::mark_at(plan, d, marks.len() as int));
            assert forall|k: int| 0 <= k < all.len() implies #[trigger] all[k]
                == apply_laws::mark_at(plan, d, k) by {
                if k < marks.len() {
                    assert(all[k] == marks[k]);
                }
            }
            lemma_survey(plan, d, c, all);
            apply_laws::lemma_survey_unhindered(plan, d, all);
        },
        PhaseView::Ended => {},
        _ => {
            lemma_clearing_stays_on_course(plan, m, d, c);
        },
    }
}

proof fn lemma_course_ends(plan: Plan, m: Move, d: Disk, c: Course, steps: nat)
    requires
        on_course(plan, m, d, c),
        steps >= left_of(plan, m.phase),
    ensures
        ({
            let (last, left) = interrupted(plan, m, d, c.whole, c.fault, c.e, steps);
            on_course(plan, last, left, c) && last.phase is Ended
        }),
    decreases steps,
{
    if m.progress is Next {
        lemma_stays_on_course(plan, m, d, c);
        let (next, d2) = stepped(plan, m, d, c);
        lemma_course_ends(plan, next, d2, c, (steps - 1) as nat);
    }
}

/// The first move of an apply.
pub open spec fn first_move() -> Move {
    apply::go(PhaseView::Looking, ActionView::FindJournal)
}

/// Whatever boundary of an apply fails, the error is reported and nothing is half done:
/// the source is as it was, to the byte, or, if only the removal of the journal failed,
/// the change set has landed, to the byte. A retry then lands the change set, reports the
/// number of files and leaves no journal. Files outside the change set are never touched.
pub proof fn law_one_fault_is_undone_and_a_retry_lands(
    plan: Plan,
    d: Disk,
    point: ApplyFaultPoint,
    e: TransactionFault,
    first: Seq<char>,
    second: Seq<char>,
    steps: nat,
)
    requires
        apply_laws::lawful(plan),
        apply_laws::is_baseline(plan, d),
        apply_laws::candidate_matches(plan, d),
        d.journal is None,
        reached(plan, point),
        steps >= 72 * (plan.changes.len() + 2),
    ensures
        ({
            let (last, left) = interrupted(plan, first_move(), d, first, Some(point), e, steps);
            let (retried, landed) = apply_laws::undisturbed(
                plan,
                first_move(),
                left,
                second,
                steps,
            );
            &&& last.progress == ProgressView::Finished(Err(e))
            &&& point == ApplyFaultPoint::JournalCleanup ==> all_replaced(plan, left, d)
            &&& point != ApplyFaultPoint::JournalCleanup ==> all_kept(plan, left, d)
            &&& rest_kept(plan, left, d)
            &&& retried.progress == ProgressView::Finished(Ok(apply_laws::report(plan, second)))
            &&& all_replaced(plan, landed, d)
            &&& rest_kept(plan, landed, d)
            &&& landed.journal is None
        }),
{
    let c = Course { origin: d, done: false, fault: Some(point), e, whole: first };
    assert forall|i: int| 0 <= i < plan.changes.len() implies #[trigger] as_begun(
        plan,
        d,
        c,
        i,
    ) by {}
    assert(on_course(plan, first_move(), d, c));
    lemma_course_ends(plan, first_move(), d, c, steps);
    let (last, left) = interrupted(plan, first_move(), d, first, Some(point), e, steps);
    let again = Course {
        origin: d,
        done: point == ApplyFaultPoint::JournalCleanup,
        fault: None,
        e,
        whole: second,
    };
    assert forall|i: int| 0 <= i < plan.changes.len() implies #[trigger] as_begun(
        plan,
        left,
        again,
        i,
    ) by {
        if again.done {
            assert(replaced(plan, left, d, i));
        } else {
            assert(kept(plan, left, d, i));
        }
    }
    assert(on_course(plan, first_move(), left, again));
    lemma_course_ends(plan, first_move(), left, again, steps);
    lemma_no_fault(plan, first_move(), left, second, e, steps);
}

/// Whether an apply of a landed change set has only looked so far.
spec fn only_looked(m: Move) -> bool {
    match m.phase {
        PhaseView::Looking => m.progress == ProgressView::Next(ActionView::FindJournal),
        PhaseView::Surveying { recovering, marks } => !recovering,
        PhaseView::Capturing { then } => then == AfterCapture::Finish,
        PhaseView::Ended => true,
        _ => false,
    }
}

proof fn lemma_only_looks(plan: Plan, m: Move, d: Disk, whole: Seq<char>, steps: nat)
    requires
        apply_laws::sound(plan, m, d),
        apply_laws::candidate_matches(plan, d),
        apply_laws::is_landed(plan, d),
        !apply_laws::is_baseline(plan, d),
        d.journal is None,
        only_looked(m),
    ensures
        apply_laws::undisturbed(plan, m, d, whole, steps).1 == d,
    decreases steps,
{
    if let ProgressView::Next(a) = m.progress {
        if steps > 0 {
            let (d2, event) = apply_laws::performed(plan, d, a, whole);
            apply_laws::lemma_performed(plan, m, d, whole);
            apply_laws::law_every_step_is_sound(plan, m, d, d2, event);
            let next = apply::step_spec(plan, m.phase, event);
            match m.phase {
                PhaseView::Looking => {
                    if plan.changes.len() == 0 {
                        assert(apply_laws::is_baseline(plan, d));
                    }
                },
                PhaseView::Surveying { recovering, marks } => {
                    let all = marks.push(apply_laws::mark_at(plan, d, marks.len() as int));
                    assert forall|k: int| 0 <= k < all.len() implies #[trigger] all[k]
                        == apply_laws::mark_at(plan, d, k) by {
                        if k < marks.len() {
                            assert(all[k] == marks[k]);
                        }
                    }
                    if all.len() == plan.changes.len() {
                        apply_laws::lemma_states(plan, d, all);
                    }
                },
                _ => {},
            }
            assert(d2 == d);
            lemma_only_looks(plan, next, d, whole, (steps - 1) as nat);
        }
    }
}

/// An apply of a change set that has landed already reports the same outcome again and,
/// unless the landed files are known by the same as those of the baseline, leaves
/// everything as it is.
pub proof fn law_landed_change_sets_are_left_alone(
    plan: Plan,
    d: Disk,
    whole: Seq<char>,
    steps: nat,
)
    requires
        apply_laws::lawful(plan),
        apply_laws::is_landed(plan, d),
        apply_laws::candidate_matches(plan, d),
        d.journal is None,
        steps >= 72 * (plan.changes.len() + 2),
    ensures
        ({
            let (last, left) = apply_laws::undisturbed(plan, first_move(), d, whole, steps);
            &&& last.progress == ProgressView::Finished(Ok(apply_laws::report(plan, whole)))
            &&& apply_laws::is_landed(plan, left)
            &&& left.journal is None
            &&& !apply_laws::is_baseline(plan, d) ==> left == d
        }),
{
    assert(apply_laws::is_known(plan, d)) by {
        assert forall|i: int| 0 <= i < plan.changes.len() implies #[trigger] apply_laws::at_before(
            plan,
            d,
            i,
        ) || apply_laws::at_after(plan, d, i) by {
            assert(apply_laws::at_after(plan, d, i));
        }
    }
    apply_laws::law_undisturbed_applies_land(plan, d, whole, steps);
    if !apply_laws::is_baseline(plan, d) {
        lemma_only_looks(plan, first_move(), d, whole, steps);
    }
}

/// A second apply answers as the first one did and changes nothing: both report the
/// number of files, the baseline's digest and the source's, and the source is the same
/// after the second as after the first, to the byte.
pub proof fn law_second_apply_answers_the_same(
    plan: Plan,
    d: Disk,
    whole: Seq<char>,
    steps: nat,
)
    requires
        apply_laws::lawful(plan),
        apply_laws::is_baseline(plan, d),
        apply_laws::candidate_matches(plan, d),
        steps >= 72 * (plan.changes.len() + 2),
    ensures
        ({
            let (one, landed) = apply_laws::undisturbed(plan, first_move(), d, whole, steps);
            let (two, after) = apply_laws::undisturbed(plan, first_move(), landed, whole, steps);
            &&& one.progress == ProgressView::Finished(Ok(apply_laws::report(plan, whole)))
            &&& two.progress == one.progress
            &&& all_replaced(plan, landed, d)
            &&& after.source == landed.source
            &&& after.candidate == landed.candidate
            &&& landed.journal is None
            &&& after.journal is None
        }),
{
    let e = TransactionFault::CandidateSetDrift;
    let c = Course { origin: d, done: false, fault: None, e, whole };
    assert forall|i: int| 0 <= i < plan.changes.len() implies #[trigger] as_begun(
        plan,
        d,
        c,
        i,
    ) by {}
    assert(on_course(plan, first_move(), d, c));
    lemma_course_ends(plan, first_move(), d, c, steps);
    lemma_no_fault(plan, first_move(), d, whole, e, steps);
    let (one, landed) = apply_laws::undisturbed(plan, first_move(), d, whole, steps);
    let again = Course { done: true, ..c };
    assert forall|i: int| 0 <= i < plan.changes.len() implies #[trigger] as_begun(
        plan,
        landed,
        again,
        i,
    ) by {
        assert(replaced(plan, landed, d, i));
    }
    assert(on_course(plan, first_move(), landed, again));
    lemma_course_ends(plan, first_move(), landed, again, steps);
    lemma_no_fault(plan, first_move(), landed, whole, e, steps);
    let (two, after) = apply_laws::undisturbed(plan, first_move(), landed, whole, steps);
    assert forall|path: Seq<char>| same_at(after.source, landed.source, path) by {
        if changes::touches(plan.changes, path) {
            let i = choose|i: int|
                0 <= i < plan.changes.len() && (#[trigger] plan.changes[i]).path == path;
            assert(replaced(plan, landed, d, i));
            assert(replaced(plan, after, d, i));
        }
    }
    assert(after.source =~= landed.source) by {
        assert forall|path: Seq<char>|
            #[trigger] after.source.contains_key(path) == landed.source.contains_key(path) by {
            assert(same_at(after.source, landed.source, path));
        }
        assert forall|path: Seq<char>| #[trigger] after.source.contains_key(path) implies after.source[path]
            == landed.source[path] by {
            assert(same_at(after.source, landed.source, path));
        }
    }
}

} // verus!
