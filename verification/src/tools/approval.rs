//! Approvals of single effects, and the record that is kept of them.

use crate::tools::descriptor::Capability;
use crate::tools::policy::{DecisionView, PolicyDecision};
use vstd::prelude::*;

verus! {

/// What an approval is bound to: one run, one effect, and the boundary that enforces it.
#[derive(Debug)]
pub struct ApprovalBinding {
    pub run_id: String,
    pub capability: Capability,
    pub resource: String,
    pub actor_fingerprint: String,
    pub backend_kind: String,
    pub backend_identity: Option<String>,
    pub profile_digest: String,
}

/// An [`ApprovalBinding`] by its texts.
pub struct BindingView {
    pub run_id: Seq<char>,
    pub capability: Capability,
    pub resource: Seq<char>,
    pub actor_fingerprint: Seq<char>,
    pub backend_kind: Seq<char>,
    pub backend_identity: Option<Seq<char>>,
    pub profile_digest: Seq<char>,
}

impl DeepView for ApprovalBinding {
    type V = BindingView;

    open spec fn deep_view(&self) -> BindingView {
        BindingView {
            run_id: self.run_id@,
            capability: self.capability,
            resource: self.resource@,
            actor_fingerprint: self.actor_fingerprint@,
            backend_kind: self.backend_kind@,
            backend_identity: self.backend_identity.deep_view(),
            profile_digest: self.profile_digest@,
        }
    }
}

impl Clone for ApprovalBinding {
    fn clone(&self) -> (r: Self)
        ensures
            r.deep_view() == self.deep_view(),
    {
        ApprovalBinding {
            run_id: self.run_id.clone(),
            capability: self.capability,
            resource: self.resource.clone(),
            actor_fingerprint: self.actor_fingerprint.clone(),
            backend_kind: self.backend_kind.clone(),
            backend_identity: crate::text::copy_option(&self.backend_identity),
            profile_digest: self.profile_digest.clone(),
        }
    }
}

/// A request for one approval, with what is shown to whoever decides it.
#[derive(Debug)]
pub struct ApprovalRequest {
    pub binding: ApprovalBinding,
    pub reason: String,
    /// Titles and texts, in the order of the titles.
    pub presentation: Vec<(String, String)>,
}

/// An [`ApprovalRequest`] by its texts.
pub struct RequestView {
    pub binding: BindingView,
    pub reason: Seq<char>,
    pub presentation: Seq<(Seq<char>, Seq<char>)>,
}

impl DeepView for ApprovalRequest {
    type V = RequestView;

    open spec fn deep_view(&self) -> RequestView {
        RequestView {
            binding: self.binding.deep_view(),
            reason: self.reason@,
            presentation: self.presentation.deep_view(),
        }
    }
}

/// How a request was decided.
#[derive(Clone, Copy, Debug, PartialEq, Eq, Structural)]
pub enum ApprovalDecision {
    AllowOnce,
    AllowRun,
    Deny,
}

/// A decision and what it is bound to.
#[derive(Debug)]
pub struct ApprovalRecord {
    pub binding: ApprovalBinding,
    pub decision: ApprovalDecision,
}

/// An [`ApprovalRecord`] by its texts.
pub struct RecordView {
    pub binding: BindingView,
    pub decision: ApprovalDecision,
}

impl DeepView for ApprovalRecord {
    type V = RecordView;

    open spec fn deep_view(&self) -> RecordView {
        RecordView { binding: self.binding.deep_view(), decision: self.decision }
    }
}

/// Policy and approval facts collected during one tool execution.
#[derive(Debug)]
pub enum PolicyAuditEntry {
    Evaluation(PolicyDecision),
    Approval(ApprovalRecord),
}

/// A [`PolicyAuditEntry`] by its texts.
pub enum AuditView {
    Evaluation(DecisionView),
    Approval(RecordView),
}

impl DeepView for PolicyAuditEntry {
    type V = AuditView;

    open spec fn deep_view(&self) -> AuditView {
        match self {
            PolicyAuditEntry::Evaluation(d) => AuditView::Evaluation(d.deep_view()),
            PolicyAuditEntry::Approval(r) => AuditView::Approval(r.deep_view()),
        }
    }
}

/// Per-call audit buffer drained into the hash-linked run journal.
#[derive(Debug)]
pub struct PolicyAuditLog {
    entries: Vec<PolicyAuditEntry>,
}

impl DeepView for PolicyAuditLog {
    type V = Seq<AuditView>;

    closed spec fn deep_view(&self) -> Seq<AuditView> {
        self.entries.deep_view()
    }
}

impl Default for PolicyAuditLog {
    /// A buffer without entries.
    fn default() -> (r: Self)
        ensures
            r.deep_view() == Seq::<AuditView>::empty(),
    {
        let r = PolicyAuditLog { entries: Vec::new() };
        assert(r.deep_view() =~= Seq::<AuditView>::empty());
        r
    }
}

impl PolicyAuditLog {
    /// Appends one entry.
    pub fn push(&mut self, entry: PolicyAuditEntry)
        ensures
            final(self).deep_view() == old(self).deep_view().push(entry.deep_view()),
    {
        self.entries.push(entry);
        assert(self.deep_view() =~= old(self).deep_view().push(entry.deep_view()));
    }

    /// Removes all entries in deterministic insertion order.
    pub fn drain(&mut self) -> (r: Vec<PolicyAuditEntry>)
        ensures
            r.deep_view() == old(self).deep_view(),
            final(self).deep_view() == Seq::<AuditView>::empty(),
    {
        let mut taken: Vec<PolicyAuditEntry> = Vec::new();
        std::mem::swap(&mut taken, &mut self.entries);
        assert(self.deep_view() =~= Seq::<AuditView>::empty());
        taken
    }
}

} // verus!
