//! Exact replacement, authorization of effects, and the set of callable tools.

use crate::outcome;
use crate::text;
use crate::tools::approval::{
    ApprovalDecision, ApprovalRecord, ApprovalRequest, AuditView, PolicyAuditEntry, PolicyAuditLog,
    RecordView, RequestView,
};
use crate::tools::descriptor::{Capability, DescriptorView, ToolDescriptor};
use crate::tools::error::{ToolError, ToolFault};
use crate::tools::policy;
use crate::tools::policy::{PermissionView, PolicyDecision, PolicyEngine, ScopeView};
use vstd::prelude::*;

verus! {

/// `value` with every line end written as `line_ending`.
pub open spec fn adapted(value: Seq<char>, line_ending: Seq<char>) -> Seq<char> {
    text::replace_spec(
        text::replace_spec(text::replace_spec(value, "\r\n"@, "\n"@), "\r"@, "\n"@),
        "\n"@,
        line_ending,
    )
}

/// `value` with every line end written as `line_ending`.
pub fn adapt_line_endings(value: &str, line_ending: &str) -> (r: String)
    ensures
        r@ == adapted(value@, line_ending@),
{
    let unix = text::replace(value, "\r\n", "\n");
    let plain = text::replace(unix.as_str(), "\r", "\n");
    text::replace(plain.as_str(), "\n", line_ending)
}

/// The line ending of a text: CRLF where it has one.
pub open spec fn line_ending_of(s: Seq<char>) -> Seq<char> {
    if text::contains_text(s, "\r\n"@) {
        "\r\n"@
    } else {
        "\n"@
    }
}

/// Replacement of exactly `expected` occurrences, and how many there were; or how many
/// occurrences were found instead. Where the text has no occurrence as it stands, line
/// ends in `old` and `new` are read as those of the text.
pub open spec fn replaced(s: Seq<char>, old_text: Seq<char>, new: Seq<char>, expected: nat) -> Result<
    (Seq<char>, nat),
    nat,
> {
    let exact = text::count_matches_spec(s, old_text);
    let ending = line_ending_of(s);
    let adapted_old = adapted(old_text, ending);
    let count = text::count_matches_spec(s, adapted_old);
    if exact == expected {
        Ok((text::replace_spec(s, old_text, new), exact))
    } else if exact != 0 || (!old_text.contains('\r') && !old_text.contains('\n')) {
        Err(exact)
    } else if adapted_old == old_text {
        Err(exact)
    } else if count != expected {
        Err(count)
    } else {
        Ok((text::replace_spec(s, adapted_old, adapted(new, ending)), count))
    }
}

/// Replaces `old_text` by `new` if it occurs exactly `expected` times.
pub fn replace_checked_preserving_newlines(
    source: &str,
    old_text: &str,
    new: &str,
    expected: usize,
) -> (r: Result<(String, usize), usize>)
    requires
        source@.len() < usize::MAX,
    ensures
        match r {
            Ok(p) => replaced(source@, old_text@, new@, expected as nat) == Ok::<_, nat>(
                (p.0@, p.1 as nat),
            ),
            Err(n) => replaced(source@, old_text@, new@, expected as nat) == Err::<
                (Seq<char>, nat),
                nat,
            >(n as nat),
        },
{
    let exact: usize = text::count_matches(source, old_text);
    if exact == expected {
        return Ok((text::replace(source, old_text, new), exact));
    }
    if exact != 0 || (!text::contains_char(old_text, '\r') && !text::contains_char(
        old_text,
        '\n',
    )) {
        return Err(exact);
    }
    let line_ending = if text::contains(source, "\r\n") {
        "\r\n"
    } else {
        "\n"
    };
    let adapted_old = adapt_line_endings(old_text, line_ending);
    if text::same(adapted_old.as_str(), old_text) {
        return Err(exact);
    }
    let count: usize = text::count_matches(source, adapted_old.as_str());
    if count != expected {
        return Err(count);
    }
    let adapted_new = adapt_line_endings(new, line_ending);
    Ok((text::replace(source, adapted_old.as_str(), adapted_new.as_str()), count))
}

/// A replacement happens only where the text holds exactly the expected number of
/// occurrences, as written or with its own line ends.
pub proof fn law_replacement_is_counted(
    s: Seq<char>,
    old_text: Seq<char>,
    new: Seq<char>,
    expected: nat,
)
    ensures
        replaced(s, old_text, new, expected) matches Ok(p) ==> {
            &&& p.1 == expected
            &&& text::count_matches_spec(s, old_text) == expected || text::count_matches_spec(
                s,
                adapted(old_text, line_ending_of(s)),
            ) == expected
        },
{
}

/// An effect that was not expected is never made: without the expected number of
/// occurrences the caller learns the number found.
pub proof fn law_other_counts_are_refused(
    s: Seq<char>,
    old_text: Seq<char>,
    new: Seq<char>,
    expected: nat,
)
    ensures
        replaced(s, old_text, new, expected) matches Err(n) ==> n != expected,
{
}

/// Per-run authority made available to tools.
pub struct ToolContext<'a> {
    pub policy: &'a PolicyEngine,
    /// The run that the tools act for.
    pub run_id: Option<String>,
    /// Whether somebody can be asked for an approval.
    pub has_resolver: bool,
}

/// A [`ToolContext`] by its policy's sets and its texts.
pub struct ContextView {
    pub policy: PermissionView,
    pub run_id: Option<Seq<char>>,
    pub has_resolver: bool,
}

impl<'a> DeepView for ToolContext<'a> {
    type V = ContextView;

    open spec fn deep_view(&self) -> ContextView {
        ContextView {
            policy: self.policy.deep_view(),
            run_id: self.run_id.deep_view(),
            has_resolver: self.has_resolver,
        }
    }
}

/// Whether an effect may happen without asking anybody.
pub open spec fn authorized(
    policy: PermissionView,
    capability: Capability,
    resource: Seq<char>,
    actor: Seq<char>,
) -> Result<(), ToolFault> {
    let scope = ScopeView { capability, resource, actor_fingerprint: Some(actor) };
    match policy::decision(policy, scope) {
        policy::DecisionView::Allow { .. } => Ok(()),
        policy::DecisionView::Deny { reason } => Err(ToolFault::Denied(reason)),
        policy::DecisionView::Ask { scope, reason } => Err(
            ToolFault::ApprovalRequired {
                capability: scope.capability,
                resource: scope.resource,
                reason,
            },
        ),
    }
}

/// What comes of asking for an approval, before anybody was asked.
pub enum Asking {
    /// The policy allows the effect.
    Allowed,
    /// Somebody has to decide.
    Pending,
}

impl DeepView for Asking {
    type V = Asking;

    open spec fn deep_view(&self) -> Asking {
        *self
    }
}

/// A context with a request, and the audit buffer after the evaluation.
pub struct AskingView {
    pub audit: Option<Seq<AuditView>>,
    pub result: Result<Asking, ToolFault>,
}

/// What happens to a request whose exact actor and boundary are approval-bound.
pub open spec fn asked(
    context: ContextView,
    request: RequestView,
    audit: Option<Seq<AuditView>>,
) -> AskingView {
    let binding = request.binding;
    let scope = ScopeView {
        capability: binding.capability,
        resource: binding.resource,
        actor_fingerprint: Some(binding.actor_fingerprint),
    };
    let verdict = policy::decision(context.policy, scope);
    match verdict {
        policy::DecisionView::Allow { .. } => AskingView { audit, result: Ok(Asking::Allowed) },
        policy::DecisionView::Deny { reason } => AskingView {
            audit,
            result: Err(ToolFault::Denied(reason)),
        },
        policy::DecisionView::Ask { .. } => if context.run_id != Some(binding.run_id) {
            AskingView {
                audit,
                result: Err(
                    ToolFault::Denied(
                        "approval request does not match the evaluated policy scope"@,
                    ),
                ),
            }
        } else {
            match audit {
                None => AskingView { audit, result: Err(ToolFault::PolicyAuditUnavailable) },
                Some(entries) => AskingView {
                    audit: Some(entries.push(AuditView::Evaluation(verdict))),
                    result: if context.has_resolver {
                        Ok(Asking::Pending)
                    } else {
                        Err(
                            ToolFault::ApprovalRequired {
                                capability: binding.capability,
                                resource: binding.resource,
                                reason: request.reason,
                            },
                        )
                    },
                },
            }
        },
    }
}

/// What a decision comes to: `valid` says whether its record is in force at the moment
/// it is made.
pub open spec fn settled(decision: ApprovalDecision, valid: bool) -> Result<(), ToolFault> {
    if !valid {
        Err(
            ToolFault::Denied(
                "approval decision is expired or has an unsupported schema"@,
            ),
        )
    } else {
        match decision {
            ApprovalDecision::AllowOnce | ApprovalDecision::AllowRun => Ok(()),
            ApprovalDecision::Deny => Err(
                ToolFault::Denied("the scoped approval request was denied"@),
            ),
        }
    }
}

impl<'a> ToolContext<'a> {
    /// Creates a context in which nobody can be asked.
    pub fn new(policy: &'a PolicyEngine) -> (r: ToolContext<'a>)
        ensures
            r.deep_view() == (ContextView {
                policy: policy.deep_view(),
                run_id: None,
                has_resolver: false,
            }),
    {
        ToolContext { policy, run_id: None, has_resolver: false }
    }

    /// Attaches the run, and whether somebody can be asked for approvals.
    pub fn with_policy_audit(self, run_id: String, has_resolver: bool) -> (r: ToolContext<'a>)
        ensures
            r.deep_view() == (ContextView {
                policy: self.deep_view().policy,
                run_id: Some(run_id@),
                has_resolver,
            }),
    {
        ToolContext { policy: self.policy, run_id: Some(run_id), has_resolver }
    }

    /// Requires an allowed policy decision for one effect.
    pub fn authorize(&self, capability: Capability, resource: &str, actor: &str) -> (r: Result<
        (),
        ToolError,
    >)
        ensures
            outcome::of(r) == authorized(
                self.deep_view().policy,
                capability,
                resource@,
                actor@,
            ),
    {
        match self.policy.evaluate(capability, resource, Some(actor.to_owned())) {
            PolicyDecision::Allow { .. } => Ok(()),
            PolicyDecision::Deny { reason } => Err(ToolError::Denied(reason)),
            PolicyDecision::Ask { scope, reason } => Err(
                ToolError::ApprovalRequired {
                    capability: scope.capability,
                    resource: scope.resource,
                    reason,
                },
            ),
        }
    }

    /// Evaluates a request whose exact actor and enforcement boundary are
    /// approval-bound, and records the evaluation before anybody is asked.
    pub fn authorize_request(
        &self,
        request: &ApprovalRequest,
        audit: &mut Option<PolicyAuditLog>,
    ) -> (r: Result<Asking, ToolError>)
        ensures
            (AskingView { audit: (*final(audit)).deep_view(), result: outcome::of(r) }) == asked(
                self.deep_view(),
                request.deep_view(),
                (*old(audit)).deep_view(),
            ),
    {
        let decision = self.policy.evaluate(
            request.binding.capability,
            request.binding.resource.as_str(),
            Some(request.binding.actor_fingerprint.clone()),
        );
        match decision {
            PolicyDecision::Allow { .. } => Ok(Asking::Allowed),
            PolicyDecision::Deny { reason } => Err(ToolError::Denied(reason)),
            PolicyDecision::Ask { scope, reason } => {
                let same_run = match &self.run_id {
                    Some(id) => text::same(id.as_str(), request.binding.run_id.as_str()),
                    None => false,
                };
                if !same_run {
                    return Err(
                        ToolError::Denied(
                            "approval request does not match the evaluated policy scope".to_owned(),
                        ),
                    );
                }
                match audit {
                    None => Err(ToolError::PolicyAuditUnavailable),
                    Some(log) => {
                        log.push(
                            PolicyAuditEntry::Evaluation(PolicyDecision::Ask { scope, reason }),
                        );
                        if self.has_resolver {
                            Ok(Asking::Pending)
                        } else {
                            Err(
                                ToolError::ApprovalRequired {
                                    capability: request.binding.capability,
                                    resource: request.binding.resource.clone(),
                                    reason: request.reason.clone(),
                                },
                            )
                        }
                    },
                }
            },
        }
    }

    /// Records the decision of a request and says what it comes to. `valid` says whether
    /// the record is in force at the moment it is made.
    pub fn settle(
        &self,
        request: &ApprovalRequest,
        decision: ApprovalDecision,
        valid: bool,
        audit: &mut Option<PolicyAuditLog>,
    ) -> (r: Result<(), ToolError>)
        ensures
            (*old(audit)).deep_view() matches Some(entries) ==> {
                &&& (*final(audit)).deep_view() == Some(
                    entries.push(
                        AuditView::Approval(
                            RecordView { binding: request.deep_view().binding, decision },
                        ),
                    ),
                )
                &&& outcome::of(r) == settled(decision, valid)
            },
            (*old(audit)).deep_view() is None ==> (*final(audit)).deep_view() is None
                && outcome::of(r) == Err::<(), _>(ToolFault::PolicyAuditUnavailable),
    {
        match audit {
            None => Err(ToolError::PolicyAuditUnavailable),
            Some(log) => {
                log.push(
                    PolicyAuditEntry::Approval(
                        ApprovalRecord { binding: request.binding.clone(), decision },
                    ),
                );
                if !valid {
                    return Err(
                        ToolError::Denied(
                            "approval decision is expired or has an unsupported schema".to_owned(),
                        ),
                    );
                }
                match decision {
                    ApprovalDecision::AllowOnce | ApprovalDecision::AllowRun => Ok(()),
                    ApprovalDecision::Deny => Err(
                        ToolError::Denied("the scoped approval request was denied".to_owned()),
                    ),
                }
            },
        }
    }
}

/// No effect happens that is neither granted nor approved: a request passes at once only
/// on a grant, and after a decision only on one in force that allows it.
pub proof fn law_effects_need_a_grant_or_an_approval(
    context: ContextView,
    request: RequestView,
    audit: Option<Seq<AuditView>>,
    decision: ApprovalDecision,
    valid: bool,
)
    ensures
        asked(context, request, audit).result == Ok::<_, ToolFault>(Asking::Allowed)
            ==> context.policy.allow.contains(request.binding.capability)
            && !context.policy.deny.contains(request.binding.capability),
        settled(decision, valid) is Ok ==> valid && decision != ApprovalDecision::Deny,
        context.policy.deny.contains(request.binding.capability) ==> asked(
            context,
            request,
            audit,
        ).result is Err,
{
}

/// Nobody is asked before the evaluation stands in the audit buffer, and only for the
/// run that the request is bound to.
pub proof fn law_evaluations_are_recorded_before_asking(
    context: ContextView,
    request: RequestView,
    audit: Option<Seq<AuditView>>,
)
    ensures
        asked(context, request, audit).result == Ok::<_, ToolFault>(Asking::Pending) ==> {
            &&& context.has_resolver
            &&& context.run_id == Some(request.binding.run_id)
            &&& audit is Some
            &&& asked(context, request, audit).audit is Some
            &&& asked(context, request, audit).audit->0.len() == audit->0.len() + 1
            &&& asked(context, request, audit).audit->0.last() is Evaluation
        },
{
}

/// Descriptors in the strict order of their names.
pub open spec fn ordered(items: Seq<DescriptorView>) -> bool {
    forall|i: int, j: int|
        0 <= i < j < items.len() ==> text::precedes(
            (#[trigger] items[i]).name,
            (#[trigger] items[j]).name,
        )
}

/// The place of `name` among ordered descriptors: how many come before it.
pub open spec fn rank(items: Seq<DescriptorView>, name: Seq<char>) -> int
    decreases items.len(),
{
    if items.len() == 0 {
        0
    } else if text::precedes(items.last().name, name) {
        items.len() as int
    } else {
        rank(items.drop_last(), name)
    }
}

/// Whether a tool is called `name`.
pub open spec fn has_tool(items: Seq<DescriptorView>, name: Seq<char>) -> bool {
    exists|i: int| 0 <= i < items.len() && (#[trigger] items[i]).name == name
}

/// The descriptors after one more registration.
pub open spec fn registered(items: Seq<DescriptorView>, tool: DescriptorView) -> Result<
    Seq<DescriptorView>,
    ToolFault,
> {
    if has_tool(items, tool.name) {
        Err(ToolFault::DuplicateTool(tool.name))
    } else {
        Ok(items.insert(rank(items, tool.name), tool))
    }
}

/// Deterministically ordered set of callable tools, by what they present to a model.
pub struct ToolRegistry {
    tools: Vec<ToolDescriptor>,
}

impl DeepView for ToolRegistry {
    type V = Seq<DescriptorView>;

    closed spec fn deep_view(&self) -> Seq<DescriptorView> {
        self.tools.deep_view()
    }
}

proof fn lemma_rank(items: Seq<DescriptorView>, name: Seq<char>)
    requires
        ordered(items),
    ensures
        0 <= rank(items, name) <= items.len(),
        forall|i: int|
            0 <= i < rank(items, name) ==> text::precedes((#[trigger] items[i]).name, name),
        forall|i: int|
            rank(items, name) <= i < items.len() ==> !text::precedes(
                (#[trigger] items[i]).name,
                name,
            ),
    decreases items.len(),
{
    if items.len() > 0 {
        if text::precedes(items.last().name, name) {
            assert forall|i: int| 0 <= i < items.len() implies text::precedes(
                (#[trigger] items[i]).name,
                name,
            ) by {
                if i < items.len() - 1 {
                    assert(text::precedes(items[i].name, items[items.len() - 1].name));
                    text::lemma_precedes_transitive(items[i].name, items.last().name, name);
                }
            }
        } else {
            let rest = items.drop_last();
            assert(ordered(rest)) by {
                assert forall|i: int, j: int| 0 <= i < j < rest.len() implies text::precedes(
                    (#[trigger] rest[i]).name,
                    (#[trigger] rest[j]).name,
                ) by {
                    assert(text::precedes(items[i].name, items[j].name));
                }
            }
            lemma_rank(rest, name);
            assert forall|i: int| 0 <= i < rank(items, name) implies text::precedes(
                (#[trigger] items[i]).name,
                name,
            ) by {
                assert(rest[i] == items[i]);
            }
            assert forall|i: int| rank(items, name) <= i < items.len() implies !text::precedes(
                (#[trigger] items[i]).name,
                name,
            ) by {
                if i < rest.len() {
                    assert(rest[i] == items[i]);
                }
            }
        }
    }
}

/// Registration keeps the descriptors in the order of their names, each name once, and
/// leaves every other tool as it was.
pub proof fn law_registries_stay_ordered(items: Seq<DescriptorView>, tool: DescriptorView)
    requires
        ordered(items),
    ensures
        registered(items, tool) matches Ok(next) ==> {
            &&& ordered(next)
            &&& next.len() == items.len() + 1
            &&& next.contains(tool)
            &&& forall|d: DescriptorView| #[trigger] items.contains(d) ==> next.contains(d)
        },
{
    if !has_tool(items, tool.name) {
        let at = rank(items, tool.name);
        lemma_rank(items, tool.name);
        let next = items.insert(at, tool);
        assert(next[at] == tool);
        assert forall|i: int, j: int| 0 <= i < j < next.len() implies text::precedes(
            (#[trigger] next[i]).name,
            (#[trigger] next[j]).name,
        ) by {
            if i < at && j > at {
                assert(text::precedes(items[i].name, items[j - 1].name));
            } else if i < at && j < at {
                assert(text::precedes(items[i].name, items[j].name));
            } else if i == at {
                assert(items[j - 1].name != tool.name);
                text::lemma_precedes_total(items[j - 1].name, tool.name);
            } else if i > at {
                assert(text::precedes(items[i - 1].name, items[j - 1].name));
            }
        }
        assert forall|d: DescriptorView| #[trigger] items.contains(d) implies next.contains(d) by {
            let k = choose|k: int| 0 <= k < items.len() && items[k] == d;
            if k < at {
                assert(next[k] == d);
            } else {
                assert(next[k + 1] == d);
            }
        }
    }
}

/// Registration adds no tool but the one registered.
pub proof fn lemma_only_the_new(items: Seq<DescriptorView>, tool: DescriptorView)
    requires
        ordered(items),
    ensures
        registered(items, tool) matches Ok(next) ==> forall|d: DescriptorView| #[trigger]
            next.contains(d) ==> d == tool || items.contains(d),
{
    if !has_tool(items, tool.name) {
        let at = rank(items, tool.name);
        lemma_rank(items, tool.name);
        let next = items.insert(at, tool);
        assert forall|d: DescriptorView| #[trigger] next.contains(d) implies d == tool
            || items.contains(d) by {
            let k = choose|k: int| 0 <= k < next.len() && next[k] == d;
            if k < at {
                assert(items[k] == d);
            } else if k > at {
                assert(items[k - 1] == d);
            }
        }
    }
}

impl ToolRegistry {
    /// Whether the descriptors stand in the order of their names.
    pub open spec fn wf(&self) -> bool {
        ordered(self.deep_view())
    }

    /// Creates an empty registry.
    pub fn new() -> (r: ToolRegistry)
        ensures
            r.wf(),
            r.deep_view() == Seq::<DescriptorView>::empty(),
    {
        let r = ToolRegistry { tools: Vec::new() };
        assert(r.deep_view() =~= Seq::<DescriptorView>::empty());
        r
    }

    /// Registers a tool under its descriptor name.
    pub fn register(&mut self, tool: ToolDescriptor) -> (r: Result<(), ToolError>)
        requires
            old(self).wf(),
        ensures
            final(self).wf(),
            match registered(old(self).deep_view(), tool.deep_view()) {
                Ok(next) => r is Ok && final(self).deep_view() == next,
                Err(e) => outcome::of(r) == Err::<(), _>(e) && final(self).deep_view() == old(
                    self,
                ).deep_view(),
            },
    {
        let ghost items = self.deep_view();
        let ghost name = tool.name@;
        let mut at: usize = self.tools.len();
        assert(items.take(at as int) =~= items);
        while at > 0 && text::comes_before(
            tool.name.as_str(),
            self.tools[at - 1].name.as_str(),
        )
            invariant
                self.tools == old(self).tools,
                items == self.deep_view(),
                items.len() == self.tools@.len(),
                ordered(items),
                name == tool.name@,
                at <= self.tools@.len(),
                rank(items, name) == rank(items.take(at as int), name),
                forall|i: int| at <= i < items.len() ==> text::precedes(
                    name,
                    (#[trigger] items[i]).name,
                ),
            decreases at,
        {
            proof {
                let head = items.take(at as int);
                assert(head.last() == items[at - 1]);
                assert(head.drop_last() =~= items.take(at - 1));
                assert(text::precedes(name, items[at - 1].name));
                if text::precedes(items[at - 1].name, name) {
                    text::lemma_precedes_transitive(name, items[at - 1].name, name);
                    text::lemma_precedes_irreflexive(name);
                }
            }
            at -= 1;
        }
        if at > 0 && text::same(self.tools[at - 1].name.as_str(), tool.name.as_str()) {
            assert(items[at - 1].name == name);
            return Err(ToolError::DuplicateTool(tool.name));
        }
        proof {
            let head = items.take(at as int);
            if at > 0 {
                assert(head.last() == items[at - 1]);
                text::lemma_precedes_total(items[at - 1].name, name);
            }
            assert(rank(items, name) == at);
            lemma_rank(items, name);
            assert(!has_tool(items, name)) by {
                if has_tool(items, name) {
                    let k = choose|k: int| 0 <= k < items.len() && (#[trigger] items[k]).name
                        == name;
                    text::lemma_precedes_irreflexive(name);
                    if k >= at {
                        assert(text::precedes(name, items[k].name));
                    } else {
                        assert(text::precedes(items[k].name, name));
                    }
                }
            }
            law_registries_stay_ordered(items, tool.deep_view());
        }
        self.tools.insert(at, tool);
        assert(self.deep_view() =~= items.insert(at as int, tool.deep_view()));
        Ok(())
    }

    /// Returns descriptors in stable name order.
    pub fn descriptors(&self) -> (r: Vec<ToolDescriptor>)
        ensures
            r.deep_view() == self.deep_view(),
    {
        let mut out: Vec<ToolDescriptor> = Vec::new();
        let mut i: usize = 0;
        while i < self.tools.len()
            invariant
                i <= self.tools@.len(),
                out@.len() == i,
                forall|k: int|
                    0 <= k < i ==> (#[trigger] out@[k]).deep_view() == self.tools@[k].deep_view(),
            decreases self.tools@.len() - i,
        {
            out.push(self.tools[i].clone());
            i += 1;
        }
        assert(out.deep_view() =~= self.deep_view());
        out
    }

    /// Returns one registered descriptor without executing the tool.
    pub fn descriptor(&self, name: &str) -> (r: Option<ToolDescriptor>)
        ensures
            match r {
                Some(d) => d.name@ == name@ && self.deep_view().contains(d.deep_view()),
                None => !has_tool(self.deep_view(), name@),
            },
    {
        let mut i: usize = 0;
        while i < self.tools.len()
            invariant
                i <= self.tools@.len(),
                forall|k: int| 0 <= k < i ==> (#[trigger] self.deep_view()[k]).name != name@,
            decreases self.tools@.len() - i,
        {
            assert(self.deep_view()[i as int] == self.tools@[i as int].deep_view());
            if text::same(self.tools[i].name.as_str(), name) {
                return Some(self.tools[i].clone());
            }
            i += 1;
        }
        None
    }

    /// The descriptor of the tool that a call names; a call of no tool here is refused.
    pub fn select(&self, name: &str) -> (r: Result<ToolDescriptor, ToolError>)
        ensures
            match r {
                Ok(d) => d.name@ == name@ && self.deep_view().contains(d.deep_view()),
                Err(e) => !has_tool(self.deep_view(), name@) && e.deep_view()
                    == ToolFault::UnknownTool(name@),
            },
    {
        match self.descriptor(name) {
            Some(d) => Ok(d),
            None => Err(ToolError::UnknownTool(name.to_owned())),
        }
    }
}

} // verus!
