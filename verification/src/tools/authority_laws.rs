//! Laws of authority: what passes at once, what somebody is asked for, and what an answer
//! does.

use crate::tools::approval::{ApprovalDecision, AuditView, RequestView};
use crate::tools::descriptor::Capability;
use crate::tools::error::ToolFault;
use crate::tools::policy;
use crate::tools::policy::{DecisionView, PermissionView, ScopeView};
use crate::tools::registry;
use crate::tools::registry::{Asking, ContextView};
use vstd::prelude::*;

verus! {

/// A tool may act at once if and only if the task grants the capability and does not deny
/// it. A capability that is neither granted nor denied needs an approval for that very
/// capability and resource.
pub proof fn law_only_granted_acts_pass(
    p: PermissionView,
    capability: Capability,
    resource: Seq<char>,
    actor: Seq<char>,
)
    ensures
        ({
            let r = registry::authorized(p, capability, resource, actor);
            &&& r is Ok <==> p.allow.contains(capability) && !p.deny.contains(capability)
            &&& match r {
                Ok(_) => true,
                Err(ToolFault::Denied(_)) => p.deny.contains(capability),
                Err(ToolFault::ApprovalRequired { capability: c, resource: q, .. }) => c
                    == capability && q == resource && !p.deny.contains(capability),
                Err(_) => false,
            }
        }),
{
}

/// An answer lets an act pass if and only if it is in force and allows it.
pub proof fn law_only_valid_answers_pass(decision: ApprovalDecision, valid: bool)
    ensures
        registry::settled(decision, valid) is Ok <==> valid && (decision
            == ApprovalDecision::AllowOnce || decision == ApprovalDecision::AllowRun),
{
}

/// What is asked for is decided on the scope that the request binds, and somebody is asked
/// if and only if the task neither grants nor denies it, the request is of this run, the
/// evaluation can be recorded and somebody is there to answer.
pub proof fn law_requests_are_asked_on_their_own_scope(
    context: ContextView,
    request: RequestView,
    audit: Option<Seq<AuditView>>,
)
    ensures
        ({
            let asked = registry::asked(context, request, audit);
            let capability = request.binding.capability;
            let granted = context.policy.allow.contains(capability);
            let denied = context.policy.deny.contains(capability);
            let scope = ScopeView {
                capability,
                resource: request.binding.resource,
                actor_fingerprint: Some(request.binding.actor_fingerprint),
            };
            &&& asked.result == Ok::<Asking, ToolFault>(Asking::Allowed) <==> granted && !denied
            &&& asked.result == Ok::<Asking, ToolFault>(Asking::Pending) <==> !granted && !denied
                && context.run_id == Some(request.binding.run_id) && audit is Some
                && context.has_resolver
            &&& asked.result == Ok::<Asking, ToolFault>(Asking::Pending) ==> {
                &&& asked.audit is Some
                &&& asked.audit->0.drop_last() == audit->0
                &&& match asked.audit->0.last() {
                    AuditView::Evaluation(DecisionView::Ask { scope: told, .. }) => told == scope,
                    _ => false,
                }
            }
            &&& granted || denied ==> asked.audit == audit
        }),
{
    match audit {
        Some(entries) => {
            let scope = ScopeView {
                capability: request.binding.capability,
                resource: request.binding.resource,
                actor_fingerprint: Some(request.binding.actor_fingerprint),
            };
            let verdict = policy::decision(context.policy, scope);
            assert(entries.push(AuditView::Evaluation(verdict)).drop_last() =~= entries);
        },
        None => {},
    }
}

} // verus!
