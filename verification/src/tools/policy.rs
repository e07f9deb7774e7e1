//! Which effects a task may have.

use crate::text;
use crate::tools::descriptor::Capability;
use vstd::prelude::*;

verus! {

/// A set of capabilities.
#[derive(Debug)]
pub struct CapabilitySet {
    items: Vec<Capability>,
}

impl View for CapabilitySet {
    type V = Set<Capability>;

    closed spec fn view(&self) -> Set<Capability> {
        self.items@.to_set()
    }
}

impl CapabilitySet {
    /// No capability.
    pub fn new() -> (r: CapabilitySet)
        ensures
            r@ == Set::<Capability>::empty(),
    {
        let r = CapabilitySet { items: Vec::new() };
        assert(r@ =~= Set::<Capability>::empty());
        r
    }

    /// Whether `capability` is in this set.
    pub fn contains(&self, capability: Capability) -> (r: bool)
        ensures
            r == self@.contains(capability),
    {
        let mut i: usize = 0;
        while i < self.items.len()
            invariant
                i <= self.items@.len(),
                forall|k: int| 0 <= k < i ==> self.items@[k] != capability,
            decreases self.items@.len() - i,
        {
            if self.items[i] == capability {
                assert(self.items@.contains(self.items@[i as int]));
                return true;
            }
            i += 1;
        }
        false
    }

    /// Adds `capability`.
    pub fn insert(&mut self, capability: Capability)
        ensures
            final(self)@ == old(self)@.insert(capability),
    {
        let ghost before = self.items@;
        self.items.push(capability);
        proof {
            before.lemma_push_to_set_commute(capability);
        }
    }

    /// Takes `capability` out.
    pub fn remove(&mut self, capability: Capability)
        ensures
            final(self)@ == old(self)@.remove(capability),
    {
        let mut kept: Vec<Capability> = Vec::new();
        let mut i: usize = 0;
        while i < self.items.len()
            invariant
                i <= self.items@.len(),
                self.items@ == old(self).items@,
                forall|c: Capability|
                    #![auto]
                    kept@.contains(c) <==> c != capability && self.items@.take(i as int).contains(c),
            decreases self.items@.len() - i,
        {
            let item = self.items[i];
            let ghost before = kept@;
            let ghost seen = self.items@.take(i as int);
            if item != capability {
                kept.push(item);
            }
            i += 1;
            assert(self.items@.take(i as int) =~= seen.push(item));
            assert forall|c: Capability|
                #![auto]
                kept@.contains(c) <==> c != capability && self.items@.take(i as int).contains(c) by {
                seen.lemma_push_to_set_commute(item);
                before.lemma_push_to_set_commute(item);
                assert(seen.push(item).to_set().contains(c) == (seen.to_set().contains(c) || c
                    == item));
                assert(before.push(item).to_set().contains(c) == (before.to_set().contains(c) || c
                    == item));
            }
        }
        assert(self.items@.take(i as int) =~= self.items@);
        self.items = kept;
        assert(self@ =~= old(self)@.remove(capability));
    }
}

impl Clone for CapabilitySet {
    fn clone(&self) -> (r: Self)
        ensures
            r@ == self@,
    {
        let mut items: Vec<Capability> = Vec::new();
        let mut i: usize = 0;
        while i < self.items.len()
            invariant
                i <= self.items@.len(),
                items@ == self.items@.take(i as int),
            decreases self.items@.len() - i,
        {
            items.push(self.items[i]);
            i += 1;
            assert(self.items@.take(i as int) =~= self.items@.take(i as int - 1).push(
                self.items@[i as int - 1],
            ));
        }
        assert(self.items@.take(i as int) =~= self.items@);
        CapabilitySet { items }
    }
}

/// What a task may do, and what it may not whatever else it may.
#[derive(Debug)]
pub struct PermissionSet {
    pub allow: CapabilitySet,
    pub deny: CapabilitySet,
}

/// A [`PermissionSet`] as two sets.
pub struct PermissionView {
    pub allow: Set<Capability>,
    pub deny: Set<Capability>,
}

impl DeepView for PermissionSet {
    type V = PermissionView;

    open spec fn deep_view(&self) -> PermissionView {
        PermissionView { allow: self.allow@, deny: self.deny@ }
    }
}

impl Default for PermissionSet {
    /// Nothing is allowed and nothing is denied.
    fn default() -> (r: Self)
        ensures
            r.deep_view() == (PermissionView { allow: Set::empty(), deny: Set::empty() }),
    {
        PermissionSet { allow: CapabilitySet::new(), deny: CapabilitySet::new() }
    }
}

impl Clone for PermissionSet {
    fn clone(&self) -> (r: Self)
        ensures
            r.deep_view() == self.deep_view(),
    {
        PermissionSet { allow: self.allow.clone(), deny: self.deny.clone() }
    }
}

/// One effect: what is done, to what, and by whom.
#[derive(Debug)]
pub struct ResourceScope {
    pub capability: Capability,
    pub resource: String,
    pub actor_fingerprint: Option<String>,
}

/// A [`ResourceScope`] by its texts.
pub struct ScopeView {
    pub capability: Capability,
    pub resource: Seq<char>,
    pub actor_fingerprint: Option<Seq<char>>,
}

impl DeepView for ResourceScope {
    type V = ScopeView;

    open spec fn deep_view(&self) -> ScopeView {
        ScopeView {
            capability: self.capability,
            resource: self.resource@,
            actor_fingerprint: self.actor_fingerprint.deep_view(),
        }
    }
}

/// What a policy says of one effect.
#[derive(Debug)]
#[allow(inconsistent_fields)]
pub enum PolicyDecision {
    Allow { scope: ResourceScope, reason: String },
    Ask { scope: ResourceScope, reason: String },
    Deny { reason: String },
}

/// A [`PolicyDecision`] by its texts.
#[allow(inconsistent_fields)]
pub enum DecisionView {
    Allow { scope: ScopeView, reason: Seq<char> },
    Ask { scope: ScopeView, reason: Seq<char> },
    Deny { reason: Seq<char> },
}

impl DeepView for PolicyDecision {
    type V = DecisionView;

    open spec fn deep_view(&self) -> DecisionView {
        match self {
            PolicyDecision::Allow { scope, reason } => DecisionView::Allow {
                scope: scope.deep_view(),
                reason: reason@,
            },
            PolicyDecision::Ask { scope, reason } => DecisionView::Ask {
                scope: scope.deep_view(),
                reason: reason@,
            },
            PolicyDecision::Deny { reason } => DecisionView::Deny { reason: reason@ },
        }
    }
}

/// Pure policy evaluator for tool capability requests.
#[derive(Debug)]
pub struct PolicyEngine {
    permissions: PermissionSet,
}

impl DeepView for PolicyEngine {
    type V = PermissionView;

    closed spec fn deep_view(&self) -> PermissionView {
        self.permissions.deep_view()
    }
}

impl Clone for PolicyEngine {
    fn clone(&self) -> (r: Self)
        ensures
            r.deep_view() == self.deep_view(),
    {
        PolicyEngine { permissions: self.permissions.clone() }
    }
}

/// What a policy says of one effect: a denial wins, then a grant; anything else needs
/// an approval.
pub open spec fn decision(policy: PermissionView, scope: ScopeView) -> DecisionView {
    let name = scope.capability.name_spec();
    if policy.deny.contains(scope.capability) {
        DecisionView::Deny { reason: name + " is denied by the task contract"@ }
    } else if policy.allow.contains(scope.capability) {
        DecisionView::Allow { scope, reason: name + " is allowed by the task contract"@ }
    } else {
        DecisionView::Ask { scope, reason: name + " requires a scoped approval"@ }
    }
}

/// The local default: workspace reads and writes, and nothing that leaves the machine.
pub open spec fn local_default_spec() -> PermissionView {
    PermissionView {
        allow: Set::<Capability>::empty().insert(Capability::FileRead).insert(
            Capability::FileWrite,
        ),
        deny: Set::<Capability>::empty().insert(Capability::Network).insert(
            Capability::SecretUse,
        ).insert(Capability::ExternalWrite),
    }
}

impl PolicyEngine {
    /// Creates a policy from the task's explicit permissions.
    pub fn new(permissions: PermissionSet) -> (r: PolicyEngine)
        ensures
            r.deep_view() == permissions.deep_view(),
    {
        PolicyEngine { permissions }
    }

    /// Allows workspace I/O, requires process approval, and denies external effects.
    pub fn local_default() -> (r: PolicyEngine)
        ensures
            r.deep_view() == local_default_spec(),
    {
        let mut permissions = PermissionSet::default();
        permissions.allow.insert(Capability::FileRead);
        permissions.allow.insert(Capability::FileWrite);
        permissions.deny.insert(Capability::Network);
        permissions.deny.insert(Capability::SecretUse);
        permissions.deny.insert(Capability::ExternalWrite);
        PolicyEngine { permissions }
    }

    /// Evaluates one narrowly scoped effect request.
    pub fn evaluate(
        &self,
        capability: Capability,
        resource: &str,
        actor_fingerprint: Option<String>,
    ) -> (r: PolicyDecision)
        ensures
            r.deep_view() == decision(
                self.deep_view(),
                ScopeView {
                    capability,
                    resource: resource@,
                    actor_fingerprint: actor_fingerprint.deep_view(),
                },
            ),
    {
        let scope = ResourceScope { capability, resource: resource.to_owned(), actor_fingerprint };
        if self.permissions.deny.contains(capability) {
            return PolicyDecision::Deny {
                reason: text::concat2(capability.name(), " is denied by the task contract"),
            };
        }
        if self.permissions.allow.contains(capability) {
            return PolicyDecision::Allow {
                scope,
                reason: text::concat2(capability.name(), " is allowed by the task contract"),
            };
        }
        PolicyDecision::Ask {
            scope,
            reason: text::concat2(capability.name(), " requires a scoped approval"),
        }
    }

    /// Returns this policy with one additional explicit grant.
    pub fn with_allowed(self, capability: Capability) -> (r: PolicyEngine)
        ensures
            r.deep_view() == (PermissionView {
                allow: self.deep_view().allow.insert(capability),
                deny: self.deep_view().deny.remove(capability),
            }),
    {
        let mut permissions = self.permissions;
        permissions.deny.remove(capability);
        permissions.allow.insert(capability);
        PolicyEngine { permissions }
    }
}

/// An explicit denial wins over any grant.
pub proof fn law_denial_wins(policy: PermissionView, scope: ScopeView)
    requires
        policy.deny.contains(scope.capability),
    ensures
        decision(policy, scope) is Deny,
{
}

/// Nothing is allowed that the task does not grant, and what it neither grants nor
/// denies is asked for.
pub proof fn law_only_grants_allow(policy: PermissionView, scope: ScopeView)
    ensures
        decision(policy, scope) is Allow ==> policy.allow.contains(scope.capability)
            && !policy.deny.contains(scope.capability),
        !policy.allow.contains(scope.capability) && !policy.deny.contains(scope.capability)
            ==> decision(policy, scope) is Ask,
{
}

/// A grant decides for its capability and for no other.
pub proof fn law_grants_are_narrow(policy: PermissionView, capability: Capability, scope: ScopeView)
    ensures
        ({
            let granted = PermissionView {
                allow: policy.allow.insert(capability),
                deny: policy.deny.remove(capability),
            };
            if scope.capability == capability {
                decision(granted, scope) is Allow
            } else {
                decision(granted, scope) == decision(policy, scope)
            }
        }),
{
}

} // verus!
