//! The store of policies, decisions and approvals, derived from events.

use crate::error::{query_error, same_outcome, ErrorModel, HydraError};
use crate::event::{event_models, Event, EventKind, EventModel};
use crate::ids::{texts, ActionId, ActorId, ApprovalId, ClaimId, PolicyDecisionId, PolicyId, TenantId};
use crate::index::{insert_under_all, key_views, remove_from_index, remove_under_all, Index, Key};
use crate::policy::{ApprovalRequest, ApprovalRequestModel, ApprovalStatus, Policy, PolicyDecision, PolicyDecisionKind, PolicyDecisionModel, PolicyKind, PolicyKindModel, PolicyModel, PolicyScope, PolicyScopeModel, PolicyStatus};
use crate::table::{all_records, filed, lists, map_views, views, Table};
use crate::time::Timestamp;
use vstd::prelude::*;
use vstd::std_specs::convert::FromSpecImpl;

verus! {

/// A key for finding policies by their scope.
#[derive(Debug, PartialEq)]
pub enum PolicyScopeKey {
    AnyAction,
    ActionKind(String),
    Actor(ActorId),
    Claim(ClaimId),
    Tenant(TenantId),
    Custom(String),
}

impl View for PolicyScopeKey {
    type V = PolicyScopeModel;

    open spec fn view(&self) -> PolicyScopeModel {
        match *self {
            PolicyScopeKey::AnyAction => PolicyScopeModel::AnyAction,
            PolicyScopeKey::ActionKind(x) => PolicyScopeModel::ActionKind(x@),
            PolicyScopeKey::Actor(x) => PolicyScopeModel::Actor(x@),
            PolicyScopeKey::Claim(x) => PolicyScopeModel::Claim(x@),
            PolicyScopeKey::Tenant(x) => PolicyScopeModel::Tenant(x@),
            PolicyScopeKey::Custom(x) => PolicyScopeModel::Custom(x@),
        }
    }
}

impl Clone for PolicyScopeKey {
    fn clone(&self) -> (r: Self)
        ensures
            r@ == self@,
    {
        match self {
            PolicyScopeKey::AnyAction => PolicyScopeKey::AnyAction,
            PolicyScopeKey::ActionKind(x) => PolicyScopeKey::ActionKind(x.clone()),
            PolicyScopeKey::Actor(x) => PolicyScopeKey::Actor(x.clone()),
            PolicyScopeKey::Claim(x) => PolicyScopeKey::Claim(x.clone()),
            PolicyScopeKey::Tenant(x) => PolicyScopeKey::Tenant(x.clone()),
            PolicyScopeKey::Custom(x) => PolicyScopeKey::Custom(x.clone()),
        }
    }
}

impl Key for PolicyScopeKey {
    fn same(&self, other: &Self) -> (r: bool) {
        match (self, other) {
            (PolicyScopeKey::AnyAction, PolicyScopeKey::AnyAction) => true,
            (PolicyScopeKey::ActionKind(x), PolicyScopeKey::ActionKind(y)) => *x == *y,
            (PolicyScopeKey::Actor(x), PolicyScopeKey::Actor(y)) => x.text == y.text,
            (PolicyScopeKey::Claim(x), PolicyScopeKey::Claim(y)) => x.text == y.text,
            (PolicyScopeKey::Tenant(x), PolicyScopeKey::Tenant(y)) => x.text == y.text,
            (PolicyScopeKey::Custom(x), PolicyScopeKey::Custom(y)) => *x == *y,
            _ => false,
        }
    }

    fn copy(&self) -> (r: Self) {
        self.clone()
    }
}

impl From<&PolicyScope> for PolicyScopeKey {
    fn from(value: &PolicyScope) -> (r: Self) {
        match value {
            PolicyScope::AnyAction => PolicyScopeKey::AnyAction,
            PolicyScope::ActionKind(x) => PolicyScopeKey::ActionKind(x.clone()),
            PolicyScope::Actor(x) => PolicyScopeKey::Actor(x.clone()),
            PolicyScope::Claim(x) => PolicyScopeKey::Claim(x.clone()),
            PolicyScope::Tenant(x) => PolicyScopeKey::Tenant(x.clone()),
            PolicyScope::Custom(x) => PolicyScopeKey::Custom(x.clone()),
        }
    }
}

impl FromSpecImpl<&PolicyScope> for PolicyScopeKey {
    open spec fn obeys_from_spec() -> bool {
        true
    }

    open spec fn from_spec(value: &PolicyScope) -> Self {
        match *value {
            PolicyScope::AnyAction => PolicyScopeKey::AnyAction,
            PolicyScope::ActionKind(x) => PolicyScopeKey::ActionKind(x),
            PolicyScope::Actor(x) => PolicyScopeKey::Actor(x),
            PolicyScope::Claim(x) => PolicyScopeKey::Claim(x),
            PolicyScope::Tenant(x) => PolicyScopeKey::Tenant(x),
            PolicyScope::Custom(x) => PolicyScopeKey::Custom(x),
        }
    }
}

/// What the store stands for: policies, decisions and approval requests by identifier.
pub struct PolicyStoreModel {
    pub policies: Map<Seq<char>, PolicyModel>,
    pub decisions: Map<Seq<char>, PolicyDecisionModel>,
    pub approvals: Map<Seq<char>, ApprovalRequestModel>,
}

/// Policies, decisions and approval requests, with indexes for queries.
pub struct PolicyStore {
    pub policies: Table<Policy>,
    pub policies_by_status: Index<PolicyStatus>,
    pub policies_by_kind: Index<PolicyKind>,
    pub policies_by_scope: Index<PolicyScopeKey>,
    pub decisions: Table<PolicyDecision>,
    pub decisions_by_action: Index<ActionId>,
    pub decisions_by_kind: Index<PolicyDecisionKind>,
    pub approvals: Table<ApprovalRequest>,
    pub approvals_by_action: Index<ActionId>,
    pub approvals_by_status: Index<ApprovalStatus>,
    pub approvals_by_requested_actor: Index<ActorId>,
}

impl View for PolicyStore {
    type V = PolicyStoreModel;

    open spec fn view(&self) -> PolicyStoreModel {
        PolicyStoreModel { policies: map_views(self.policies@), decisions: map_views(self.decisions@), approvals: map_views(self.approvals@) }
    }
}

impl Default for PolicyStore {
    fn default() -> (r: Self)
        ensures
            r.inv(),
            r@ == PolicyStoreModel::empty(),
    {
        PolicyStore::new()
    }
}

impl PolicyStoreModel {
    /// Nothing recorded.
    pub open spec fn empty() -> PolicyStoreModel {
        PolicyStoreModel { policies: Map::empty(), decisions: Map::empty(), approvals: Map::empty() }
    }

    /// The state with an approval request resolved, or why it is not.
    pub open spec fn resolved(
        self,
        approval_id: Seq<char>,
        status: ApprovalStatus,
        by: Seq<char>,
        at: Timestamp,
    ) -> Result<PolicyStoreModel, ErrorModel> {
        if !self.approvals.contains_key(approval_id) {
            Err(ErrorModel::QueryError("unknown approval: "@ + approval_id))
        } else {
            let request = ApprovalRequestModel {
                status,
                resolved_by: Some(by),
                resolved_at: Some(at),
                ..self.approvals[approval_id]
            };
            Ok(PolicyStoreModel { approvals: self.approvals.insert(request.id, request), ..self })
        }
    }

    /// The state after an event, or why it is refused.
    pub open spec fn after(self, event: EventModel) -> Result<PolicyStoreModel, ErrorModel> {
        match event.kind {
            EventKind::PolicyRegistered { policy } => Ok(
                PolicyStoreModel { policies: self.policies.insert(policy@.id, policy@), ..self },
            ),
            EventKind::PolicyDisabled { policy_id, .. } => {
                if !self.policies.contains_key(policy_id@) {
                    Err(ErrorModel::QueryError("unknown policy: "@ + policy_id@))
                } else {
                    let policy = PolicyModel {
                        status: PolicyStatus::Disabled,
                        updated_at: event.timestamp,
                        ..self.policies[policy_id@]
                    };
                    Ok(PolicyStoreModel { policies: self.policies.insert(policy.id, policy), ..self })
                }
            },
            EventKind::PolicyDecisionRecorded { decision } => Ok(
                PolicyStoreModel { decisions: self.decisions.insert(decision@.id, decision@), ..self },
            ),
            EventKind::ApprovalRequested { request } => Ok(
                PolicyStoreModel { approvals: self.approvals.insert(request@.id, request@), ..self },
            ),
            EventKind::ApprovalGranted { approval_id, approved_by } => self.resolved(
                approval_id@,
                ApprovalStatus::Approved,
                approved_by@,
                event.timestamp,
            ),
            EventKind::ApprovalRejected { approval_id, rejected_by, .. } => self.resolved(
                approval_id@,
                ApprovalStatus::Rejected,
                rejected_by@,
                event.timestamp,
            ),
            EventKind::ApprovalCancelled { approval_id, cancelled_by, .. } => self.resolved(
                approval_id@,
                ApprovalStatus::Cancelled,
                cancelled_by@,
                event.timestamp,
            ),
            _ => Ok(self),
        }
    }

    /// The state after a list of events, up to the first that is refused.
    pub open spec fn after_all(self, events: Seq<EventModel>) -> (PolicyStoreModel, Result<(), ErrorModel>)
        decreases events.len(),
    {
        if events.len() == 0 {
            (self, Ok(()))
        } else {
            match self.after(events[0]) {
                Ok(next) => next.after_all(events.skip(1)),
                Err(e) => (self, Err(e)),
            }
        }
    }
}

impl PolicyStore {
    /// The tables are well formed, every record stands under its own identifier, and
    /// the indexes file exactly the records that have each key.
    pub open spec fn inv(&self) -> bool {
        &&& self.policies.wf()
        &&& self.policies_by_status.wf()
        &&& self.policies_by_kind.wf()
        &&& self.policies_by_scope.wf()
        &&& self.decisions.wf()
        &&& self.decisions_by_action.wf()
        &&& self.decisions_by_kind.wf()
        &&& self.approvals.wf()
        &&& self.approvals_by_action.wf()
        &&& self.approvals_by_status.wf()
        &&& self.approvals_by_requested_actor.wf()
        &&& forall|t: Seq<char>| #[trigger] self@.policies.contains_key(t) ==> self@.policies[t].id == t
        &&& forall|k: PolicyStatus, t: Seq<char>| #[trigger]
            self.policies_by_status.has(k, t) <==> self@.policies.contains_key(t) && self@.policies[t].status == k
        &&& forall|k: PolicyKindModel, t: Seq<char>| #[trigger]
            self.policies_by_kind.has(k, t) <==> self@.policies.contains_key(t) && self@.policies[t].kind == k
        &&& forall|k: PolicyScopeModel, t: Seq<char>| #[trigger]
            self.policies_by_scope.has(k, t) <==> self@.policies.contains_key(t) && self@.policies[t].scope == k
        &&& forall|t: Seq<char>| #[trigger] self@.decisions.contains_key(t) ==> self@.decisions[t].id == t
        &&& forall|k: Seq<char>, t: Seq<char>| #[trigger]
            self.decisions_by_action.has(k, t) <==> self@.decisions.contains_key(t) && self@.decisions[t].action_id == k
        &&& forall|k: PolicyDecisionKind, t: Seq<char>| #[trigger]
            self.decisions_by_kind.has(k, t) <==> self@.decisions.contains_key(t) && self@.decisions[t].kind == k
        &&& forall|t: Seq<char>| #[trigger] self@.approvals.contains_key(t) ==> self@.approvals[t].id == t
        &&& forall|k: Seq<char>, t: Seq<char>| #[trigger]
            self.approvals_by_action.has(k, t) <==> self@.approvals.contains_key(t) && self@.approvals[t].action_id == k
        &&& forall|k: ApprovalStatus, t: Seq<char>| #[trigger]
            self.approvals_by_status.has(k, t) <==> self@.approvals.contains_key(t) && self@.approvals[t].status == k
        &&& forall|k: Seq<char>, t: Seq<char>| #[trigger]
            self.approvals_by_requested_actor.has(k, t) <==> self@.approvals.contains_key(t) && self@.approvals[t].requested_from.contains(k)
    }

    /// A store without records.
    pub fn new() -> (r: Self)
        ensures
            r.inv(),
            r@ == PolicyStoreModel::empty(),
    {
        let r = PolicyStore {
            policies: Table::new(),
            policies_by_status: Index::new(),
            policies_by_kind: Index::new(),
            policies_by_scope: Index::new(),
            decisions: Table::new(),
            decisions_by_action: Index::new(),
            decisions_by_kind: Index::new(),
            approvals: Table::new(),
            approvals_by_action: Index::new(),
            approvals_by_status: Index::new(),
            approvals_by_requested_actor: Index::new(),
        };
        assert(r@.policies =~= Map::<Seq<char>, PolicyModel>::empty());
        assert(r@.decisions =~= Map::<Seq<char>, PolicyDecisionModel>::empty());
        assert(r@.approvals =~= Map::<Seq<char>, ApprovalRequestModel>::empty());
        r
    }

    /// The number of policies.
    pub fn policy_count(&self) -> (r: usize)
        requires
            self.inv(),
        ensures
            r == self@.policies.len(),
    {
        assert(self@.policies.dom() =~= self.policies@.dom());
        self.policies.len()
    }

    /// The one of the policies with the identifier.
    pub fn policy(&self, id: &PolicyId) -> (r: Option<&Policy>)
        requires
            self.inv(),
        ensures
            match r {
                Some(v) => self@.policies.contains_key(id@) && v@ == self@.policies[id@],
                None => !self@.policies.contains_key(id@),
            },
    {
        self.policies.get(id)
    }

    /// All policies, each once, in the order in which they were first recorded.
    pub fn all_policies(&self) -> (r: Vec<&Policy>)
        requires
            self.inv(),
        ensures
            r@.len() == self.policies.order().len(),
            self.policies.order().no_duplicates(),
            forall|t: Seq<char>| #[trigger] self.policies.order().contains(t) <==> self@.policies.contains_key(t),
            forall|i: int| 0 <= i < r@.len() ==> #[trigger] views(r@)[i] == self@.policies[self.policies.order()[i]],
    {
        all_records(&self.policies)
    }

    /// The number of decisions.
    pub fn decision_count(&self) -> (r: usize)
        requires
            self.inv(),
        ensures
            r == self@.decisions.len(),
    {
        assert(self@.decisions.dom() =~= self.decisions@.dom());
        self.decisions.len()
    }

    /// The one of the decisions with the identifier.
    pub fn decision(&self, id: &PolicyDecisionId) -> (r: Option<&PolicyDecision>)
        requires
            self.inv(),
        ensures
            match r {
                Some(v) => self@.decisions.contains_key(id@) && v@ == self@.decisions[id@],
                None => !self@.decisions.contains_key(id@),
            },
    {
        self.decisions.get(id)
    }

    /// All decisions, each once, in the order in which they were first recorded.
    pub fn all_decisions(&self) -> (r: Vec<&PolicyDecision>)
        requires
            self.inv(),
        ensures
            r@.len() == self.decisions.order().len(),
            self.decisions.order().no_duplicates(),
            forall|t: Seq<char>| #[trigger] self.decisions.order().contains(t) <==> self@.decisions.contains_key(t),
            forall|i: int| 0 <= i < r@.len() ==> #[trigger] views(r@)[i] == self@.decisions[self.decisions.order()[i]],
    {
        all_records(&self.decisions)
    }

    /// The number of approval requests.
    pub fn approval_count(&self) -> (r: usize)
        requires
            self.inv(),
        ensures
            r == self@.approvals.len(),
    {
        assert(self@.approvals.dom() =~= self.approvals@.dom());
        self.approvals.len()
    }

    /// The one of the approval requests with the identifier.
    pub fn approval(&self, id: &ApprovalId) -> (r: Option<&ApprovalRequest>)
        requires
            self.inv(),
        ensures
            match r {
                Some(v) => self@.approvals.contains_key(id@) && v@ == self@.approvals[id@],
                None => !self@.approvals.contains_key(id@),
            },
    {
        self.approvals.get(id)
    }

    /// All approval requests, each once, in the order in which they were first recorded.
    pub fn all_approvals(&self) -> (r: Vec<&ApprovalRequest>)
        requires
            self.inv(),
        ensures
            r@.len() == self.approvals.order().len(),
            self.approvals.order().no_duplicates(),
            forall|t: Seq<char>| #[trigger] self.approvals.order().contains(t) <==> self@.approvals.contains_key(t),
            forall|i: int| 0 <= i < r@.len() ==> #[trigger] views(r@)[i] == self@.approvals[self.approvals.order()[i]],
    {
        all_records(&self.approvals)
    }

    /// The policies with a status.
    pub fn policies_with_status(&self, status: PolicyStatus) -> (r: Vec<&Policy>)
        requires
            self.inv(),
        ensures
            lists(
                views(r@),
                self@.policies,
                Set::new(|t: Seq<char>| self@.policies.contains_key(t) && self@.policies[t].status == status),
            ),
    {
        let r = filed(&self.policies, &self.policies_by_status, &status);
        assert(Set::new(|t: Seq<char>| self.policies_by_status.has(status, t)) =~= Set::new(
            |t: Seq<char>| self@.policies.contains_key(t) && self@.policies[t].status == status,
        ));
        r
    }

    /// The policies in force.
    pub fn active_policies(&self) -> (r: Vec<&Policy>)
        requires
            self.inv(),
        ensures
            lists(
                views(r@),
                self@.policies,
                Set::new(|t: Seq<char>| self@.policies.contains_key(t) && self@.policies[t].status == PolicyStatus::Active),
            ),
    {
        self.policies_with_status(PolicyStatus::Active)
    }

    /// The policies that are disabled.
    pub fn disabled_policies(&self) -> (r: Vec<&Policy>)
        requires
            self.inv(),
        ensures
            lists(
                views(r@),
                self@.policies,
                Set::new(|t: Seq<char>| self@.policies.contains_key(t) && self@.policies[t].status == PolicyStatus::Disabled),
            ),
    {
        self.policies_with_status(PolicyStatus::Disabled)
    }

    /// The policies of a kind.
    pub fn policies_with_kind(&self, kind: PolicyKind) -> (r: Vec<&Policy>)
        requires
            self.inv(),
        ensures
            lists(
                views(r@),
                self@.policies,
                Set::new(|t: Seq<char>| self@.policies.contains_key(t) && self@.policies[t].kind == kind@),
            ),
    {
        let r = filed(&self.policies, &self.policies_by_kind, &kind);
        assert(Set::new(|t: Seq<char>| self.policies_by_kind.has(kind@, t)) =~= Set::new(
            |t: Seq<char>| self@.policies.contains_key(t) && self@.policies[t].kind == kind@,
        ));
        r
    }

    /// The policies with a scope.
    pub fn policies_for_scope(&self, scope: &PolicyScope) -> (r: Vec<&Policy>)
        requires
            self.inv(),
        ensures
            lists(
                views(r@),
                self@.policies,
                Set::new(|t: Seq<char>| self@.policies.contains_key(t) && self@.policies[t].scope == scope@),
            ),
    {
        let key = PolicyScopeKey::from(scope);
        let r = filed(&self.policies, &self.policies_by_scope, &key);
        assert(Set::new(|t: Seq<char>| self.policies_by_scope.has(scope@, t)) =~= Set::new(
            |t: Seq<char>| self@.policies.contains_key(t) && self@.policies[t].scope == scope@,
        ));
        r
    }

    /// The decisions on an action.
    pub fn decisions_for_action(&self, action_id: &ActionId) -> (r: Vec<&PolicyDecision>)
        requires
            self.inv(),
        ensures
            lists(
                views(r@),
                self@.decisions,
                Set::new(|t: Seq<char>| self@.decisions.contains_key(t) && self@.decisions[t].action_id == action_id@),
            ),
    {
        let r = filed(&self.decisions, &self.decisions_by_action, action_id);
        assert(Set::new(|t: Seq<char>| self.decisions_by_action.has(action_id@, t)) =~= Set::new(
            |t: Seq<char>| self@.decisions.contains_key(t) && self@.decisions[t].action_id == action_id@,
        ));
        r
    }

    /// The decisions of a kind.
    pub fn decisions_with_kind(&self, kind: PolicyDecisionKind) -> (r: Vec<&PolicyDecision>)
        requires
            self.inv(),
        ensures
            lists(
                views(r@),
                self@.decisions,
                Set::new(|t: Seq<char>| self@.decisions.contains_key(t) && self@.decisions[t].kind == kind),
            ),
    {
        let r = filed(&self.decisions, &self.decisions_by_kind, &kind);
        assert(Set::new(|t: Seq<char>| self.decisions_by_kind.has(kind, t)) =~= Set::new(
            |t: Seq<char>| self@.decisions.contains_key(t) && self@.decisions[t].kind == kind,
        ));
        r
    }

    /// The approval requests for an action.
    pub fn approvals_for_action(&self, action_id: &ActionId) -> (r: Vec<&ApprovalRequest>)
        requires
            self.inv(),
        ensures
            lists(
                views(r@),
                self@.approvals,
                Set::new(|t: Seq<char>| self@.approvals.contains_key(t) && self@.approvals[t].action_id == action_id@),
            ),
    {
        let r = filed(&self.approvals, &self.approvals_by_action, action_id);
        assert(Set::new(|t: Seq<char>| self.approvals_by_action.has(action_id@, t)) =~= Set::new(
            |t: Seq<char>| self@.approvals.contains_key(t) && self@.approvals[t].action_id == action_id@,
        ));
        r
    }

    /// The approval requests with a status.
    pub fn approvals_with_status(&self, status: ApprovalStatus) -> (r: Vec<&ApprovalRequest>)
        requires
            self.inv(),
        ensures
            lists(
                views(r@),
                self@.approvals,
                Set::new(|t: Seq<char>| self@.approvals.contains_key(t) && self@.approvals[t].status == status),
            ),
    {
        let r = filed(&self.approvals, &self.approvals_by_status, &status);
        assert(Set::new(|t: Seq<char>| self.approvals_by_status.has(status, t)) =~= Set::new(
            |t: Seq<char>| self@.approvals.contains_key(t) && self@.approvals[t].status == status,
        ));
        r
    }

    /// The approval requests not yet resolved.
    pub fn pending_approvals(&self) -> (r: Vec<&ApprovalRequest>)
        requires
            self.inv(),
        ensures
            lists(
                views(r@),
                self@.approvals,
                Set::new(|t: Seq<char>| self@.approvals.contains_key(t) && self@.approvals[t].status == ApprovalStatus::Requested),
            ),
    {
        self.approvals_with_status(ApprovalStatus::Requested)
    }

    /// The approval requests that were granted.
    pub fn approved_requests(&self) -> (r: Vec<&ApprovalRequest>)
        requires
            self.inv(),
        ensures
            lists(
                views(r@),
                self@.approvals,
                Set::new(|t: Seq<char>| self@.approvals.contains_key(t) && self@.approvals[t].status == ApprovalStatus::Approved),
            ),
    {
        self.approvals_with_status(ApprovalStatus::Approved)
    }

    /// The approval requests that were rejected.
    pub fn rejected_requests(&self) -> (r: Vec<&ApprovalRequest>)
        requires
            self.inv(),
        ensures
            lists(
                views(r@),
                self@.approvals,
                Set::new(|t: Seq<char>| self@.approvals.contains_key(t) && self@.approvals[t].status == ApprovalStatus::Rejected),
            ),
    {
        self.approvals_with_status(ApprovalStatus::Rejected)
    }

    /// The approval requests made to an actor.
    pub fn approvals_requested_from(&self, actor_id: &ActorId) -> (r: Vec<&ApprovalRequest>)
        requires
            self.inv(),
        ensures
            lists(
                views(r@),
                self@.approvals,
                Set::new(|t: Seq<char>| self@.approvals.contains_key(t) && self@.approvals[t].requested_from.contains(actor_id@)),
            ),
    {
        let r = filed(&self.approvals, &self.approvals_by_requested_actor, actor_id);
        assert(Set::new(|t: Seq<char>| self.approvals_by_requested_actor.has(actor_id@, t)) =~= Set::new(
            |t: Seq<char>| self@.approvals.contains_key(t) && self@.approvals[t].requested_from.contains(actor_id@),
        ));
        r
    }

    fn insert_policy(&mut self, policy: Policy)
        requires
            old(self).inv(),
        ensures
            final(self).inv(),
            final(self)@ == (PolicyStoreModel { policies: old(self)@.policies.insert(policy@.id, policy@), ..old(self)@ }),
    {
        let ghost before = self@;
        let ghost stored = policy@;
        let id = policy.id.clone();
        if let Some(existing) = self.policies.get(&id) {
            remove_from_index(&mut self.policies_by_status, &existing.status, &id);
            remove_from_index(&mut self.policies_by_kind, &existing.kind, &id);
            remove_from_index(&mut self.policies_by_scope, &PolicyScopeKey::from(&existing.scope), &id);
        }
        self.policies_by_status.insert(policy.status, id.clone());
        self.policies_by_kind.insert(policy.kind.clone(), id.clone());
        self.policies_by_scope.insert(PolicyScopeKey::from(&policy.scope), id.clone());
        self.policies.insert(id, policy);
        assert(self@.policies =~= before.policies.insert(stored.id, stored));
    }

    fn insert_decision(&mut self, decision: PolicyDecision)
        requires
            old(self).inv(),
        ensures
            final(self).inv(),
            final(self)@ == (PolicyStoreModel { decisions: old(self)@.decisions.insert(decision@.id, decision@), ..old(self)@ }),
    {
        let ghost before = self@;
        let ghost stored = decision@;
        let id = decision.id.clone();
        if let Some(existing) = self.decisions.get(&id) {
            remove_from_index(&mut self.decisions_by_action, &existing.action_id, &id);
            remove_from_index(&mut self.decisions_by_kind, &existing.kind, &id);
        }
        self.decisions_by_action.insert(decision.action_id.clone(), id.clone());
        self.decisions_by_kind.insert(decision.kind, id.clone());
        self.decisions.insert(id, decision);
        assert(self@.decisions =~= before.decisions.insert(stored.id, stored));
    }

    fn insert_approval(&mut self, approval: ApprovalRequest)
        requires
            old(self).inv(),
        ensures
            final(self).inv(),
            final(self)@ == (PolicyStoreModel { approvals: old(self)@.approvals.insert(approval@.id, approval@), ..old(self)@ }),
    {
        let ghost before = self@;
        let ghost stored = approval@;
        let id = approval.id.clone();
        if let Some(existing) = self.approvals.get(&id) {
            remove_from_index(&mut self.approvals_by_action, &existing.action_id, &id);
            remove_from_index(&mut self.approvals_by_status, &existing.status, &id);
            remove_under_all(&mut self.approvals_by_requested_actor, &existing.requested_from, &id);
            assert(key_views(existing.requested_from@) =~= texts(existing.requested_from@));
        }
        self.approvals_by_action.insert(approval.action_id.clone(), id.clone());
        self.approvals_by_status.insert(approval.status, id.clone());
        insert_under_all(&mut self.approvals_by_requested_actor, &approval.requested_from, &id);
        assert(key_views(approval.requested_from@) =~= texts(approval.requested_from@));
        self.approvals.insert(id, approval);
        assert(self@.approvals =~= before.approvals.insert(stored.id, stored));
    }

    fn disable_policy(&mut self, policy_id: &PolicyId, at: Timestamp) -> (r: Result<(), HydraError>)
        requires
            old(self).inv(),
        ensures
            final(self).inv(),
            if old(self)@.policies.contains_key(policy_id@) {
                let policy = PolicyModel {
                    status: PolicyStatus::Disabled,
                    updated_at: at,
                    ..old(self)@.policies[policy_id@]
                };
                &&& r is Ok
                &&& final(self)@ == (PolicyStoreModel {
                    policies: old(self)@.policies.insert(policy.id, policy),
                    ..old(self)@
                })
            } else {
                &&& r is Err
                &&& r->Err_0@ == ErrorModel::QueryError("unknown policy: "@ + policy_id@)
                &&& final(self)@ == old(self)@
            },
    {
        match self.policies.get(policy_id) {
            Some(existing) => {
                let mut policy = existing.clone();
                policy.status = PolicyStatus::Disabled;
                policy.updated_at = at;
                self.insert_policy(policy);
                Ok(())
            },
            None => Err(query_error("unknown policy: ", policy_id.as_str())),
        }
    }

    fn resolve_approval(
        &mut self,
        approval_id: &ApprovalId,
        status: ApprovalStatus,
        by: &ActorId,
        at: Timestamp,
    ) -> (r: Result<(), HydraError>)
        requires
            old(self).inv(),
        ensures
            final(self).inv(),
            match old(self)@.resolved(approval_id@, status, by@, at) {
                Ok(next) => r is Ok && final(self)@ == next,
                Err(e) => r is Err && r->Err_0@ == e && final(self)@ == old(self)@,
            },
    {
        match self.approvals.get(approval_id) {
            Some(existing) => {
                let mut approval = existing.clone();
                approval.status = status;
                approval.resolved_by = Some(by.clone());
                approval.resolved_at = Some(at);
                self.insert_approval(approval);
                Ok(())
            },
            None => Err(query_error("unknown approval: ", approval_id.as_str())),
        }
    }

    /// Applies an event. Events of other kinds are ignored; a refused event changes nothing.
    pub fn apply_event(&mut self, event: &Event) -> (r: Result<(), HydraError>)
        requires
            old(self).inv(),
        ensures
            final(self).inv(),
            match old(self)@.after(event@) {
                Ok(next) => r is Ok && final(self)@ == next,
                Err(e) => r is Err && r->Err_0@ == e && final(self)@ == old(self)@,
            },
    {
        match &event.kind {
            EventKind::PolicyRegistered { policy } => {
                self.insert_policy(policy.clone());
                Ok(())
            },
            EventKind::PolicyDisabled { policy_id, .. } => self.disable_policy(policy_id, event.timestamp),
            EventKind::PolicyDecisionRecorded { decision } => {
                self.insert_decision(decision.clone());
                Ok(())
            },
            EventKind::ApprovalRequested { request } => {
                self.insert_approval(request.clone());
                Ok(())
            },
            EventKind::ApprovalGranted { approval_id, approved_by } => self.resolve_approval(
                approval_id,
                ApprovalStatus::Approved,
                approved_by,
                event.timestamp,
            ),
            EventKind::ApprovalRejected { approval_id, rejected_by, .. } => self.resolve_approval(
                approval_id,
                ApprovalStatus::Rejected,
                rejected_by,
                event.timestamp,
            ),
            EventKind::ApprovalCancelled { approval_id, cancelled_by, .. } => self.resolve_approval(
                approval_id,
                ApprovalStatus::Cancelled,
                cancelled_by,
                event.timestamp,
            ),
            _ => Ok(()),
        }
    }

    /// Applies events in order, up to the first that is refused.
    pub fn apply_events(&mut self, events: &Vec<Event>) -> (r: Result<(), HydraError>)
        requires
            old(self).inv(),
        ensures
            final(self).inv(),
            final(self)@ == old(self)@.after_all(event_models(events@)).0,
            same_outcome(r, old(self)@.after_all(event_models(events@)).1),
    {
        let ghost before = self@;
        let mut i: usize = 0;
        let ghost models = event_models(events@);
        assert(models.skip(0) =~= models);
        while i < events.len()
            invariant
                i <= events@.len(),
                self.inv(),
                before == old(self)@,
                models == event_models(events@),
                self@.after_all(models.skip(i as int)) == before.after_all(models),
            decreases events@.len() - i,
        {
            proof {
                assert(models.skip(i as int)[0] == events@[i as int]@);
                assert(models.skip(i as int).skip(1) =~= models.skip(i + 1));
            }
            match self.apply_event(&events[i]) {
                Ok(_) => {},
                Err(e) => {
                    return Err(e);
                },
            }
            i += 1;
        }
        Ok(())
    }
}

/// Policies, decisions and approval requests are never forgotten.
pub proof fn law_governance_is_kept(store: PolicyStoreModel, event: EventModel)
    requires
        store.after(event) is Ok,
    ensures
        store.policies.dom().subset_of(store.after(event)->Ok_0.policies.dom()),
        store.decisions.dom().subset_of(store.after(event)->Ok_0.decisions.dom()),
        store.approvals.dom().subset_of(store.after(event)->Ok_0.approvals.dom()),
{
}

} // verus!
