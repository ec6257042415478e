//! Policies, decisions and approval requests.

use crate::ids::{clone_ids, clone_opt_id, opt_text, texts, ActionId, ActorId, ApprovalId, ClaimId, EventId, EvidenceId, PolicyDecisionId, PolicyId, TenantId};
use crate::index::Key;
use crate::time::Timestamp;
use crate::value::{Properties, ValueModel};
use vstd::prelude::*;

verus! {

/// Whether a policy is in force.
#[derive(Debug, Clone, Copy, PartialEq, Eq, Structural, Hash)]
pub enum PolicyStatus {
    Active,
    Disabled,
}

impl View for PolicyStatus {
    type V = PolicyStatus;

    open spec fn view(&self) -> PolicyStatus {
        *self
    }
}

impl Key for PolicyStatus {
    fn same(&self, other: &Self) -> (r: bool) {
        *self == *other
    }

    fn copy(&self) -> (r: Self) {
        *self
    }
}

/// What a policy demands.
#[derive(Debug, PartialEq)]
pub enum PolicyKind {
    AutoApproval,
    HumanApproval,
    Block,
    Escalation,
    ReviewRequirement,
    Compliance,
    Security,
    Finance,
    Payroll,
    Custom(String),
}

/// What a kind of policy stands for.
pub enum PolicyKindModel {
    AutoApproval,
    HumanApproval,
    Block,
    Escalation,
    ReviewRequirement,
    Compliance,
    Security,
    Finance,
    Payroll,
    Custom(Seq<char>),
}

impl View for PolicyKind {
    type V = PolicyKindModel;

    open spec fn view(&self) -> PolicyKindModel {
        match *self {
            PolicyKind::AutoApproval => PolicyKindModel::AutoApproval,
            PolicyKind::HumanApproval => PolicyKindModel::HumanApproval,
            PolicyKind::Block => PolicyKindModel::Block,
            PolicyKind::Escalation => PolicyKindModel::Escalation,
            PolicyKind::ReviewRequirement => PolicyKindModel::ReviewRequirement,
            PolicyKind::Compliance => PolicyKindModel::Compliance,
            PolicyKind::Security => PolicyKindModel::Security,
            PolicyKind::Finance => PolicyKindModel::Finance,
            PolicyKind::Payroll => PolicyKindModel::Payroll,
            PolicyKind::Custom(x) => PolicyKindModel::Custom(x@),
        }
    }
}

impl Clone for PolicyKind {
    fn clone(&self) -> (r: Self)
        ensures
            r@ == self@,
    {
        match self {
            PolicyKind::AutoApproval => PolicyKind::AutoApproval,
            PolicyKind::HumanApproval => PolicyKind::HumanApproval,
            PolicyKind::Block => PolicyKind::Block,
            PolicyKind::Escalation => PolicyKind::Escalation,
            PolicyKind::ReviewRequirement => PolicyKind::ReviewRequirement,
            PolicyKind::Compliance => PolicyKind::Compliance,
            PolicyKind::Security => PolicyKind::Security,
            PolicyKind::Finance => PolicyKind::Finance,
            PolicyKind::Payroll => PolicyKind::Payroll,
            PolicyKind::Custom(x) => PolicyKind::Custom(x.clone()),
        }
    }
}

impl Key for PolicyKind {
    fn same(&self, other: &Self) -> (r: bool) {
        match (self, other) {
            (PolicyKind::AutoApproval, PolicyKind::AutoApproval) => true,
            (PolicyKind::HumanApproval, PolicyKind::HumanApproval) => true,
            (PolicyKind::Block, PolicyKind::Block) => true,
            (PolicyKind::Escalation, PolicyKind::Escalation) => true,
            (PolicyKind::ReviewRequirement, PolicyKind::ReviewRequirement) => true,
            (PolicyKind::Compliance, PolicyKind::Compliance) => true,
            (PolicyKind::Security, PolicyKind::Security) => true,
            (PolicyKind::Finance, PolicyKind::Finance) => true,
            (PolicyKind::Payroll, PolicyKind::Payroll) => true,
            (PolicyKind::Custom(x), PolicyKind::Custom(y)) => *x == *y,
            _ => false,
        }
    }

    fn copy(&self) -> (r: Self) {
        self.clone()
    }
}

/// Which actions a policy is for.
#[derive(Debug, PartialEq)]
pub enum PolicyScope {
    AnyAction,
    ActionKind(String),
    Actor(ActorId),
    Claim(ClaimId),
    Tenant(TenantId),
    Custom(String),
}

/// What the scope of a policy stands for.
pub enum PolicyScopeModel {
    AnyAction,
    ActionKind(Seq<char>),
    Actor(Seq<char>),
    Claim(Seq<char>),
    Tenant(Seq<char>),
    Custom(Seq<char>),
}

impl View for PolicyScope {
    type V = PolicyScopeModel;

    open spec fn view(&self) -> PolicyScopeModel {
        match *self {
            PolicyScope::AnyAction => PolicyScopeModel::AnyAction,
            PolicyScope::ActionKind(x) => PolicyScopeModel::ActionKind(x@),
            PolicyScope::Actor(x) => PolicyScopeModel::Actor(x@),
            PolicyScope::Claim(x) => PolicyScopeModel::Claim(x@),
            PolicyScope::Tenant(x) => PolicyScopeModel::Tenant(x@),
            PolicyScope::Custom(x) => PolicyScopeModel::Custom(x@),
        }
    }
}

impl Clone for PolicyScope {
    fn clone(&self) -> (r: Self)
        ensures
            r@ == self@,
    {
        match self {
            PolicyScope::AnyAction => PolicyScope::AnyAction,
            PolicyScope::ActionKind(x) => PolicyScope::ActionKind(x.clone()),
            PolicyScope::Actor(x) => PolicyScope::Actor(x.clone()),
            PolicyScope::Claim(x) => PolicyScope::Claim(x.clone()),
            PolicyScope::Tenant(x) => PolicyScope::Tenant(x.clone()),
            PolicyScope::Custom(x) => PolicyScope::Custom(x.clone()),
        }
    }
}

/// What was decided on an action.
#[derive(Debug, Clone, Copy, PartialEq, Eq, Structural, Hash)]
pub enum PolicyDecisionKind {
    Allow,
    AutoApprove,
    RequireApproval,
    NeedsHumanReview,
    Escalate,
    Reject,
    Block,
}

impl View for PolicyDecisionKind {
    type V = PolicyDecisionKind;

    open spec fn view(&self) -> PolicyDecisionKind {
        *self
    }
}

impl Key for PolicyDecisionKind {
    fn same(&self, other: &Self) -> (r: bool) {
        *self == *other
    }

    fn copy(&self) -> (r: Self) {
        *self
    }
}

/// Where an approval request stands.
#[derive(Debug, Clone, Copy, PartialEq, Eq, Structural, Hash)]
pub enum ApprovalStatus {
    Requested,
    Approved,
    Rejected,
    Cancelled,
}

impl View for ApprovalStatus {
    type V = ApprovalStatus;

    open spec fn view(&self) -> ApprovalStatus {
        *self
    }
}

impl Key for ApprovalStatus {
    fn same(&self, other: &Self) -> (r: bool) {
        *self == *other
    }

    fn copy(&self) -> (r: Self) {
        *self
    }
}

/// A rule on actions.
#[derive(Debug, PartialEq)]
pub struct Policy {
    pub id: PolicyId,
    pub tenant_id: Option<TenantId>,
    pub name: String,
    pub kind: PolicyKind,
    pub status: PolicyStatus,
    pub scope: PolicyScope,
    pub condition: Properties,
    pub metadata: Properties,
    pub created_by: ActorId,
    pub created_at: Timestamp,
    pub updated_at: Timestamp,
    pub caused_by: Option<EventId>,
}

/// What a policy stands for.
pub struct PolicyModel {
    pub id: Seq<char>,
    pub tenant_id: Option<Seq<char>>,
    pub name: Seq<char>,
    pub kind: PolicyKindModel,
    pub status: PolicyStatus,
    pub scope: PolicyScopeModel,
    pub condition: Map<Seq<char>, ValueModel>,
    pub metadata: Map<Seq<char>, ValueModel>,
    pub created_by: Seq<char>,
    pub created_at: Timestamp,
    pub updated_at: Timestamp,
    pub caused_by: Option<Seq<char>>,
}

impl View for Policy {
    type V = PolicyModel;

    open spec fn view(&self) -> PolicyModel {
        PolicyModel {
            id: self.id@,
            tenant_id: opt_text(self.tenant_id),
            name: self.name@,
            kind: self.kind@,
            status: self.status,
            scope: self.scope@,
            condition: self.condition@,
            metadata: self.metadata@,
            created_by: self.created_by@,
            created_at: self.created_at,
            updated_at: self.updated_at,
            caused_by: opt_text(self.caused_by),
        }
    }
}

impl Clone for Policy {
    fn clone(&self) -> (r: Self)
        ensures
            r@ == self@,
    {
        Policy {
            id: self.id.clone(),
            tenant_id: clone_opt_id(&self.tenant_id),
            name: self.name.clone(),
            kind: self.kind.clone(),
            status: self.status,
            scope: self.scope.clone(),
            condition: self.condition.clone(),
            metadata: self.metadata.clone(),
            created_by: self.created_by.clone(),
            created_at: self.created_at,
            updated_at: self.updated_at,
            caused_by: clone_opt_id(&self.caused_by),
        }
    }
}

/// A decision on an action.
#[derive(Debug, PartialEq)]
pub struct PolicyDecision {
    pub id: PolicyDecisionId,
    pub tenant_id: Option<TenantId>,
    pub policy_id: Option<PolicyId>,
    pub action_id: ActionId,
    pub kind: PolicyDecisionKind,
    pub reason: String,
    pub evidence: Vec<EvidenceId>,
    pub related_claims: Vec<ClaimId>,
    pub decided_by: ActorId,
    pub decided_at: Timestamp,
    pub caused_by: Option<EventId>,
    pub details: Properties,
}

/// What a decision on an action stands for.
pub struct PolicyDecisionModel {
    pub id: Seq<char>,
    pub tenant_id: Option<Seq<char>>,
    pub policy_id: Option<Seq<char>>,
    pub action_id: Seq<char>,
    pub kind: PolicyDecisionKind,
    pub reason: Seq<char>,
    pub evidence: Seq<Seq<char>>,
    pub related_claims: Seq<Seq<char>>,
    pub decided_by: Seq<char>,
    pub decided_at: Timestamp,
    pub caused_by: Option<Seq<char>>,
    pub details: Map<Seq<char>, ValueModel>,
}

impl View for PolicyDecision {
    type V = PolicyDecisionModel;

    open spec fn view(&self) -> PolicyDecisionModel {
        PolicyDecisionModel {
            id: self.id@,
            tenant_id: opt_text(self.tenant_id),
            policy_id: opt_text(self.policy_id),
            action_id: self.action_id@,
            kind: self.kind,
            reason: self.reason@,
            evidence: texts(self.evidence@),
            related_claims: texts(self.related_claims@),
            decided_by: self.decided_by@,
            decided_at: self.decided_at,
            caused_by: opt_text(self.caused_by),
            details: self.details@,
        }
    }
}

impl Clone for PolicyDecision {
    fn clone(&self) -> (r: Self)
        ensures
            r@ == self@,
    {
        PolicyDecision {
            id: self.id.clone(),
            tenant_id: clone_opt_id(&self.tenant_id),
            policy_id: clone_opt_id(&self.policy_id),
            action_id: self.action_id.clone(),
            kind: self.kind,
            reason: self.reason.clone(),
            evidence: clone_ids(&self.evidence),
            related_claims: clone_ids(&self.related_claims),
            decided_by: self.decided_by.clone(),
            decided_at: self.decided_at,
            caused_by: clone_opt_id(&self.caused_by),
            details: self.details.clone(),
        }
    }
}

/// A request to approve an action.
#[derive(Debug, PartialEq)]
pub struct ApprovalRequest {
    pub id: ApprovalId,
    pub tenant_id: Option<TenantId>,
    pub action_id: ActionId,
    pub policy_decision_id: Option<PolicyDecisionId>,
    pub status: ApprovalStatus,
    pub requested_by: ActorId,
    pub requested_from: Vec<ActorId>,
    pub reason: String,
    pub requested_at: Timestamp,
    pub resolved_at: Option<Timestamp>,
    pub resolved_by: Option<ActorId>,
    pub caused_by: Option<EventId>,
    pub metadata: Properties,
}

/// What a request to approve an action stands for.
pub struct ApprovalRequestModel {
    pub id: Seq<char>,
    pub tenant_id: Option<Seq<char>>,
    pub action_id: Seq<char>,
    pub policy_decision_id: Option<Seq<char>>,
    pub status: ApprovalStatus,
    pub requested_by: Seq<char>,
    pub requested_from: Seq<Seq<char>>,
    pub reason: Seq<char>,
    pub requested_at: Timestamp,
    pub resolved_at: Option<Timestamp>,
    pub resolved_by: Option<Seq<char>>,
    pub caused_by: Option<Seq<char>>,
    pub metadata: Map<Seq<char>, ValueModel>,
}

impl View for ApprovalRequest {
    type V = ApprovalRequestModel;

    open spec fn view(&self) -> ApprovalRequestModel {
        ApprovalRequestModel {
            id: self.id@,
            tenant_id: opt_text(self.tenant_id),
            action_id: self.action_id@,
            policy_decision_id: opt_text(self.policy_decision_id),
            status: self.status,
            requested_by: self.requested_by@,
            requested_from: texts(self.requested_from@),
            reason: self.reason@,
            requested_at: self.requested_at,
            resolved_at: self.resolved_at,
            resolved_by: opt_text(self.resolved_by),
            caused_by: opt_text(self.caused_by),
            metadata: self.metadata@,
        }
    }
}

impl Clone for ApprovalRequest {
    fn clone(&self) -> (r: Self)
        ensures
            r@ == self@,
    {
        ApprovalRequest {
            id: self.id.clone(),
            tenant_id: clone_opt_id(&self.tenant_id),
            action_id: self.action_id.clone(),
            policy_decision_id: clone_opt_id(&self.policy_decision_id),
            status: self.status,
            requested_by: self.requested_by.clone(),
            requested_from: clone_ids(&self.requested_from),
            reason: self.reason.clone(),
            requested_at: self.requested_at,
            resolved_at: self.resolved_at,
            resolved_by: clone_opt_id(&self.resolved_by),
            caused_by: clone_opt_id(&self.caused_by),
            metadata: self.metadata.clone(),
        }
    }
}

} // verus!
