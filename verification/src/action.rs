//! Actions and their outcomes.

use crate::ids::{clone_ids, clone_opt_id, opt_text, texts, ActionId, ActorId, ClaimId, EdgeId, EventId, EvidenceId, NodeId, OutcomeId, PolicyId, TenantId};
use crate::index::Key;
use crate::time::Timestamp;
use crate::value::{Properties, ValueModel};
use vstd::prelude::*;

verus! {

/// Where an action stands.
#[derive(Debug, Clone, Copy, PartialEq, Eq, Structural, Hash)]
pub enum ActionStatus {
    Proposed,
    Approved,
    Rejected,
    Executing,
    Executed,
    Failed,
    Cancelled,
}

impl View for ActionStatus {
    type V = ActionStatus;

    open spec fn view(&self) -> ActionStatus {
        *self
    }
}

impl Key for ActionStatus {
    fn same(&self, other: &Self) -> (r: bool) {
        *self == *other
    }

    fn copy(&self) -> (r: Self) {
        *self
    }
}

/// What an action does.
#[derive(Debug, PartialEq)]
pub enum ActionKind {
    Notify,
    CreateTicket,
    AssignOwner,
    RequestEvidence,
    Quarantine,
    Backfill,
    Repair,
    Approve,
    Reject,
    ExecuteWorkflow,
    PostLedgerEntry,
    RunPayroll,
    Custom(String),
}

/// What a kind of action stands for.
pub enum ActionKindModel {
    Notify,
    CreateTicket,
    AssignOwner,
    RequestEvidence,
    Quarantine,
    Backfill,
    Repair,
    Approve,
    Reject,
    ExecuteWorkflow,
    PostLedgerEntry,
    RunPayroll,
    Custom(Seq<char>),
}

impl View for ActionKind {
    type V = ActionKindModel;

    open spec fn view(&self) -> ActionKindModel {
        match *self {
            ActionKind::Notify => ActionKindModel::Notify,
            ActionKind::CreateTicket => ActionKindModel::CreateTicket,
            ActionKind::AssignOwner => ActionKindModel::AssignOwner,
            ActionKind::RequestEvidence => ActionKindModel::RequestEvidence,
            ActionKind::Quarantine => ActionKindModel::Quarantine,
            ActionKind::Backfill => ActionKindModel::Backfill,
            ActionKind::Repair => ActionKindModel::Repair,
            ActionKind::Approve => ActionKindModel::Approve,
            ActionKind::Reject => ActionKindModel::Reject,
            ActionKind::ExecuteWorkflow => ActionKindModel::ExecuteWorkflow,
            ActionKind::PostLedgerEntry => ActionKindModel::PostLedgerEntry,
            ActionKind::RunPayroll => ActionKindModel::RunPayroll,
            ActionKind::Custom(x) => ActionKindModel::Custom(x@),
        }
    }
}

impl Clone for ActionKind {
    fn clone(&self) -> (r: Self)
        ensures
            r@ == self@,
    {
        match self {
            ActionKind::Notify => ActionKind::Notify,
            ActionKind::CreateTicket => ActionKind::CreateTicket,
            ActionKind::AssignOwner => ActionKind::AssignOwner,
            ActionKind::RequestEvidence => ActionKind::RequestEvidence,
            ActionKind::Quarantine => ActionKind::Quarantine,
            ActionKind::Backfill => ActionKind::Backfill,
            ActionKind::Repair => ActionKind::Repair,
            ActionKind::Approve => ActionKind::Approve,
            ActionKind::Reject => ActionKind::Reject,
            ActionKind::ExecuteWorkflow => ActionKind::ExecuteWorkflow,
            ActionKind::PostLedgerEntry => ActionKind::PostLedgerEntry,
            ActionKind::RunPayroll => ActionKind::RunPayroll,
            ActionKind::Custom(x) => ActionKind::Custom(x.clone()),
        }
    }
}

/// What an action is done to.
#[derive(Debug, PartialEq)]
pub enum ActionTarget {
    Node(NodeId),
    Edge(EdgeId),
    Claim(ClaimId),
    Evidence(EvidenceId),
    ExternalRef(String),
    Dataset(String),
    System(String),
}

/// What the target of an action stands for.
pub enum ActionTargetModel {
    Node(Seq<char>),
    Edge(Seq<char>),
    Claim(Seq<char>),
    Evidence(Seq<char>),
    ExternalRef(Seq<char>),
    Dataset(Seq<char>),
    System(Seq<char>),
}

impl View for ActionTarget {
    type V = ActionTargetModel;

    open spec fn view(&self) -> ActionTargetModel {
        match *self {
            ActionTarget::Node(x) => ActionTargetModel::Node(x@),
            ActionTarget::Edge(x) => ActionTargetModel::Edge(x@),
            ActionTarget::Claim(x) => ActionTargetModel::Claim(x@),
            ActionTarget::Evidence(x) => ActionTargetModel::Evidence(x@),
            ActionTarget::ExternalRef(x) => ActionTargetModel::ExternalRef(x@),
            ActionTarget::Dataset(x) => ActionTargetModel::Dataset(x@),
            ActionTarget::System(x) => ActionTargetModel::System(x@),
        }
    }
}

impl Clone for ActionTarget {
    fn clone(&self) -> (r: Self)
        ensures
            r@ == self@,
    {
        match self {
            ActionTarget::Node(x) => ActionTarget::Node(x.clone()),
            ActionTarget::Edge(x) => ActionTarget::Edge(x.clone()),
            ActionTarget::Claim(x) => ActionTarget::Claim(x.clone()),
            ActionTarget::Evidence(x) => ActionTarget::Evidence(x.clone()),
            ActionTarget::ExternalRef(x) => ActionTarget::ExternalRef(x.clone()),
            ActionTarget::Dataset(x) => ActionTarget::Dataset(x.clone()),
            ActionTarget::System(x) => ActionTarget::System(x.clone()),
        }
    }
}

/// What a list of targets stands for.
pub open spec fn action_target_models(items: Seq<ActionTarget>) -> Seq<ActionTargetModel> {
    items.map_values(|item: ActionTarget| item@)
}

/// Copies a list of targets.
pub fn clone_action_targets(items: &Vec<ActionTarget>) -> (r: Vec<ActionTarget>)
    ensures
        action_target_models(r@) == action_target_models(items@),
{
    let mut r: Vec<ActionTarget> = Vec::new();
    let mut i: usize = 0;
    while i < items.len()
        invariant
            i <= items@.len(),
            r@.len() == i,
            forall|j: int| 0 <= j < i ==> (#[trigger] r@[j])@ == items@[j]@,
        decreases items@.len() - i,
    {
        r.push(items[i].clone());
        i += 1;
    }
    assert(action_target_models(r@) =~= action_target_models(items@));
    r
}

/// How an action turned out.
#[derive(Debug, Clone, Copy, PartialEq, Eq, Structural, Hash)]
pub enum OutcomeKind {
    Success,
    Failure,
    Unknown,
}

/// An intervention, proposed or under way.
#[derive(Debug, PartialEq)]
pub struct Action {
    pub id: ActionId,
    pub tenant_id: Option<TenantId>,
    pub kind: ActionKind,
    pub status: ActionStatus,
    pub targets: Vec<ActionTarget>,
    pub related_claims: Vec<ClaimId>,
    pub supporting_evidence: Vec<EvidenceId>,
    pub proposed_by: ActorId,
    pub approved_by: Option<ActorId>,
    pub rejected_by: Option<ActorId>,
    pub policy_id: Option<PolicyId>,
    pub payload: Properties,
    pub created_at: Timestamp,
    pub updated_at: Timestamp,
    pub approved_at: Option<Timestamp>,
    pub rejected_at: Option<Timestamp>,
    pub executed_at: Option<Timestamp>,
    pub caused_by: Option<EventId>,
}

/// What an action stands for.
pub struct ActionModel {
    pub id: Seq<char>,
    pub tenant_id: Option<Seq<char>>,
    pub kind: ActionKindModel,
    pub status: ActionStatus,
    pub targets: Seq<ActionTargetModel>,
    pub related_claims: Seq<Seq<char>>,
    pub supporting_evidence: Seq<Seq<char>>,
    pub proposed_by: Seq<char>,
    pub approved_by: Option<Seq<char>>,
    pub rejected_by: Option<Seq<char>>,
    pub policy_id: Option<Seq<char>>,
    pub payload: Map<Seq<char>, ValueModel>,
    pub created_at: Timestamp,
    pub updated_at: Timestamp,
    pub approved_at: Option<Timestamp>,
    pub rejected_at: Option<Timestamp>,
    pub executed_at: Option<Timestamp>,
    pub caused_by: Option<Seq<char>>,
}

impl View for Action {
    type V = ActionModel;

    open spec fn view(&self) -> ActionModel {
        ActionModel {
            id: self.id@,
            tenant_id: opt_text(self.tenant_id),
            kind: self.kind@,
            status: self.status,
            targets: action_target_models(self.targets@),
            related_claims: texts(self.related_claims@),
            supporting_evidence: texts(self.supporting_evidence@),
            proposed_by: self.proposed_by@,
            approved_by: opt_text(self.approved_by),
            rejected_by: opt_text(self.rejected_by),
            policy_id: opt_text(self.policy_id),
            payload: self.payload@,
            created_at: self.created_at,
            updated_at: self.updated_at,
            approved_at: self.approved_at,
            rejected_at: self.rejected_at,
            executed_at: self.executed_at,
            caused_by: opt_text(self.caused_by),
        }
    }
}

impl Clone for Action {
    fn clone(&self) -> (r: Self)
        ensures
            r@ == self@,
    {
        Action {
            id: self.id.clone(),
            tenant_id: clone_opt_id(&self.tenant_id),
            kind: self.kind.clone(),
            status: self.status,
            targets: clone_action_targets(&self.targets),
            related_claims: clone_ids(&self.related_claims),
            supporting_evidence: clone_ids(&self.supporting_evidence),
            proposed_by: self.proposed_by.clone(),
            approved_by: clone_opt_id(&self.approved_by),
            rejected_by: clone_opt_id(&self.rejected_by),
            policy_id: clone_opt_id(&self.policy_id),
            payload: self.payload.clone(),
            created_at: self.created_at,
            updated_at: self.updated_at,
            approved_at: self.approved_at,
            rejected_at: self.rejected_at,
            executed_at: self.executed_at,
            caused_by: clone_opt_id(&self.caused_by),
        }
    }
}

/// What was observed after an action.
#[derive(Debug, PartialEq)]
pub struct Outcome {
    pub id: OutcomeId,
    pub tenant_id: Option<TenantId>,
    pub action_id: ActionId,
    pub kind: OutcomeKind,
    pub observed_events: Vec<EventId>,
    pub updated_claims: Vec<ClaimId>,
    pub produced_evidence: Vec<EvidenceId>,
    pub impact: Properties,
    pub observed_at: Timestamp,
    pub recorded_at: Timestamp,
    pub recorded_by: ActorId,
    pub caused_by: Option<EventId>,
}

/// What an outcome stands for.
pub struct OutcomeModel {
    pub id: Seq<char>,
    pub tenant_id: Option<Seq<char>>,
    pub action_id: Seq<char>,
    pub kind: OutcomeKind,
    pub observed_events: Seq<Seq<char>>,
    pub updated_claims: Seq<Seq<char>>,
    pub produced_evidence: Seq<Seq<char>>,
    pub impact: Map<Seq<char>, ValueModel>,
    pub observed_at: Timestamp,
    pub recorded_at: Timestamp,
    pub recorded_by: Seq<char>,
    pub caused_by: Option<Seq<char>>,
}

impl View for Outcome {
    type V = OutcomeModel;

    open spec fn view(&self) -> OutcomeModel {
        OutcomeModel {
            id: self.id@,
            tenant_id: opt_text(self.tenant_id),
            action_id: self.action_id@,
            kind: self.kind,
            observed_events: texts(self.observed_events@),
            updated_claims: texts(self.updated_claims@),
            produced_evidence: texts(self.produced_evidence@),
            impact: self.impact@,
            observed_at: self.observed_at,
            recorded_at: self.recorded_at,
            recorded_by: self.recorded_by@,
            caused_by: opt_text(self.caused_by),
        }
    }
}

impl Clone for Outcome {
    fn clone(&self) -> (r: Self)
        ensures
            r@ == self@,
    {
        Outcome {
            id: self.id.clone(),
            tenant_id: clone_opt_id(&self.tenant_id),
            action_id: self.action_id.clone(),
            kind: self.kind,
            observed_events: clone_ids(&self.observed_events),
            updated_claims: clone_ids(&self.updated_claims),
            produced_evidence: clone_ids(&self.produced_evidence),
            impact: self.impact.clone(),
            observed_at: self.observed_at,
            recorded_at: self.recorded_at,
            recorded_by: self.recorded_by.clone(),
            caused_by: clone_opt_id(&self.caused_by),
        }
    }
}

} // verus!
