//! Events: the record of everything that happens.

use crate::action::{Action, Outcome};
use crate::causal_cell::CausalCell;
use crate::epistemic::{Claim, Evidence};
use crate::identity::{IdentityEntity, IdentityLink};
use crate::ids::{clone_opt_id, opt_text, texts, ActionId, ActorId, ApprovalId, CascadeId, ClaimId, EdgeId, EventId, EvidenceId, MicroModelId, NodeId, PolicyId, TenantId};
use crate::micromodel::{MicroModelDefinition, MicroModelObservation, MicroModelPrediction, MicroModelStatus};
use crate::policy::{ApprovalRequest, Policy, PolicyDecision};
use crate::text::opt_chars;
use crate::time::Timestamp;
use crate::value::Properties;
use vstd::prelude::*;

verus! {

/// What happened.
#[allow(inconsistent_fields)]
#[derive(Debug, Clone)]
pub enum EventKind {
    NodeCreated { node_id: NodeId, type_id: String, properties: Properties },
    NodeUpdated { node_id: NodeId, changes: Properties },
    NodeDeleted { node_id: NodeId },
    EdgeCreated { edge_id: EdgeId, source: NodeId, target: NodeId, type_id: String, properties: Properties },
    EdgeUpdated { edge_id: EdgeId, changes: Properties },
    EdgeDeleted { edge_id: EdgeId },
    Signal { name: String, source: NodeId, payload: Properties },
    Snapshot { snapshot_id: String },
    EvidenceAdded { evidence: Evidence },
    ClaimProposed { claim: Claim },
    ClaimSupported { claim_id: ClaimId, evidence_id: EvidenceId },
    ClaimDisputed { claim_id: ClaimId, evidence_id: EvidenceId, reason: Option<String> },
    ClaimVerified { claim_id: ClaimId, verified_by: ActorId },
    ClaimRetracted { claim_id: ClaimId, reason: Option<String> },
    ClaimStaled { claim_id: ClaimId, reason: Option<String> },
    TopologyCommittedFromClaim { claim_id: ClaimId, node_id: Option<NodeId>, edge_id: Option<EdgeId> },
    ActionProposed { action: Action },
    ActionApproved { action_id: ActionId, approved_by: ActorId, reason: Option<String> },
    ActionRejected { action_id: ActionId, rejected_by: ActorId, reason: String },
    ActionExecuting { action_id: ActionId },
    ActionExecuted { action_id: ActionId },
    ActionFailed { action_id: ActionId, reason: String },
    ActionCancelled { action_id: ActionId, cancelled_by: ActorId, reason: Option<String> },
    OutcomeObserved { outcome: Outcome },
    PolicyRegistered { policy: Policy },
    PolicyDisabled { policy_id: PolicyId, disabled_by: ActorId, reason: Option<String> },
    PolicyDecisionRecorded { decision: PolicyDecision },
    ApprovalRequested { request: ApprovalRequest },
    ApprovalGranted { approval_id: ApprovalId, approved_by: ActorId },
    ApprovalRejected { approval_id: ApprovalId, rejected_by: ActorId, reason: String },
    ApprovalCancelled { approval_id: ApprovalId, cancelled_by: ActorId, reason: Option<String> },
    SensorRunStarted { run_id: String },
    SensorRunCompleted { run_id: String },
    SensorRunFailed { run_id: String, reason: String },
    SensorCheckpointRecorded { checkpoint_id: String },
    SensorCheckpointSuperseded { checkpoint_id: String },
    SchemaRegistered { schema_id: String },
    SchemaDisabled { schema_id: String },
    SchemaArchived { schema_id: String },
    SnapshotTaken { snapshot_id: String },
    SnapshotRestored { snapshot_id: String },
    CausalCellCreated { cell: CausalCell },
    IdentityEntityCreated { entity: IdentityEntity },
    IdentityLinkCreated { link: IdentityLink },
    MicroModelRegistered { model: MicroModelDefinition },
    MicroModelStatusChanged { model_id: MicroModelId, status: MicroModelStatus, reason: Option<String> },
    MicroModelPredictionRecorded { prediction: MicroModelPrediction },
    MicroModelObservationRecorded { observation: MicroModelObservation },
}

impl EventKind {
    /// Whether the same happened: both are of one kind, with the same contents.
    #[verifier::opaque]
    pub open spec fn same(self, other: EventKind) -> bool {
        match self {
            EventKind::NodeCreated { node_id: a0, type_id: a1, properties: a2 } => match other {
                EventKind::NodeCreated { node_id: b0, type_id: b1, properties: b2 } => a0@ == b0@ && a1@ == b1@ && a2@ == b2@,
                _ => false,
            },
            EventKind::NodeUpdated { node_id: a0, changes: a1 } => match other {
                EventKind::NodeUpdated { node_id: b0, changes: b1 } => a0@ == b0@ && a1@ == b1@,
                _ => false,
            },
            EventKind::NodeDeleted { node_id: a0 } => match other {
                EventKind::NodeDeleted { node_id: b0 } => a0@ == b0@,
                _ => false,
            },
            EventKind::EdgeCreated { edge_id: a0, source: a1, target: a2, type_id: a3, properties: a4 } => match other {
                EventKind::EdgeCreated { edge_id: b0, source: b1, target: b2, type_id: b3, properties: b4 } => a0@ == b0@ && a1@ == b1@ && a2@ == b2@ && a3@ == b3@ && a4@ == b4@,
                _ => false,
            },
            EventKind::EdgeUpdated { edge_id: a0, changes: a1 } => match other {
                EventKind::EdgeUpdated { edge_id: b0, changes: b1 } => a0@ == b0@ && a1@ == b1@,
                _ => false,
            },
            EventKind::EdgeDeleted { edge_id: a0 } => match other {
                EventKind::EdgeDeleted { edge_id: b0 } => a0@ == b0@,
                _ => false,
            },
            EventKind::Signal { name: a0, source: a1, payload: a2 } => match other {
                EventKind::Signal { name: b0, source: b1, payload: b2 } => a0@ == b0@ && a1@ == b1@ && a2@ == b2@,
                _ => false,
            },
            EventKind::Snapshot { snapshot_id: a0 } => match other {
                EventKind::Snapshot { snapshot_id: b0 } => a0@ == b0@,
                _ => false,
            },
            EventKind::EvidenceAdded { evidence: a0 } => match other {
                EventKind::EvidenceAdded { evidence: b0 } => a0@ == b0@,
                _ => false,
            },
            EventKind::ClaimProposed { claim: a0 } => match other {
                EventKind::ClaimProposed { claim: b0 } => a0@ == b0@,
                _ => false,
            },
            EventKind::ClaimSupported { claim_id: a0, evidence_id: a1 } => match other {
                EventKind::ClaimSupported { claim_id: b0, evidence_id: b1 } => a0@ == b0@ && a1@ == b1@,
                _ => false,
            },
            EventKind::ClaimDisputed { claim_id: a0, evidence_id: a1, reason: a2 } => match other {
                EventKind::ClaimDisputed { claim_id: b0, evidence_id: b1, reason: b2 } => a0@ == b0@ && a1@ == b1@ && opt_chars(a2) == opt_chars(b2),
                _ => false,
            },
            EventKind::ClaimVerified { claim_id: a0, verified_by: a1 } => match other {
                EventKind::ClaimVerified { claim_id: b0, verified_by: b1 } => a0@ == b0@ && a1@ == b1@,
                _ => false,
            },
            EventKind::ClaimRetracted { claim_id: a0, reason: a1 } => match other {
                EventKind::ClaimRetracted { claim_id: b0, reason: b1 } => a0@ == b0@ && opt_chars(a1) == opt_chars(b1),
                _ => false,
            },
            EventKind::ClaimStaled { claim_id: a0, reason: a1 } => match other {
                EventKind::ClaimStaled { claim_id: b0, reason: b1 } => a0@ == b0@ && opt_chars(a1) == opt_chars(b1),
                _ => false,
            },
            EventKind::TopologyCommittedFromClaim { claim_id: a0, node_id: a1, edge_id: a2 } => match other {
                EventKind::TopologyCommittedFromClaim { claim_id: b0, node_id: b1, edge_id: b2 } => a0@ == b0@ && opt_text(a1) == opt_text(b1) && opt_text(a2) == opt_text(b2),
                _ => false,
            },
            EventKind::ActionProposed { action: a0 } => match other {
                EventKind::ActionProposed { action: b0 } => a0@ == b0@,
                _ => false,
            },
            EventKind::ActionApproved { action_id: a0, approved_by: a1, reason: a2 } => match other {
                EventKind::ActionApproved { action_id: b0, approved_by: b1, reason: b2 } => a0@ == b0@ && a1@ == b1@ && opt_chars(a2) == opt_chars(b2),
                _ => false,
            },
            EventKind::ActionRejected { action_id: a0, rejected_by: a1, reason: a2 } => match other {
                EventKind::ActionRejected { action_id: b0, rejected_by: b1, reason: b2 } => a0@ == b0@ && a1@ == b1@ && a2@ == b2@,
                _ => false,
            },
            EventKind::ActionExecuting { action_id: a0 } => match other {
                EventKind::ActionExecuting { action_id: b0 } => a0@ == b0@,
                _ => false,
            },
            EventKind::ActionExecuted { action_id: a0 } => match other {
                EventKind::ActionExecuted { action_id: b0 } => a0@ == b0@,
                _ => false,
            },
            EventKind::ActionFailed { action_id: a0, reason: a1 } => match other {
                EventKind::ActionFailed { action_id: b0, reason: b1 } => a0@ == b0@ && a1@ == b1@,
                _ => false,
            },
            EventKind::ActionCancelled { action_id: a0, cancelled_by: a1, reason: a2 } => match other {
                EventKind::ActionCancelled { action_id: b0, cancelled_by: b1, reason: b2 } => a0@ == b0@ && a1@ == b1@ && opt_chars(a2) == opt_chars(b2),
                _ => false,
            },
            EventKind::OutcomeObserved { outcome: a0 } => match other {
                EventKind::OutcomeObserved { outcome: b0 } => a0@ == b0@,
                _ => false,
            },
            EventKind::PolicyRegistered { policy: a0 } => match other {
                EventKind::PolicyRegistered { policy: b0 } => a0@ == b0@,
                _ => false,
            },
            EventKind::PolicyDisabled { policy_id: a0, disabled_by: a1, reason: a2 } => match other {
                EventKind::PolicyDisabled { policy_id: b0, disabled_by: b1, reason: b2 } => a0@ == b0@ && a1@ == b1@ && opt_chars(a2) == opt_chars(b2),
                _ => false,
            },
            EventKind::PolicyDecisionRecorded { decision: a0 } => match other {
                EventKind::PolicyDecisionRecorded { decision: b0 } => a0@ == b0@,
                _ => false,
            },
            EventKind::ApprovalRequested { request: a0 } => match other {
                EventKind::ApprovalRequested { request: b0 } => a0@ == b0@,
                _ => false,
            },
            EventKind::ApprovalGranted { approval_id: a0, approved_by: a1 } => match other {
                EventKind::ApprovalGranted { approval_id: b0, approved_by: b1 } => a0@ == b0@ && a1@ == b1@,
                _ => false,
            },
            EventKind::ApprovalRejected { approval_id: a0, rejected_by: a1, reason: a2 } => match other {
                EventKind::ApprovalRejected { approval_id: b0, rejected_by: b1, reason: b2 } => a0@ == b0@ && a1@ == b1@ && a2@ == b2@,
                _ => false,
            },
            EventKind::ApprovalCancelled { approval_id: a0, cancelled_by: a1, reason: a2 } => match other {
                EventKind::ApprovalCancelled { approval_id: b0, cancelled_by: b1, reason: b2 } => a0@ == b0@ && a1@ == b1@ && opt_chars(a2) == opt_chars(b2),
                _ => false,
            },
            EventKind::SensorRunStarted { run_id: a0 } => match other {
                EventKind::SensorRunStarted { run_id: b0 } => a0@ == b0@,
                _ => false,
            },
            EventKind::SensorRunCompleted { run_id: a0 } => match other {
                EventKind::SensorRunCompleted { run_id: b0 } => a0@ == b0@,
                _ => false,
            },
            EventKind::SensorRunFailed { run_id: a0, reason: a1 } => match other {
                EventKind::SensorRunFailed { run_id: b0, reason: b1 } => a0@ == b0@ && a1@ == b1@,
                _ => false,
            },
            EventKind::SensorCheckpointRecorded { checkpoint_id: a0 } => match other {
                EventKind::SensorCheckpointRecorded { checkpoint_id: b0 } => a0@ == b0@,
                _ => false,
            },
            EventKind::SensorCheckpointSuperseded { checkpoint_id: a0 } => match other {
                EventKind::SensorCheckpointSuperseded { checkpoint_id: b0 } => a0@ == b0@,
                _ => false,
            },
            EventKind::SchemaRegistered { schema_id: a0 } => match other {
                EventKind::SchemaRegistered { schema_id: b0 } => a0@ == b0@,
                _ => false,
            },
            EventKind::SchemaDisabled { schema_id: a0 } => match other {
                EventKind::SchemaDisabled { schema_id: b0 } => a0@ == b0@,
                _ => false,
            },
            EventKind::SchemaArchived { schema_id: a0 } => match other {
                EventKind::SchemaArchived { schema_id: b0 } => a0@ == b0@,
                _ => false,
            },
            EventKind::SnapshotTaken { snapshot_id: a0 } => match other {
                EventKind::SnapshotTaken { snapshot_id: b0 } => a0@ == b0@,
                _ => false,
            },
            EventKind::SnapshotRestored { snapshot_id: a0 } => match other {
                EventKind::SnapshotRestored { snapshot_id: b0 } => a0@ == b0@,
                _ => false,
            },
            EventKind::CausalCellCreated { cell: a0 } => match other {
                EventKind::CausalCellCreated { cell: b0 } => a0@ == b0@,
                _ => false,
            },
            EventKind::IdentityEntityCreated { entity: a0 } => match other {
                EventKind::IdentityEntityCreated { entity: b0 } => a0@ == b0@,
                _ => false,
            },
            EventKind::IdentityLinkCreated { link: a0 } => match other {
                EventKind::IdentityLinkCreated { link: b0 } => a0@ == b0@,
                _ => false,
            },
            EventKind::MicroModelRegistered { model: a0 } => match other {
                EventKind::MicroModelRegistered { model: b0 } => a0@ == b0@,
                _ => false,
            },
            EventKind::MicroModelStatusChanged { model_id: a0, status: a1, reason: a2 } => match other {
                EventKind::MicroModelStatusChanged { model_id: b0, status: b1, reason: b2 } => a0@ == b0@ && a1 == b1 && opt_chars(a2) == opt_chars(b2),
                _ => false,
            },
            EventKind::MicroModelPredictionRecorded { prediction: a0 } => match other {
                EventKind::MicroModelPredictionRecorded { prediction: b0 } => a0@ == b0@,
                _ => false,
            },
            EventKind::MicroModelObservationRecorded { observation: a0 } => match other {
                EventKind::MicroModelObservationRecorded { observation: b0 } => a0@ == b0@,
                _ => false,
            },
        }
    }

    /// The node that a node event is about.
    pub open spec fn target(self) -> Option<Seq<char>> {
        match self {
            EventKind::NodeCreated { node_id, .. } => Some(node_id@),
            EventKind::NodeUpdated { node_id, .. } => Some(node_id@),
            EventKind::NodeDeleted { node_id } => Some(node_id@),
            _ => None,
        }
    }

    /// The node that a node event is about.
    pub fn target_node(&self) -> (r: Option<&NodeId>)
        ensures
            match r {
                Some(id) => self.target() == Some(id@),
                None => self.target() is None,
            },
    {
        match self {
            EventKind::NodeCreated { node_id, .. } => Some(node_id),
            EventKind::NodeUpdated { node_id, .. } => Some(node_id),
            EventKind::NodeDeleted { node_id } => Some(node_id),
            _ => None,
        }
    }

    /// The name of the kind of event.
    pub open spec fn name(self) -> Seq<char> {
        match self {
            EventKind::NodeCreated { .. } => "node_created"@,
            EventKind::NodeUpdated { .. } => "node_updated"@,
            EventKind::NodeDeleted { .. } => "node_deleted"@,
            EventKind::EdgeCreated { .. } => "edge_created"@,
            EventKind::EdgeUpdated { .. } => "edge_updated"@,
            EventKind::EdgeDeleted { .. } => "edge_deleted"@,
            EventKind::Signal { .. } => "signal"@,
            EventKind::Snapshot { .. } => "snapshot"@,
            EventKind::EvidenceAdded { .. } => "evidence_added"@,
            EventKind::ClaimProposed { .. } => "claim_proposed"@,
            EventKind::ClaimSupported { .. } => "claim_supported"@,
            EventKind::ClaimDisputed { .. } => "claim_disputed"@,
            EventKind::ClaimVerified { .. } => "claim_verified"@,
            EventKind::ClaimRetracted { .. } => "claim_retracted"@,
            EventKind::ClaimStaled { .. } => "claim_staled"@,
            EventKind::TopologyCommittedFromClaim { .. } => "topology_committed_from_claim"@,
            EventKind::ActionProposed { .. } => "action_proposed"@,
            EventKind::ActionApproved { .. } => "action_approved"@,
            EventKind::ActionRejected { .. } => "action_rejected"@,
            EventKind::ActionExecuting { .. } => "action_executing"@,
            EventKind::ActionExecuted { .. } => "action_executed"@,
            EventKind::ActionFailed { .. } => "action_failed"@,
            EventKind::ActionCancelled { .. } => "action_cancelled"@,
            EventKind::OutcomeObserved { .. } => "outcome_observed"@,
            EventKind::PolicyRegistered { .. } => "policy_registered"@,
            EventKind::PolicyDisabled { .. } => "policy_disabled"@,
            EventKind::PolicyDecisionRecorded { .. } => "policy_decision_recorded"@,
            EventKind::ApprovalRequested { .. } => "approval_requested"@,
            EventKind::ApprovalGranted { .. } => "approval_granted"@,
            EventKind::ApprovalRejected { .. } => "approval_rejected"@,
            EventKind::ApprovalCancelled { .. } => "approval_cancelled"@,
            EventKind::SensorRunStarted { .. } => "sensor_run_started"@,
            EventKind::SensorRunCompleted { .. } => "sensor_run_completed"@,
            EventKind::SensorRunFailed { .. } => "sensor_run_failed"@,
            EventKind::SensorCheckpointRecorded { .. } => "sensor_checkpoint_recorded"@,
            EventKind::SensorCheckpointSuperseded { .. } => "sensor_checkpoint_superseded"@,
            EventKind::SchemaRegistered { .. } => "schema_registered"@,
            EventKind::SchemaDisabled { .. } => "schema_disabled"@,
            EventKind::SchemaArchived { .. } => "schema_archived"@,
            EventKind::SnapshotTaken { .. } => "snapshot_taken"@,
            EventKind::SnapshotRestored { .. } => "snapshot_restored"@,
            EventKind::CausalCellCreated { .. } => "causal_cell_created"@,
            EventKind::IdentityEntityCreated { .. } => "identity_entity_created"@,
            EventKind::IdentityLinkCreated { .. } => "identity_link_created"@,
            EventKind::MicroModelRegistered { .. } => "micro_model_registered"@,
            EventKind::MicroModelStatusChanged { .. } => "micro_model_status_changed"@,
            EventKind::MicroModelPredictionRecorded { .. } => "micro_model_prediction_recorded"@,
            EventKind::MicroModelObservationRecorded { .. } => "micro_model_observation_recorded"@,
        }
    }

    /// The name of the kind of event.
    pub fn kind_name(&self) -> (r: &'static str)
        ensures
            r@ == self.name(),
    {
        match self {
            EventKind::NodeCreated { .. } => "node_created",
            EventKind::NodeUpdated { .. } => "node_updated",
            EventKind::NodeDeleted { .. } => "node_deleted",
            EventKind::EdgeCreated { .. } => "edge_created",
            EventKind::EdgeUpdated { .. } => "edge_updated",
            EventKind::EdgeDeleted { .. } => "edge_deleted",
            EventKind::Signal { .. } => "signal",
            EventKind::Snapshot { .. } => "snapshot",
            EventKind::EvidenceAdded { .. } => "evidence_added",
            EventKind::ClaimProposed { .. } => "claim_proposed",
            EventKind::ClaimSupported { .. } => "claim_supported",
            EventKind::ClaimDisputed { .. } => "claim_disputed",
            EventKind::ClaimVerified { .. } => "claim_verified",
            EventKind::ClaimRetracted { .. } => "claim_retracted",
            EventKind::ClaimStaled { .. } => "claim_staled",
            EventKind::TopologyCommittedFromClaim { .. } => "topology_committed_from_claim",
            EventKind::ActionProposed { .. } => "action_proposed",
            EventKind::ActionApproved { .. } => "action_approved",
            EventKind::ActionRejected { .. } => "action_rejected",
            EventKind::ActionExecuting { .. } => "action_executing",
            EventKind::ActionExecuted { .. } => "action_executed",
            EventKind::ActionFailed { .. } => "action_failed",
            EventKind::ActionCancelled { .. } => "action_cancelled",
            EventKind::OutcomeObserved { .. } => "outcome_observed",
            EventKind::PolicyRegistered { .. } => "policy_registered",
            EventKind::PolicyDisabled { .. } => "policy_disabled",
            EventKind::PolicyDecisionRecorded { .. } => "policy_decision_recorded",
            EventKind::ApprovalRequested { .. } => "approval_requested",
            EventKind::ApprovalGranted { .. } => "approval_granted",
            EventKind::ApprovalRejected { .. } => "approval_rejected",
            EventKind::ApprovalCancelled { .. } => "approval_cancelled",
            EventKind::SensorRunStarted { .. } => "sensor_run_started",
            EventKind::SensorRunCompleted { .. } => "sensor_run_completed",
            EventKind::SensorRunFailed { .. } => "sensor_run_failed",
            EventKind::SensorCheckpointRecorded { .. } => "sensor_checkpoint_recorded",
            EventKind::SensorCheckpointSuperseded { .. } => "sensor_checkpoint_superseded",
            EventKind::SchemaRegistered { .. } => "schema_registered",
            EventKind::SchemaDisabled { .. } => "schema_disabled",
            EventKind::SchemaArchived { .. } => "schema_archived",
            EventKind::SnapshotTaken { .. } => "snapshot_taken",
            EventKind::SnapshotRestored { .. } => "snapshot_restored",
            EventKind::CausalCellCreated { .. } => "causal_cell_created",
            EventKind::IdentityEntityCreated { .. } => "identity_entity_created",
            EventKind::IdentityLinkCreated { .. } => "identity_link_created",
            EventKind::MicroModelRegistered { .. } => "micro_model_registered",
            EventKind::MicroModelStatusChanged { .. } => "micro_model_status_changed",
            EventKind::MicroModelPredictionRecorded { .. } => "micro_model_prediction_recorded",
            EventKind::MicroModelObservationRecorded { .. } => "micro_model_observation_recorded",
        }
    }
}

/// What a list of events stands for.
pub open spec fn event_models(events: Seq<Event>) -> Seq<EventModel> {
    events.map_values(|e: Event| e@)
}

/// What a list of borrowed events stands for.
pub open spec fn borrowed_models(events: Seq<&Event>) -> Seq<EventModel> {
    events.map_values(|e: &Event| e@)
}

/// What marks a new event: its identifier and its time.
#[derive(Debug, PartialEq)]
pub struct Stamp {
    pub id: EventId,
    pub timestamp: Timestamp,
}

/// Something that happened, and what brought it about.
#[derive(Debug, Clone)]
pub struct Event {
    pub id: EventId,
    pub tenant_id: Option<TenantId>,
    pub timestamp: Timestamp,
    pub kind: EventKind,
    pub caused_by: Vec<EventId>,
    pub cascade_id: CascadeId,
    pub cascade_depth: u32,
    pub cascade_breadth_index: u32,
}

/// What an event stands for.
pub struct EventModel {
    pub id: Seq<char>,
    pub tenant_id: Option<Seq<char>>,
    pub timestamp: Timestamp,
    pub kind: EventKind,
    pub caused_by: Seq<Seq<char>>,
    pub cascade_id: Seq<char>,
    pub cascade_depth: nat,
    pub cascade_breadth_index: nat,
}

impl View for Event {
    type V = EventModel;

    open spec fn view(&self) -> EventModel {
        EventModel {
            id: self.id@,
            tenant_id: opt_text(self.tenant_id),
            timestamp: self.timestamp,
            kind: self.kind,
            caused_by: texts(self.caused_by@),
            cascade_id: self.cascade_id@,
            cascade_depth: self.cascade_depth as nat,
            cascade_breadth_index: self.cascade_breadth_index as nat,
        }
    }
}

impl EventModel {
    /// Whether both are the same event, with the same contents.
    pub open spec fn same(self, other: EventModel) -> bool {
        self.kind.same(other.kind) && self == (EventModel { kind: self.kind, ..other })
    }

    /// The event that starts a cascade.
    pub open spec fn starting(kind: EventKind, stamp: Stamp, cascade_id: Seq<char>) -> EventModel {
        EventModel {
            id: stamp.id@,
            tenant_id: None,
            timestamp: stamp.timestamp,
            kind,
            caused_by: Seq::empty(),
            cascade_id,
            cascade_depth: 0,
            cascade_breadth_index: 0,
        }
    }

    /// The event that this one brings about.
    pub open spec fn causing(self, kind: EventKind, stamp: Stamp, breadth_index: nat) -> EventModel {
        EventModel {
            id: stamp.id@,
            tenant_id: self.tenant_id,
            timestamp: stamp.timestamp,
            kind,
            caused_by: seq![self.id],
            cascade_id: self.cascade_id,
            cascade_depth: self.cascade_depth + 1,
            cascade_breadth_index: breadth_index,
        }
    }
}

impl Event {
    /// An event from outside, which starts a cascade of its own.
    pub fn trigger(kind: EventKind, stamp: Stamp, cascade_id: CascadeId) -> (r: Event)
        ensures
            r@ == EventModel::starting(kind, stamp, cascade_id@),
    {
        let r = Event {
            id: stamp.id,
            tenant_id: None,
            timestamp: stamp.timestamp,
            kind,
            caused_by: Vec::new(),
            cascade_id,
            cascade_depth: 0,
            cascade_breadth_index: 0,
        };
        assert(r@.caused_by =~= Seq::<Seq<char>>::empty());
        r
    }

    /// An event brought about by another, one level deeper in the same cascade.
    pub fn reaction(kind: EventKind, parent: &Event, stamp: Stamp) -> (r: Event)
        requires
            parent.cascade_depth < u32::MAX,
        ensures
            r@ == parent@.causing(kind, stamp, 0),
    {
        let mut caused_by: Vec<EventId> = Vec::new();
        caused_by.push(parent.id.clone());
        let r = Event {
            id: stamp.id,
            tenant_id: clone_opt_id(&parent.tenant_id),
            timestamp: stamp.timestamp,
            kind,
            caused_by,
            cascade_id: parent.cascade_id.clone(),
            cascade_depth: parent.cascade_depth + 1,
            cascade_breadth_index: 0,
        };
        assert(r@.caused_by =~= seq![parent@.id]);
        r
    }

    /// Whether nothing in the log brought the event about.
    pub fn is_trigger(&self) -> (r: bool)
        ensures
            r == (self@.caused_by.len() == 0),
    {
        self.caused_by.len() == 0
    }
}

} // verus!
