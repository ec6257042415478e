//! Laws of events: what their names tell, and what makes two of them the same.

use crate::action_store::ActionStoreModel;
use crate::causal_cell_store::CausalCellStoreModel;
use crate::epistemic_store::EpistemicModel;
use crate::event::{EventKind, EventModel, Stamp};
use crate::identity_link_store::IdentityLinkStoreModel;
use crate::identity_store::IdentityModel;
use crate::ids::opt_text;
use crate::micromodel_store::MicroModelStoreModel;
use crate::policy_store::PolicyStoreModel;
use crate::projection::GraphModel;
use crate::text::opt_chars;
use vstd::prelude::*;

verus! {

/// A number for each sort of event.
pub open spec fn sort_of(kind: EventKind) -> int {
    match kind {
        EventKind::NodeCreated { .. } => 0,
        EventKind::NodeUpdated { .. } => 1,
        EventKind::NodeDeleted { .. } => 2,
        EventKind::EdgeCreated { .. } => 3,
        EventKind::EdgeUpdated { .. } => 4,
        EventKind::EdgeDeleted { .. } => 5,
        EventKind::Signal { .. } => 6,
        EventKind::Snapshot { .. } => 7,
        EventKind::EvidenceAdded { .. } => 8,
        EventKind::ClaimProposed { .. } => 9,
        EventKind::ClaimSupported { .. } => 10,
        EventKind::ClaimDisputed { .. } => 11,
        EventKind::ClaimVerified { .. } => 12,
        EventKind::ClaimRetracted { .. } => 13,
        EventKind::ClaimStaled { .. } => 14,
        EventKind::TopologyCommittedFromClaim { .. } => 15,
        EventKind::ActionProposed { .. } => 16,
        EventKind::ActionApproved { .. } => 17,
        EventKind::ActionRejected { .. } => 18,
        EventKind::ActionExecuting { .. } => 19,
        EventKind::ActionExecuted { .. } => 20,
        EventKind::ActionFailed { .. } => 21,
        EventKind::ActionCancelled { .. } => 22,
        EventKind::OutcomeObserved { .. } => 23,
        EventKind::PolicyRegistered { .. } => 24,
        EventKind::PolicyDisabled { .. } => 25,
        EventKind::PolicyDecisionRecorded { .. } => 26,
        EventKind::ApprovalRequested { .. } => 27,
        EventKind::ApprovalGranted { .. } => 28,
        EventKind::ApprovalRejected { .. } => 29,
        EventKind::ApprovalCancelled { .. } => 30,
        EventKind::SensorRunStarted { .. } => 31,
        EventKind::SensorRunCompleted { .. } => 32,
        EventKind::SensorRunFailed { .. } => 33,
        EventKind::SensorCheckpointRecorded { .. } => 34,
        EventKind::SensorCheckpointSuperseded { .. } => 35,
        EventKind::SchemaRegistered { .. } => 36,
        EventKind::SchemaDisabled { .. } => 37,
        EventKind::SchemaArchived { .. } => 38,
        EventKind::SnapshotTaken { .. } => 39,
        EventKind::SnapshotRestored { .. } => 40,
        EventKind::CausalCellCreated { .. } => 41,
        EventKind::IdentityEntityCreated { .. } => 42,
        EventKind::IdentityLinkCreated { .. } => 43,
        EventKind::MicroModelRegistered { .. } => 44,
        EventKind::MicroModelStatusChanged { .. } => 45,
        EventKind::MicroModelPredictionRecorded { .. } => 46,
        EventKind::MicroModelObservationRecorded { .. } => 47,
    }
}

/// A character of a name as a number, zero behind its end.
spec fn letter(name: Seq<char>, i: int) -> int {
    if i < name.len() {
        name[i] as int
    } else {
        0
    }
}

/// A number that tells the names of events apart.
spec fn mark(name: Seq<char>) -> int {
    name.len() * 0x100_0000 + letter(name, 0) * 0x1_0000 + letter(name, 6) * 0x100 + letter(name, 9)
}

/// The sort of event that a mark belongs to.
spec fn sort_of_mark(mark: int) -> int {
    if mark == 0xc6e7274 {
        0
    } else if mark == 0xc6e7074 {
        1
    } else if mark == 0xc6e6574 {
        2
    } else if mark == 0xc657274 {
        3
    } else if mark == 0xc657074 {
        4
    } else if mark == 0xc656574 {
        5
    } else if mark == 0x6730000 {
        6
    } else if mark == 0x8736f00 {
        7
    } else if mark == 0xe656361 {
        8
    } else if mark == 0xe637070 {
        9
    } else if mark == 0xf637370 {
        10
    } else if mark == 0xe636470 {
        11
    } else if mark == 0xe637669 {
        12
    } else if mark == 0xf637272 {
        13
    } else if mark == 0xc63736c {
        14
    } else if mark == 0x1d746763 {
        15
    } else if mark == 0xf615f6f {
        16
    } else if mark == 0xf615f70 {
        17
    } else if mark == 0xf615f6a {
        18
    } else if mark == 0x10615f65 {
        19
    } else if mark == 0xf615f65 {
        20
    } else if mark == 0xd615f69 {
        21
    } else if mark == 0x10615f6e {
        22
    } else if mark == 0x106f6562 {
        23
    } else if mark == 0x11705f67 {
        24
    } else if mark == 0xf705f73 {
        25
    } else if mark == 0x18705f63 {
        26
    } else if mark == 0x12616172 {
        27
    } else if mark == 0x10616167 {
        28
    } else if mark == 0x11616172 {
        29
    } else if mark == 0x12616163 {
        30
    } else if mark == 0x12735f6e {
        31
    } else if mark == 0x14735f6e {
        32
    } else if mark == 0x11735f6e {
        33
    } else if mark == 0x1a735f65 {
        34
    } else if mark == 0x1c735f65 {
        35
    } else if mark == 0x11735f67 {
        36
    } else if mark == 0xf735f73 {
        37
    } else if mark == 0xf735f63 {
        38
    } else if mark == 0xe736f74 {
        39
    } else if mark == 0x11736f72 {
        40
    } else if mark == 0x13635f6c {
        41
    } else if mark == 0x17697465 {
        42
    } else if mark == 0x1569746c {
        43
    } else if mark == 0x166d6d65 {
        44
    } else if mark == 0x1a6d6d65 {
        45
    } else if mark == 0x1f6d6d65 {
        46
    } else if mark == 0x206d6d65 {
        47
    } else {
        -1
    }
}

proof fn names_have_their_mark(kind: EventKind)
    ensures
        sort_of_mark(mark(kind.name())) == sort_of(kind),
{
    match kind {
        EventKind::NodeCreated { .. } => {
            reveal_strlit("node_created");
            assert(mark("node_created"@) == 0xc6e7274);
        },
        EventKind::NodeUpdated { .. } => {
            reveal_strlit("node_updated");
            assert(mark("node_updated"@) == 0xc6e7074);
        },
        EventKind::NodeDeleted { .. } => {
            reveal_strlit("node_deleted");
            assert(mark("node_deleted"@) == 0xc6e6574);
        },
        EventKind::EdgeCreated { .. } => {
            reveal_strlit("edge_created");
            assert(mark("edge_created"@) == 0xc657274);
        },
        EventKind::EdgeUpdated { .. } => {
            reveal_strlit("edge_updated");
            assert(mark("edge_updated"@) == 0xc657074);
        },
        EventKind::EdgeDeleted { .. } => {
            reveal_strlit("edge_deleted");
            assert(mark("edge_deleted"@) == 0xc656574);
        },
        EventKind::Signal { .. } => {
            reveal_strlit("signal");
            assert(mark("signal"@) == 0x6730000);
        },
        EventKind::Snapshot { .. } => {
            reveal_strlit("snapshot");
            assert(mark("snapshot"@) == 0x8736f00);
        },
        EventKind::EvidenceAdded { .. } => {
            reveal_strlit("evidence_added");
            assert(mark("evidence_added"@) == 0xe656361);
        },
        EventKind::ClaimProposed { .. } => {
            reveal_strlit("claim_proposed");
            assert(mark("claim_proposed"@) == 0xe637070);
        },
        EventKind::ClaimSupported { .. } => {
            reveal_strlit("claim_supported");
            assert(mark("claim_supported"@) == 0xf637370);
        },
        EventKind::ClaimDisputed { .. } => {
            reveal_strlit("claim_disputed");
            assert(mark("claim_disputed"@) == 0xe636470);
        },
        EventKind::ClaimVerified { .. } => {
            reveal_strlit("claim_verified");
            assert(mark("claim_verified"@) == 0xe637669);
        },
        EventKind::ClaimRetracted { .. } => {
            reveal_strlit("claim_retracted");
            assert(mark("claim_retracted"@) == 0xf637272);
        },
        EventKind::ClaimStaled { .. } => {
            reveal_strlit("claim_staled");
            assert(mark("claim_staled"@) == 0xc63736c);
        },
        EventKind::TopologyCommittedFromClaim { .. } => {
            reveal_strlit("topology_committed_from_claim");
            assert(mark("topology_committed_from_claim"@) == 0x1d746763);
        },
        EventKind::ActionProposed { .. } => {
            reveal_strlit("action_proposed");
            assert(mark("action_proposed"@) == 0xf615f6f);
        },
        EventKind::ActionApproved { .. } => {
            reveal_strlit("action_approved");
            assert(mark("action_approved"@) == 0xf615f70);
        },
        EventKind::ActionRejected { .. } => {
            reveal_strlit("action_rejected");
            assert(mark("action_rejected"@) == 0xf615f6a);
        },
        EventKind::ActionExecuting { .. } => {
            reveal_strlit("action_executing");
            assert(mark("action_executing"@) == 0x10615f65);
        },
        EventKind::ActionExecuted { .. } => {
            reveal_strlit("action_executed");
            assert(mark("action_executed"@) == 0xf615f65);
        },
        EventKind::ActionFailed { .. } => {
            reveal_strlit("action_failed");
            assert(mark("action_failed"@) == 0xd615f69);
        },
        EventKind::ActionCancelled { .. } => {
            reveal_strlit("action_cancelled");
            assert(mark("action_cancelled"@) == 0x10615f6e);
        },
        EventKind::OutcomeObserved { .. } => {
            reveal_strlit("outcome_observed");
            assert(mark("outcome_observed"@) == 0x106f6562);
        },
        EventKind::PolicyRegistered { .. } => {
            reveal_strlit("policy_registered");
            assert(mark("policy_registered"@) == 0x11705f67);
        },
        EventKind::PolicyDisabled { .. } => {
            reveal_strlit("policy_disabled");
            assert(mark("policy_disabled"@) == 0xf705f73);
        },
        EventKind::PolicyDecisionRecorded { .. } => {
            reveal_strlit("policy_decision_recorded");
            assert(mark("policy_decision_recorded"@) == 0x18705f63);
        },
        EventKind::ApprovalRequested { .. } => {
            reveal_strlit("approval_requested");
            assert(mark("approval_requested"@) == 0x12616172);
        },
        EventKind::ApprovalGranted { .. } => {
            reveal_strlit("approval_granted");
            assert(mark("approval_granted"@) == 0x10616167);
        },
        EventKind::ApprovalRejected { .. } => {
            reveal_strlit("approval_rejected");
            assert(mark("approval_rejected"@) == 0x11616172);
        },
        EventKind::ApprovalCancelled { .. } => {
            reveal_strlit("approval_cancelled");
            assert(mark("approval_cancelled"@) == 0x12616163);
        },
        EventKind::SensorRunStarted { .. } => {
            reveal_strlit("sensor_run_started");
            assert(mark("sensor_run_started"@) == 0x12735f6e);
        },
        EventKind::SensorRunCompleted { .. } => {
            reveal_strlit("sensor_run_completed");
            assert(mark("sensor_run_completed"@) == 0x14735f6e);
        },
        EventKind::SensorRunFailed { .. } => {
            reveal_strlit("sensor_run_failed");
            assert(mark("sensor_run_failed"@) == 0x11735f6e);
        },
        EventKind::SensorCheckpointRecorded { .. } => {
            reveal_strlit("sensor_checkpoint_recorded");
            assert(mark("sensor_checkpoint_recorded"@) == 0x1a735f65);
        },
        EventKind::SensorCheckpointSuperseded { .. } => {
            reveal_strlit("sensor_checkpoint_superseded");
            assert(mark("sensor_checkpoint_superseded"@) == 0x1c735f65);
        },
        EventKind::SchemaRegistered { .. } => {
            reveal_strlit("schema_registered");
            assert(mark("schema_registered"@) == 0x11735f67);
        },
        EventKind::SchemaDisabled { .. } => {
            reveal_strlit("schema_disabled");
            assert(mark("schema_disabled"@) == 0xf735f73);
        },
        EventKind::SchemaArchived { .. } => {
            reveal_strlit("schema_archived");
            assert(mark("schema_archived"@) == 0xf735f63);
        },
        EventKind::SnapshotTaken { .. } => {
            reveal_strlit("snapshot_taken");
            assert(mark("snapshot_taken"@) == 0xe736f74);
        },
        EventKind::SnapshotRestored { .. } => {
            reveal_strlit("snapshot_restored");
            assert(mark("snapshot_restored"@) == 0x11736f72);
        },
        EventKind::CausalCellCreated { .. } => {
            reveal_strlit("causal_cell_created");
            assert(mark("causal_cell_created"@) == 0x13635f6c);
        },
        EventKind::IdentityEntityCreated { .. } => {
            reveal_strlit("identity_entity_created");
            assert(mark("identity_entity_created"@) == 0x17697465);
        },
        EventKind::IdentityLinkCreated { .. } => {
            reveal_strlit("identity_link_created");
            assert(mark("identity_link_created"@) == 0x1569746c);
        },
        EventKind::MicroModelRegistered { .. } => {
            reveal_strlit("micro_model_registered");
            assert(mark("micro_model_registered"@) == 0x166d6d65);
        },
        EventKind::MicroModelStatusChanged { .. } => {
            reveal_strlit("micro_model_status_changed");
            assert(mark("micro_model_status_changed"@) == 0x1a6d6d65);
        },
        EventKind::MicroModelPredictionRecorded { .. } => {
            reveal_strlit("micro_model_prediction_recorded");
            assert(mark("micro_model_prediction_recorded"@) == 0x1f6d6d65);
        },
        EventKind::MicroModelObservationRecorded { .. } => {
            reveal_strlit("micro_model_observation_recorded");
            assert(mark("micro_model_observation_recorded"@) == 0x206d6d65);
        },
    }
}

/// Events with the same name are of the same sort.
pub proof fn law_names_tell_sorts_apart(one: EventKind, other: EventKind)
    ensures
        one.name() == other.name() <==> sort_of(one) == sort_of(other),
{
    names_have_their_mark(one);
    names_have_their_mark(other);
}

/// Only events on nodes are about a node: the one that they create, update or delete.
pub proof fn law_targets_are_the_nodes_of_node_events(kind: EventKind)
    ensures
        kind matches EventKind::NodeCreated { node_id, .. } ==> kind.target() == Some(node_id@),
        kind matches EventKind::NodeUpdated { node_id, .. } ==> kind.target() == Some(node_id@),
        kind matches EventKind::NodeDeleted { node_id } ==> kind.target() == Some(node_id@),
        kind.target() is Some ==> kind is NodeCreated || kind is NodeUpdated || kind is NodeDeleted,
{
}

/// The first event of a cascade has no cause and lies at its top. One that it causes names it,
/// belongs to its cascade and its tenant, and lies one deeper.
pub proof fn law_events_descend_from_their_cause(
    first: EventModel,
    kind: EventKind,
    stamp: Stamp,
    cascade: Seq<char>,
    breadth: nat,
)
    ensures
        ({
            let start = EventModel::starting(kind, stamp, cascade);
            let next = first.causing(kind, stamp, breadth);
            &&& start.id == stamp.id@ && start.timestamp == stamp.timestamp && start.kind == kind
            &&& start.cascade_id == cascade && start.caused_by.len() == 0 && start.cascade_depth == 0
            &&& start.cascade_breadth_index == 0 && start.tenant_id is None
            &&& next.id == stamp.id@ && next.timestamp == stamp.timestamp && next.kind == kind
            &&& next.caused_by == seq![first.id] && next.cascade_id == first.cascade_id
            &&& next.cascade_depth == first.cascade_depth + 1 && next.tenant_id == first.tenant_id
            &&& next.cascade_breadth_index == breadth
        }),
{
}

/// Kinds that are the same are of the same sort, are about the same node, and do the same to a
/// graph.
pub proof fn law_same_kinds_do_the_same(one: EventKind, other: EventKind, graph: GraphModel)
    requires
        one.same(other),
    ensures
        sort_of(one) == sort_of(other),
        one.name() == other.name(),
        one.target() == other.target(),
        graph.outcome(one) == graph.outcome(other),
        graph.after(one) == graph.after(other),
{
    reveal(EventKind::same);
}

/// Events that are the same do the same to the store of actions.
pub proof fn law_same_events_do_the_same_to_actions(one: EventModel, other: EventModel, store: ActionStoreModel)
    requires
        one.same(other),
    ensures
        store.after(one) == store.after(other),
{
    reveal(EventKind::same);
}

/// Events that are the same do the same to the store of beliefs.
pub proof fn law_same_events_do_the_same_to_beliefs(one: EventModel, other: EventModel, store: EpistemicModel)
    requires
        one.same(other),
    ensures
        store.after(one) == store.after(other),
{
    reveal(EventKind::same);
}

/// Events that are the same do the same to the store of policies.
pub proof fn law_same_events_do_the_same_to_policies(one: EventModel, other: EventModel, store: PolicyStoreModel)
    requires
        one.same(other),
    ensures
        store.after(one) == store.after(other),
{
    reveal(EventKind::same);
}

/// Events that are the same do the same to the store of cells.
pub proof fn law_same_events_do_the_same_to_cells(one: EventModel, other: EventModel, store: CausalCellStoreModel)
    requires
        one.same(other),
    ensures
        store.after(one) == store.after(other),
{
    reveal(EventKind::same);
}

/// Events that are the same do the same to the store of entities.
pub proof fn law_same_events_do_the_same_to_entities(one: EventModel, other: EventModel, store: IdentityModel)
    requires
        one.same(other),
    ensures
        store.after(one) == store.after(other),
{
    reveal(EventKind::same);
}

/// Events that are the same do the same to the store of links.
pub proof fn law_same_events_do_the_same_to_links(one: EventModel, other: EventModel, store: IdentityLinkStoreModel)
    requires
        one.same(other),
    ensures
        store.after(one) == store.after(other),
{
    reveal(EventKind::same);
}

/// Events that are the same do the same to the store of models.
pub proof fn law_same_events_do_the_same_to_models(one: EventModel, other: EventModel, store: MicroModelStoreModel)
    requires
        one.same(other),
    ensures
        store.after(one) == store.after(other),
{
    reveal(EventKind::same);
}

/// The reason that is given with an event.
pub open spec fn reason_of(kind: EventKind) -> Option<Seq<char>> {
    match kind {
        EventKind::ClaimDisputed { reason, .. } => opt_chars(reason),
        EventKind::ClaimRetracted { reason, .. } => opt_chars(reason),
        EventKind::ClaimStaled { reason, .. } => opt_chars(reason),
        EventKind::ActionApproved { reason, .. } => opt_chars(reason),
        EventKind::ActionRejected { reason, .. } => Some(reason@),
        EventKind::ActionFailed { reason, .. } => Some(reason@),
        EventKind::ActionCancelled { reason, .. } => opt_chars(reason),
        EventKind::PolicyDisabled { reason, .. } => opt_chars(reason),
        EventKind::ApprovalRejected { reason, .. } => Some(reason@),
        EventKind::ApprovalCancelled { reason, .. } => opt_chars(reason),
        EventKind::SensorRunFailed { reason, .. } => Some(reason@),
        EventKind::MicroModelStatusChanged { reason, .. } => opt_chars(reason),
        _ => None,
    }
}

/// Who an event was brought about by.
pub open spec fn author_of(kind: EventKind) -> Option<Seq<char>> {
    match kind {
        EventKind::ClaimVerified { verified_by, .. } => Some(verified_by@),
        EventKind::ActionApproved { approved_by, .. } => Some(approved_by@),
        EventKind::ActionRejected { rejected_by, .. } => Some(rejected_by@),
        EventKind::ActionCancelled { cancelled_by, .. } => Some(cancelled_by@),
        EventKind::PolicyDisabled { disabled_by, .. } => Some(disabled_by@),
        EventKind::ApprovalGranted { approved_by, .. } => Some(approved_by@),
        EventKind::ApprovalRejected { rejected_by, .. } => Some(rejected_by@),
        EventKind::ApprovalCancelled { cancelled_by, .. } => Some(cancelled_by@),
        _ => None,
    }
}

/// The run, checkpoint, schema or snapshot that an event is about.
pub open spec fn record_of(kind: EventKind) -> Option<Seq<char>> {
    match kind {
        EventKind::Snapshot { snapshot_id } => Some(snapshot_id@),
        EventKind::SensorRunStarted { run_id } => Some(run_id@),
        EventKind::SensorRunCompleted { run_id } => Some(run_id@),
        EventKind::SensorRunFailed { run_id, .. } => Some(run_id@),
        EventKind::SensorCheckpointRecorded { checkpoint_id } => Some(checkpoint_id@),
        EventKind::SensorCheckpointSuperseded { checkpoint_id } => Some(checkpoint_id@),
        EventKind::SchemaRegistered { schema_id } => Some(schema_id@),
        EventKind::SchemaDisabled { schema_id } => Some(schema_id@),
        EventKind::SchemaArchived { schema_id } => Some(schema_id@),
        EventKind::SnapshotTaken { snapshot_id } => Some(snapshot_id@),
        EventKind::SnapshotRestored { snapshot_id } => Some(snapshot_id@),
        _ => None,
    }
}

/// Kinds that are the same have the same reason and the same author, are about the same record,
/// and, where they are signals, say the same; where they commit a claim, they name the same node
/// and edge. Every kind is the same as itself.
pub proof fn law_same_kinds_say_the_same(one: EventKind, other: EventKind)
    ensures
        one.same(one),
        one.same(other) ==> {
            &&& other.same(one)
            &&& reason_of(one) == reason_of(other)
            &&& author_of(one) == author_of(other)
            &&& record_of(one) == record_of(other)
            &&& one is Signal ==> one->Signal_name@ == other->Signal_name@ && one->Signal_source@
                == other->Signal_source@ && one->Signal_payload@ == other->Signal_payload@
            &&& one is TopologyCommittedFromClaim ==> opt_text(one->TopologyCommittedFromClaim_node_id) == opt_text(
                other->TopologyCommittedFromClaim_node_id,
            ) && opt_text(one->TopologyCommittedFromClaim_edge_id) == opt_text(
                other->TopologyCommittedFromClaim_edge_id,
            )
        },
{
    reveal(EventKind::same);
}

} // verus!
