use hydra_engine::event::{Event, EventKind};
use hydra_engine::ids::{ActionId, ActorId, Id, TenantId};
use hydra_engine::number::Number;
use hydra_engine::policy::{ApprovalRequest, ApprovalStatus, Policy, PolicyDecision, PolicyDecisionKind, PolicyKind, PolicyScope, PolicyStatus};
use hydra_engine::policy_store::PolicyStore;
use hydra_engine::time::Timestamp;
use hydra_engine::value::{Properties, Value};
use std::collections::hash_map::RandomState;
use std::hash::{BuildHasher, Hasher};

fn fresh(prefix: &str) -> Id {
    Id::from_str(&format!("{}_{:016x}", prefix, RandomState::new().build_hasher().finish()))
}

fn float(x: f64) -> Value {
    Value::Float(Number::from_bits(x.to_bits()))
}

fn tenant() -> TenantId {
    TenantId::from_str("tenant_policy_store_test")
}

fn actor() -> ActorId {
    ActorId::from_str("actor_policy")
}

fn accountant() -> ActorId {
    ActorId::from_str("actor_accountant")
}

fn event(kind: EventKind) -> Event {
    Event {
        id: fresh("evt"),
        tenant_id: Some(tenant()),
        timestamp: Timestamp::at(1_780_000_000),
        kind,
        caused_by: vec![],
        cascade_id: fresh("casc"),
        cascade_depth: 0,
        cascade_breadth_index: 0,
    }
}

fn policy() -> Policy {
    let now = Timestamp::at(1_780_000_000);
    let mut condition = Properties::new();
    condition.set("max_amount".to_string(), float(5000.0));
    Policy {
        id: fresh("policy"),
        tenant_id: Some(tenant()),
        name: "Auto approve small ledger entries".to_string(),
        kind: PolicyKind::AutoApproval,
        status: PolicyStatus::Active,
        scope: PolicyScope::ActionKind("PostLedgerEntry".to_string()),
        condition,
        metadata: Properties::new(),
        created_by: actor(),
        created_at: now,
        updated_at: now,
        caused_by: None,
    }
}

fn decision(action_id: ActionId, kind: PolicyDecisionKind) -> PolicyDecision {
    PolicyDecision {
        id: fresh("decision"),
        tenant_id: Some(tenant()),
        policy_id: Some(fresh("policy")),
        action_id,
        kind,
        reason: "test policy decision".to_string(),
        evidence: vec![],
        related_claims: vec![],
        decided_by: actor(),
        decided_at: Timestamp::at(1_780_000_000),
        caused_by: None,
        details: Properties::new(),
    }
}

fn approval(action_id: ActionId) -> ApprovalRequest {
    ApprovalRequest {
        id: fresh("approval"),
        tenant_id: Some(tenant()),
        action_id,
        policy_decision_id: Some(fresh("decision")),
        status: ApprovalStatus::Requested,
        requested_by: actor(),
        requested_from: vec![accountant()],
        reason: "accountant approval required".to_string(),
        requested_at: Timestamp::at(1_780_000_000),
        resolved_at: None,
        resolved_by: None,
        caused_by: None,
        metadata: Properties::new(),
    }
}

#[test]
fn stores_registered_policy() {
    let mut store = PolicyStore::new();
    let policy = policy();
    let policy_id = policy.id.clone();
    store
        .apply_event(&event(EventKind::PolicyRegistered {
            policy: policy.clone(),
        }))
        .unwrap();
    assert_eq!(store.policy_count(), 1);
    assert_eq!(store.policy(&policy_id), Some(&policy));
    assert_eq!(store.active_policies().len(), 1);
    assert_eq!(store.policies_with_kind(PolicyKind::AutoApproval).len(), 1);
    assert_eq!(
        store
            .policies_for_scope(&PolicyScope::ActionKind("PostLedgerEntry".to_string()))
            .len(),
        1
    );
}

#[test]
fn disables_policy_and_reindexes_status() {
    let mut store = PolicyStore::new();
    let policy = policy();
    let policy_id = policy.id.clone();
    store
        .apply_event(&event(EventKind::PolicyRegistered { policy }))
        .unwrap();
    assert_eq!(store.active_policies().len(), 1);

    store
        .apply_event(&event(EventKind::PolicyDisabled {
            policy_id: policy_id.clone(),
            disabled_by: actor(),
            reason: Some("manual disable".to_string()),
        }))
        .unwrap();
    assert_eq!(store.active_policies().len(), 0);
    assert_eq!(store.disabled_policies().len(), 1);
    assert_eq!(
        store.policy(&policy_id).unwrap().status,
        PolicyStatus::Disabled
    );
}

#[test]
fn stores_policy_decision_and_indexes_by_action_and_kind() {
    let mut store = PolicyStore::new();
    let action_id = fresh("action");
    let decision = decision(action_id.clone(), PolicyDecisionKind::RequireApproval);
    let decision_id = decision.id.clone();
    store
        .apply_event(&event(EventKind::PolicyDecisionRecorded {
            decision: decision.clone(),
        }))
        .unwrap();
    assert_eq!(store.decision_count(), 1);
    assert_eq!(store.decision(&decision_id), Some(&decision));
    assert_eq!(store.decisions_for_action(&action_id).len(), 1);
    assert_eq!(
        store
            .decisions_with_kind(PolicyDecisionKind::RequireApproval)
            .len(),
        1
    );
}

#[test]
fn stores_approval_request_and_indexes_by_action_status_and_actor() {
    let mut store = PolicyStore::new();
    let action_id = fresh("action");
    let approval = approval(action_id.clone());
    let approval_id = approval.id.clone();
    store
        .apply_event(&event(EventKind::ApprovalRequested {
            request: approval.clone(),
        }))
        .unwrap();
    assert_eq!(store.approval_count(), 1);
    assert_eq!(store.approval(&approval_id), Some(&approval));
    assert_eq!(store.approvals_for_action(&action_id).len(), 1);
    assert_eq!(store.pending_approvals().len(), 1);
    assert_eq!(store.approvals_requested_from(&accountant()).len(), 1);
}

#[test]
fn approval_granted_updates_status_and_resolution_fields() {
    let mut store = PolicyStore::new();
    let action_id = fresh("action");
    let approval = approval(action_id);
    let approval_id = approval.id.clone();
    store
        .apply_event(&event(EventKind::ApprovalRequested { request: approval }))
        .unwrap();
    store
        .apply_event(&event(EventKind::ApprovalGranted {
            approval_id: approval_id.clone(),
            approved_by: accountant(),
        }))
        .unwrap();
    let stored = store.approval(&approval_id).unwrap();
    assert_eq!(stored.status, ApprovalStatus::Approved);
    assert_eq!(stored.resolved_by, Some(accountant()));
    assert!(stored.resolved_at.is_some());
    assert_eq!(store.pending_approvals().len(), 0);
    assert_eq!(store.approved_requests().len(), 1);
}

#[test]
fn approval_rejected_and_cancelled_are_indexed() {
    let mut store = PolicyStore::new();
    let rejected = approval(fresh("action"));
    let rejected_id = rejected.id.clone();
    store
        .apply_event(&event(EventKind::ApprovalRequested { request: rejected }))
        .unwrap();
    store
        .apply_event(&event(EventKind::ApprovalRejected {
            approval_id: rejected_id,
            rejected_by: accountant(),
            reason: "not allowed".to_string(),
        }))
        .unwrap();
    assert_eq!(store.rejected_requests().len(), 1);

    let cancelled = approval(fresh("action"));
    let cancelled_id = cancelled.id.clone();
    store
        .apply_event(&event(EventKind::ApprovalRequested { request: cancelled }))
        .unwrap();
    store
        .apply_event(&event(EventKind::ApprovalCancelled {
            approval_id: cancelled_id,
            cancelled_by: actor(),
            reason: Some("superseded".to_string()),
        }))
        .unwrap();
    assert_eq!(
        store.approvals_with_status(ApprovalStatus::Cancelled).len(),
        1
    );
}

#[test]
fn rejects_unknown_policy_or_approval_transitions() {
    let mut store = PolicyStore::new();
    let missing_policy = store.apply_event(&event(EventKind::PolicyDisabled {
        policy_id: fresh("policy"),
        disabled_by: actor(),
        reason: None,
    }));
    assert!(missing_policy.is_err());

    let missing_approval = store.apply_event(&event(EventKind::ApprovalGranted {
        approval_id: fresh("approval"),
        approved_by: actor(),
    }));
    assert!(missing_approval.is_err());
}
