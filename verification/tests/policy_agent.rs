use hydra_engine::action::{Action, ActionKind, ActionStatus, ActionTarget};
use hydra_engine::action_store::ActionStore;
use hydra_engine::event::{Event, EventKind};
use hydra_engine::ids::{ActorId, Id, TenantId};
use hydra_engine::policy::{ApprovalStatus, Policy, PolicyDecisionKind, PolicyKind, PolicyScope, PolicyStatus};
use hydra_engine::policy_agent::{PolicyAgent, PolicyMint};
use hydra_engine::policy_engine::PolicyEngine;
use hydra_engine::policy_store::PolicyStore;
use hydra_engine::time::Timestamp;
use hydra_engine::value::{Properties, Value};
use std::collections::hash_map::RandomState;
use std::hash::{BuildHasher, Hasher};

fn fresh(prefix: &str) -> Id {
    Id::from_str(&format!("{}_{:016x}", prefix, RandomState::new().build_hasher().finish()))
}

fn mint() -> PolicyMint {
    PolicyMint { decision_id: fresh("decision"), approval_id: fresh("approval"), now: Timestamp::at(1_780_000_000) }
}

fn tenant() -> TenantId {
    TenantId::from_str("tenant_policy_agent_test")
}

fn actor() -> ActorId {
    ActorId::from_str("actor_policy_agent")
}

fn approver() -> ActorId {
    ActorId::from_str("actor_accountant")
}

fn proposer() -> ActorId {
    ActorId::from_str("actor_prometheus")
}

fn event(kind: EventKind) -> Event {
    Event {
        id: fresh("evt"),
        tenant_id: Some(tenant()),
        timestamp: Timestamp::at(1_780_000_000),
        kind,
        caused_by: vec![],
        cascade_id: fresh("casc"),
        cascade_depth: 0,
        cascade_breadth_index: 0,
    }
}

fn action(kind: ActionKind) -> Action {
    let now = Timestamp::at(1_780_000_000);
    Action {
        id: fresh("action"),
        tenant_id: Some(tenant()),
        kind,
        status: ActionStatus::Proposed,
        targets: vec![ActionTarget::System("test".to_string())],
        related_claims: vec![],
        supporting_evidence: vec![],
        proposed_by: proposer(),
        approved_by: None,
        rejected_by: None,
        policy_id: None,
        payload: Properties::new(),
        created_at: now,
        updated_at: now,
        approved_at: None,
        rejected_at: None,
        executed_at: None,
        caused_by: None,
    }
}

fn policy(kind: PolicyKind, scope: PolicyScope) -> Policy {
    let now = Timestamp::at(1_780_000_000);
    Policy {
        id: fresh("policy"),
        tenant_id: Some(tenant()),
        name: format!("{:?} policy", kind),
        kind,
        status: PolicyStatus::Active,
        scope,
        condition: Properties::new(),
        metadata: Properties::new(),
        created_by: actor(),
        created_at: now,
        updated_at: now,
        caused_by: None,
    }
}

fn stores_with_policy(
    policy: Option<Policy>,
    action: &Action,
) -> (ActionStore, PolicyStore) {
    let mut action_store = ActionStore::new();
    let mut policy_store = PolicyStore::new();
    if let Some(policy) = policy {
        policy_store
            .apply_event(&event(EventKind::PolicyRegistered { policy }))
            .unwrap();
    }
    action_store
        .apply_event(&event(EventKind::ActionProposed {
            action: action.clone(),
        }))
        .unwrap();
    (action_store, policy_store)
}

fn agent() -> PolicyAgent {
    PolicyAgent::new(actor(), approver())
}

#[test]
fn allow_emits_policy_decision_and_action_approved() {
    let action = action(ActionKind::Backfill);
    let (action_store, policy_store) = stores_with_policy(None, &action);
    let policy_engine = PolicyEngine::new();
    let events = agent().react_to_kind(
        &EventKind::ActionProposed {
            action: action.clone(),
        },
        &action_store,
        &policy_store,
        &policy_engine,
        mint(),
    );
    assert_eq!(events.len(), 2);
    match &events[0] {
        EventKind::PolicyDecisionRecorded { decision } => {
            assert_eq!(decision.action_id, action.id);
            assert_eq!(decision.kind, PolicyDecisionKind::Allow);
        }
        other => panic!("expected PolicyDecisionRecorded, got {other:?}"),
    }
    match &events[1] {
        EventKind::ActionApproved {
            action_id,
            approved_by,
            ..
        } => {
            assert_eq!(action_id, &action.id);
            assert_eq!(approved_by, &actor());
        }
        other => panic!("expected ActionApproved, got {other:?}"),
    }
}

#[test]
fn auto_approval_emits_policy_decision_and_action_approved() {
    let action = action(ActionKind::Backfill);
    let policy = policy(
        PolicyKind::AutoApproval,
        PolicyScope::ActionKind("Backfill".to_string()),
    );
    let policy_id = policy.id.clone();
    let (action_store, policy_store) = stores_with_policy(Some(policy), &action);
    let policy_engine = PolicyEngine::new();
    let events = agent().react_to_kind(
        &EventKind::ActionProposed {
            action: action.clone(),
        },
        &action_store,
        &policy_store,
        &policy_engine,
        mint(),
    );
    assert_eq!(events.len(), 2);
    match &events[0] {
        EventKind::PolicyDecisionRecorded { decision } => {
            assert_eq!(decision.kind, PolicyDecisionKind::AutoApprove);
            assert_eq!(decision.policy_id, Some(policy_id));
        }
        other => panic!("expected PolicyDecisionRecorded, got {other:?}"),
    }
    assert!(matches!(events[1], EventKind::ActionApproved { .. }));
}

#[test]
fn require_approval_emits_policy_decision_and_approval_requested() {
    let action = action(ActionKind::RunPayroll);
    let policy = policy(
        PolicyKind::HumanApproval,
        PolicyScope::ActionKind("RunPayroll".to_string()),
    );
    let (action_store, policy_store) = stores_with_policy(Some(policy), &action);
    let policy_engine = PolicyEngine::new();
    let events = agent().react_to_kind(
        &EventKind::ActionProposed {
            action: action.clone(),
        },
        &action_store,
        &policy_store,
        &policy_engine,
        mint(),
    );
    assert_eq!(events.len(), 2);
    let decision_id = match &events[0] {
        EventKind::PolicyDecisionRecorded { decision } => {
            assert_eq!(decision.kind, PolicyDecisionKind::RequireApproval);
            decision.id.clone()
        }
        other => panic!("expected PolicyDecisionRecorded, got {other:?}"),
    };
    match &events[1] {
        EventKind::ApprovalRequested { request } => {
            assert_eq!(request.action_id, action.id);
            assert_eq!(request.policy_decision_id, Some(decision_id));
            assert_eq!(request.status, ApprovalStatus::Requested);
            assert_eq!(request.requested_from, vec![approver()]);
        }
        other => panic!("expected ApprovalRequested, got {other:?}"),
    }
}

#[test]
fn block_emits_policy_decision_and_action_rejected() {
    let action = action(ActionKind::RunPayroll);
    let policy = policy(PolicyKind::Block, PolicyScope::AnyAction);
    let (action_store, policy_store) = stores_with_policy(Some(policy), &action);
    let policy_engine = PolicyEngine::new();
    let events = agent().react_to_kind(
        &EventKind::ActionProposed {
            action: action.clone(),
        },
        &action_store,
        &policy_store,
        &policy_engine,
        mint(),
    );
    assert_eq!(events.len(), 2);
    match &events[0] {
        EventKind::PolicyDecisionRecorded { decision } => {
            assert_eq!(decision.kind, PolicyDecisionKind::Block);
        }
        other => panic!("expected PolicyDecisionRecorded, got {other:?}"),
    }
    match &events[1] {
        EventKind::ActionRejected {
            action_id,
            rejected_by,
            reason,
        } => {
            assert_eq!(action_id, &action.id);
            assert_eq!(rejected_by, &actor());
            assert!(reason.contains("matched active policy"));
        }
        other => panic!("expected ActionRejected, got {other:?}"),
    }
}

#[test]
fn review_requirement_emits_human_review_signal() {
    let action = action(ActionKind::PostLedgerEntry);
    let policy = policy(PolicyKind::ReviewRequirement, PolicyScope::AnyAction);
    let (action_store, policy_store) = stores_with_policy(Some(policy), &action);
    let policy_engine = PolicyEngine::new();
    let events = agent().react_to_kind(
        &EventKind::ActionProposed {
            action: action.clone(),
        },
        &action_store,
        &policy_store,
        &policy_engine,
        mint(),
    );
    assert_eq!(events.len(), 2);
    assert!(matches!(events[0], EventKind::PolicyDecisionRecorded { .. }));
    match &events[1] {
        EventKind::Signal { name, payload, .. } => {
            assert_eq!(name, "policy_needs_human_review");
            assert_eq!(
                payload.get("action_id"),
                Some(&Value::String(action.id.as_str().to_string()))
            );
        }
        other => panic!("expected policy_needs_human_review Signal, got {other:?}"),
    }
}

#[test]
fn escalation_emits_escalation_signal() {
    let action = action(ActionKind::PostLedgerEntry);
    let policy = policy(PolicyKind::Escalation, PolicyScope::AnyAction);
    let (action_store, policy_store) = stores_with_policy(Some(policy), &action);
    let policy_engine = PolicyEngine::new();
    let events = agent().react_to_kind(
        &EventKind::ActionProposed {
            action: action.clone(),
        },
        &action_store,
        &policy_store,
        &policy_engine,
        mint(),
    );
    assert_eq!(events.len(), 2);
    match &events[1] {
        EventKind::Signal { name, payload, .. } => {
            assert_eq!(name, "policy_escalated");
            assert_eq!(
                payload.get("action_id"),
                Some(&Value::String(action.id.as_str().to_string()))
            );
        }
        other => panic!("expected policy_escalated Signal, got {other:?}"),
    }
}

#[test]
fn noops_for_non_action_proposed_events() {
    let action = action(ActionKind::Backfill);
    let (action_store, policy_store) = stores_with_policy(None, &action);
    let policy_engine = PolicyEngine::new();
    let events = agent().react_to_kind(
        &EventKind::ActionExecuted {
            action_id: action.id,
        },
        &action_store,
        &policy_store,
        &policy_engine,
        mint(),
    );
    assert!(events.is_empty());
}
