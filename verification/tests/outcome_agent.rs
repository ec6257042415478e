use hydra_engine::action::{Action, ActionKind, ActionStatus, ActionTarget, OutcomeKind};
use hydra_engine::action_store::ActionStore;
use hydra_engine::event::{Event, EventKind, Stamp};
use hydra_engine::ids::{ActorId, Id, TenantId};
use hydra_engine::outcome_agent::OutcomeAgent;
use hydra_engine::time::Timestamp;
use hydra_engine::value::{Properties, Value};
use std::collections::hash_map::RandomState;
use std::hash::{BuildHasher, Hasher};

fn fresh(prefix: &str) -> Id {
    Id::from_str(&format!("{}_{:016x}", prefix, RandomState::new().build_hasher().finish()))
}

fn stamp() -> Stamp {
    Stamp { id: fresh("evt"), timestamp: Timestamp::at(1_780_000_000) }
}

fn tenant() -> TenantId {
    TenantId::from_str("tenant_outcome_agent_test")
}

fn actor() -> ActorId {
    ActorId::from_str("actor_sentinel")
}

fn prometheus() -> ActorId {
    ActorId::from_str("actor_prometheus")
}

fn event(kind: EventKind) -> Event {
    Event {
        id: fresh("evt"),
        tenant_id: Some(tenant()),
        timestamp: Timestamp::at(1_780_000_000),
        kind,
        caused_by: vec![],
        cascade_id: fresh("casc"),
        cascade_depth: 0,
        cascade_breadth_index: 0,
    }
}

fn backfill_action(status: ActionStatus) -> Action {
    let now = Timestamp::at(1_780_000_000);
    let executed_at = if status == ActionStatus::Executed {
        Some(now)
    } else {
        None
    };
    let mut payload = Properties::new();
    payload.set(
        "reason".to_string(),
        Value::String("verified dataset freshness anomaly".to_string()),
    );
    Action {
        id: fresh("action"),
        tenant_id: Some(tenant()),
        kind: ActionKind::Backfill,
        status,
        targets: vec![ActionTarget::Dataset(
            "analytics.public.revenue_daily".to_string(),
        )],
        related_claims: vec![fresh("claim")],
        supporting_evidence: vec![],
        proposed_by: prometheus(),
        approved_by: None,
        rejected_by: None,
        policy_id: None,
        payload,
        created_at: now,
        updated_at: now,
        approved_at: None,
        rejected_at: None,
        executed_at,
        caused_by: None,
    }
}

fn notify_action(status: ActionStatus) -> Action {
    let mut action = backfill_action(status);
    action.kind = ActionKind::Notify;
    action
}

fn store_with_action(action: Action) -> ActionStore {
    let mut store = ActionStore::new();
    let action_id = action.id.clone();
    store
        .apply_event(&event(EventKind::ActionProposed {
            action: action.clone(),
        }))
        .unwrap();
    match action.status {
        ActionStatus::Approved => {
            store
                .apply_event(&event(EventKind::ActionApproved {
                    action_id,
                    approved_by: prometheus(),
                    reason: None,
                }))
                .unwrap();
        }
        ActionStatus::Executing => {
            store
                .apply_event(&event(EventKind::ActionExecuting { action_id }))
                .unwrap();
        }
        ActionStatus::Executed => {
            store
                .apply_event(&event(EventKind::ActionExecuted { action_id }))
                .unwrap();
        }
        ActionStatus::Failed => {
            store
                .apply_event(&event(EventKind::ActionFailed {
                    action_id,
                    reason: "test failure".to_string(),
                }))
                .unwrap();
        }
        ActionStatus::Cancelled => {
            store
                .apply_event(&event(EventKind::ActionCancelled {
                    action_id,
                    cancelled_by: prometheus(),
                    reason: Some("test cancel".to_string()),
                }))
                .unwrap();
        }
        ActionStatus::Proposed | ActionStatus::Rejected => {}
    }
    store
}

#[test]
fn emits_unknown_outcome_for_executed_backfill_action() {
    let action = backfill_action(ActionStatus::Executed);
    let action_id = action.id.clone();
    let store = store_with_action(action);
    let agent = OutcomeAgent::new(actor());
    let events = agent.react_to_kind(
        &EventKind::ActionExecuted {
            action_id: action_id.clone(),
        },
        &store,
        stamp(),
    );
    assert_eq!(events.len(), 1);
    match &events[0] {
        EventKind::OutcomeObserved { outcome } => {
            assert_eq!(outcome.action_id, action_id);
            assert_eq!(outcome.kind, OutcomeKind::Unknown);
            assert_eq!(outcome.recorded_by, actor());
            assert_eq!(outcome.updated_claims.len(), 1);
        }
        other => panic!("expected OutcomeObserved, got {other:?}"),
    }
}

#[test]
fn noops_for_unexecuted_backfill_action() {
    let action = backfill_action(ActionStatus::Proposed);
    let action_id = action.id.clone();
    let store = store_with_action(action);
    let agent = OutcomeAgent::new(actor());
    let events = agent.react_to_kind(
        &EventKind::ActionExecuted { action_id },
        &store,
        stamp(),
    );
    // The store still has the action as Proposed, so outcome emission is blocked.
    assert!(events.is_empty());
}

#[test]
fn noops_for_non_backfill_action() {
    let action = notify_action(ActionStatus::Executed);
    let action_id = action.id.clone();
    let store = store_with_action(action);
    let agent = OutcomeAgent::new(actor());
    let events = agent.react_to_kind(
        &EventKind::ActionExecuted { action_id },
        &store,
        stamp(),
    );
    assert!(events.is_empty());
}

#[test]
fn emits_signal_when_action_executed_references_missing_action() {
    let store = ActionStore::new();
    let missing_action_id = fresh("action");
    let agent = OutcomeAgent::new(actor());
    let events = agent.react_to_kind(
        &EventKind::ActionExecuted {
            action_id: missing_action_id.clone(),
        },
        &store,
        stamp(),
    );
    assert_eq!(events.len(), 1);
    match &events[0] {
        EventKind::Signal { name, payload, .. } => {
            assert_eq!(name, "outcome_missing_action");
            assert_eq!(
                payload.get("action_id"),
                Some(&Value::String(missing_action_id.as_str().to_string()))
            );
        }
        other => panic!("expected Signal, got {other:?}"),
    }
}

#[test]
fn noops_for_non_action_executed_events() {
    let action = backfill_action(ActionStatus::Executed);
    let store = store_with_action(action.clone());
    let agent = OutcomeAgent::new(actor());
    let events = agent.react_to_kind(
        &EventKind::ActionProposed { action },
        &store,
        stamp(),
    );
    assert!(events.is_empty());
}
