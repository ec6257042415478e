use hydra_engine::action::{Action, ActionKind, ActionStatus, ActionTarget, Outcome, OutcomeKind};
use hydra_engine::action_store::ActionStore;
use hydra_engine::event::{Event, EventKind};
use hydra_engine::ids::{ActionId, ActorId, Id, TenantId};
use hydra_engine::time::Timestamp;
use hydra_engine::value::{Properties, Value};
use std::collections::hash_map::RandomState;
use std::hash::{BuildHasher, Hasher};

fn fresh(prefix: &str) -> Id {
    Id::from_str(&format!("{}_{:016x}", prefix, RandomState::new().build_hasher().finish()))
}

fn tenant() -> TenantId {
    TenantId::from_str("tenant_action_store_test")
}

fn actor() -> ActorId {
    ActorId::from_str("actor_prometheus")
}

fn event(kind: EventKind) -> Event {
    Event {
        id: fresh("evt"),
        tenant_id: Some(tenant()),
        timestamp: Timestamp::at(1_780_000_000),
        kind,
        caused_by: vec![],
        cascade_id: fresh("casc"),
        cascade_depth: 0,
        cascade_breadth_index: 0,
    }
}

fn action() -> Action {
    let now = Timestamp::at(1_780_000_000);
    let mut payload = Properties::new();
    payload.set(
        "reason".to_string(),
        Value::String("dataset freshness anomaly".to_string()),
    );
    Action {
        id: fresh("action"),
        tenant_id: Some(tenant()),
        kind: ActionKind::Backfill,
        status: ActionStatus::Proposed,
        targets: vec![ActionTarget::Dataset(
            "analytics.public.revenue_daily".to_string(),
        )],
        related_claims: vec![fresh("claim")],
        supporting_evidence: vec![],
        proposed_by: actor(),
        approved_by: None,
        rejected_by: None,
        policy_id: None,
        payload,
        created_at: now,
        updated_at: now,
        approved_at: None,
        rejected_at: None,
        executed_at: None,
        caused_by: None,
    }
}

fn outcome(action_id: ActionId) -> Outcome {
    let now = Timestamp::at(1_780_000_000);
    let mut impact = Properties::new();
    impact.set("freshness_restored".to_string(), Value::Bool(true));
    Outcome {
        id: fresh("outcome"),
        tenant_id: Some(tenant()),
        action_id,
        kind: OutcomeKind::Success,
        observed_events: vec![],
        updated_claims: vec![],
        produced_evidence: vec![],
        impact,
        observed_at: now,
        recorded_at: now,
        recorded_by: actor(),
        caused_by: None,
    }
}

#[test]
fn stores_proposed_action() {
    let mut store = ActionStore::new();
    let action = action();
    let action_id = action.id.clone();
    store
        .apply_event(&event(EventKind::ActionProposed {
            action: action.clone(),
        }))
        .unwrap();
    assert_eq!(store.action_count(), 1);
    assert_eq!(store.outcome_count(), 0);
    assert_eq!(store.action(&action_id), Some(&action));
    assert_eq!(store.proposed_actions().len(), 1);
}

#[test]
fn transitions_action_lifecycle() {
    let mut store = ActionStore::new();
    let action = action();
    let action_id = action.id.clone();
    store
        .apply_event(&event(EventKind::ActionProposed { action }))
        .unwrap();
    store
        .apply_event(&event(EventKind::ActionApproved {
            action_id: action_id.clone(),
            approved_by: actor(),
            reason: None,
        }))
        .unwrap();
    let approved = store.action(&action_id).unwrap();
    assert_eq!(approved.status, ActionStatus::Approved);
    assert_eq!(approved.approved_by, Some(actor()));
    assert!(approved.approved_at.is_some());

    store
        .apply_event(&event(EventKind::ActionExecuting {
            action_id: action_id.clone(),
        }))
        .unwrap();
    assert_eq!(
        store.action(&action_id).unwrap().status,
        ActionStatus::Executing
    );

    store
        .apply_event(&event(EventKind::ActionExecuted {
            action_id: action_id.clone(),
        }))
        .unwrap();
    let executed = store.action(&action_id).unwrap();
    assert_eq!(executed.status, ActionStatus::Executed);
    assert!(executed.executed_at.is_some());
    assert_eq!(store.executed_actions().len(), 1);
}

#[test]
fn stores_outcome_for_action() {
    let mut store = ActionStore::new();
    let action = action();
    let action_id = action.id.clone();
    store
        .apply_event(&event(EventKind::ActionProposed { action }))
        .unwrap();
    let outcome = outcome(action_id.clone());
    let outcome_id = outcome.id.clone();
    store
        .apply_event(&event(EventKind::OutcomeObserved {
            outcome: outcome.clone(),
        }))
        .unwrap();
    assert_eq!(store.outcome_count(), 1);
    assert_eq!(store.outcome(&outcome_id), Some(&outcome));
    assert_eq!(store.outcomes_for_action(&action_id).len(), 1);
}

#[test]
fn rejects_outcome_for_unknown_action() {
    let mut store = ActionStore::new();
    let outcome = outcome(fresh("action"));
    let result = store.apply_event(&event(EventKind::OutcomeObserved { outcome }));
    assert!(result.is_err());
}

#[test]
fn indexes_actions_by_target_and_claim() {
    let mut store = ActionStore::new();
    let action = action();
    let target = action.targets[0].clone();
    let claim_id = action.related_claims[0].clone();
    store
        .apply_event(&event(EventKind::ActionProposed {
            action: action.clone(),
        }))
        .unwrap();
    assert_eq!(store.actions_for_target(&target).len(), 1);
    assert_eq!(store.actions_for_claim(&claim_id).len(), 1);
    assert_eq!(store.actions_for_target(&target)[0].id, action.id);
    assert_eq!(store.actions_for_claim(&claim_id)[0].id, action.id);
}

#[test]
fn failed_and_cancelled_actions_are_indexed() {
    let mut store = ActionStore::new();
    let failed = action();
    let failed_id = failed.id.clone();
    store
        .apply_event(&event(EventKind::ActionProposed { action: failed }))
        .unwrap();
    store
        .apply_event(&event(EventKind::ActionFailed {
            action_id: failed_id.clone(),
            reason: "pipeline permission denied".to_string(),
        }))
        .unwrap();
    assert_eq!(store.failed_actions().len(), 1);

    let cancelled = action();
    let cancelled_id = cancelled.id.clone();
    store
        .apply_event(&event(EventKind::ActionProposed { action: cancelled }))
        .unwrap();
    store
        .apply_event(&event(EventKind::ActionCancelled {
            action_id: cancelled_id,
            cancelled_by: actor(),
            reason: Some("manual override".to_string()),
        }))
        .unwrap();
    assert_eq!(store.cancelled_actions().len(), 1);
}
