use hydra_engine::action::{Action, ActionKind, ActionStatus, ActionTarget};
use hydra_engine::event::{Event, EventKind};
use hydra_engine::ids::{ActorId, Id, TenantId};
use hydra_engine::policy::{Policy, PolicyKind, PolicyScope, PolicyStatus};
use hydra_engine::policy_engine::{PolicyEngine, PolicyEvaluationDecision};
use hydra_engine::policy_store::PolicyStore;
use hydra_engine::time::Timestamp;
use hydra_engine::value::{Properties, Value};
use std::collections::hash_map::RandomState;
use std::hash::{BuildHasher, Hasher};

fn fresh(prefix: &str) -> Id {
    Id::from_str(&format!("{}_{:016x}", prefix, RandomState::new().build_hasher().finish()))
}

fn actor() -> ActorId {
    ActorId::from_str("actor_policy_test")
}

fn accountant() -> ActorId {
    ActorId::from_str("actor_accountant")
}

fn tenant() -> TenantId {
    TenantId::from_str("tenant_policy_engine_test")
}

fn event(kind: EventKind) -> Event {
    Event {
        id: fresh("evt"),
        tenant_id: Some(tenant()),
        timestamp: Timestamp::at(1_780_000_000),
        kind,
        caused_by: vec![],
        cascade_id: fresh("casc"),
        cascade_depth: 0,
        cascade_breadth_index: 0,
    }
}

fn action(kind: ActionKind) -> Action {
    let now = Timestamp::at(1_780_000_000);
    Action {
        id: fresh("action"),
        tenant_id: Some(tenant()),
        kind,
        status: ActionStatus::Proposed,
        targets: vec![ActionTarget::System("test".to_string())],
        related_claims: vec![],
        supporting_evidence: vec![],
        proposed_by: actor(),
        approved_by: None,
        rejected_by: None,
        policy_id: None,
        payload: Properties::new(),
        created_at: now,
        updated_at: now,
        approved_at: None,
        rejected_at: None,
        executed_at: None,
        caused_by: None,
    }
}

fn policy(kind: PolicyKind, scope: PolicyScope) -> Policy {
    let now = Timestamp::at(1_780_000_000);
    Policy {
        id: fresh("policy"),
        tenant_id: Some(tenant()),
        name: format!("{:?} policy", kind),
        kind,
        status: PolicyStatus::Active,
        scope,
        condition: Properties::new(),
        metadata: Properties::new(),
        created_by: actor(),
        created_at: now,
        updated_at: now,
        caused_by: None,
    }
}

fn store_with_policy(policy: Policy) -> PolicyStore {
    let mut store = PolicyStore::new();
    store
        .apply_event(&event(EventKind::PolicyRegistered { policy }))
        .unwrap();
    store
}

#[test]
fn no_matching_policy_allows_action() {
    let store = PolicyStore::new();
    let engine = PolicyEngine::new();
    let action = action(ActionKind::PostLedgerEntry);
    let report = engine.evaluate_action(&store, &action);
    assert_eq!(report.decision, PolicyEvaluationDecision::Allow);
    assert!(report.is_allowed());
    assert_eq!(report.matched_policy_id, None);
}

#[test]
fn auto_approval_policy_auto_approves_action() {
    let policy = policy(
        PolicyKind::AutoApproval,
        PolicyScope::ActionKind("PostLedgerEntry".to_string()),
    );
    let store = store_with_policy(policy.clone());
    let engine = PolicyEngine::new();
    let action = action(ActionKind::PostLedgerEntry);
    let report = engine.evaluate_action(&store, &action);
    assert_eq!(report.decision, PolicyEvaluationDecision::AutoApprove);
    assert_eq!(report.matched_policy_id, Some(policy.id));
    assert_eq!(report.matched_policy_kind, Some(PolicyKind::AutoApproval));
}

#[test]
fn human_approval_policy_requires_approval() {
    let policy = policy(
        PolicyKind::HumanApproval,
        PolicyScope::ActionKind("RunPayroll".to_string()),
    );
    let store = store_with_policy(policy);
    let engine = PolicyEngine::new();
    let action = action(ActionKind::RunPayroll);
    let report = engine.evaluate_action(&store, &action);
    assert_eq!(report.decision, PolicyEvaluationDecision::RequireApproval);
    assert!(report.requires_approval());
}

#[test]
fn block_policy_blocks_action() {
    let policy = policy(PolicyKind::Block, PolicyScope::AnyAction);
    let store = store_with_policy(policy);
    let engine = PolicyEngine::new();
    let action = action(ActionKind::RunPayroll);
    let report = engine.evaluate_action(&store, &action);
    assert_eq!(report.decision, PolicyEvaluationDecision::Block);
    assert!(report.is_blocked());
}

#[test]
fn disabled_policy_is_ignored() {
    let mut policy = policy(
        PolicyKind::Block,
        PolicyScope::ActionKind("PostLedgerEntry".to_string()),
    );
    policy.status = PolicyStatus::Disabled;
    let store = store_with_policy(policy);
    let engine = PolicyEngine::new();
    let action = action(ActionKind::PostLedgerEntry);
    let report = engine.evaluate_action(&store, &action);
    assert_eq!(report.decision, PolicyEvaluationDecision::Allow);
    assert_eq!(report.matched_policy_id, None);
}

#[test]
fn tenant_policy_matches_action_tenant() {
    let policy = policy(PolicyKind::HumanApproval, PolicyScope::Tenant(tenant()));
    let store = store_with_policy(policy);
    let engine = PolicyEngine::new();
    let action = action(ActionKind::PostLedgerEntry);
    let report = engine.evaluate_action(&store, &action);
    assert_eq!(report.decision, PolicyEvaluationDecision::RequireApproval);
}

#[test]
fn actor_policy_matches_action_proposer() {
    let policy = policy(PolicyKind::HumanApproval, PolicyScope::Actor(actor()));
    let store = store_with_policy(policy);
    let engine = PolicyEngine::new();
    let action = action(ActionKind::PostLedgerEntry);
    let report = engine.evaluate_action(&store, &action);
    assert_eq!(report.decision, PolicyEvaluationDecision::RequireApproval);
}

#[test]
fn precedence_prefers_block_over_auto_approval() {
    let mut store = PolicyStore::new();
    let auto = policy(PolicyKind::AutoApproval, PolicyScope::AnyAction);
    let block = policy(PolicyKind::Block, PolicyScope::AnyAction);
    store
        .apply_event(&event(EventKind::PolicyRegistered { policy: auto }))
        .unwrap();
    store
        .apply_event(&event(EventKind::PolicyRegistered { policy: block }))
        .unwrap();
    let engine = PolicyEngine::new();
    let action = action(ActionKind::Backfill);
    let report = engine.evaluate_action(&store, &action);
    assert_eq!(report.decision, PolicyEvaluationDecision::Block);
}

#[test]
fn non_proposed_action_is_allowed_without_gating() {
    let store = PolicyStore::new();
    let engine = PolicyEngine::new();
    let mut action = action(ActionKind::PostLedgerEntry);
    action.status = ActionStatus::Executed;
    let report = engine.evaluate_action(&store, &action);
    assert_eq!(report.decision, PolicyEvaluationDecision::Allow);
    assert!(report.reasons[0].contains("not Proposed"));
}

#[test]
fn custom_action_kind_matches_custom_scope_key() {
    let policy = policy(
        PolicyKind::HumanApproval,
        PolicyScope::ActionKind("Custom:PostCryptoJournal".to_string()),
    );
    let store = store_with_policy(policy);
    let engine = PolicyEngine::new();
    let action = action(ActionKind::Custom("PostCryptoJournal".to_string()));
    let report = engine.evaluate_action(&store, &action);
    assert_eq!(report.decision, PolicyEvaluationDecision::RequireApproval);
}

#[test]
fn custom_policy_scope_does_not_match_in_v0() {
    let policy = policy(
        PolicyKind::Block,
        PolicyScope::Custom("some-expression".to_string()),
    );
    let store = store_with_policy(policy);
    let engine = PolicyEngine::new();
    let action = action(ActionKind::PostLedgerEntry);
    let report = engine.evaluate_action(&store, &action);
    assert_eq!(report.decision, PolicyEvaluationDecision::Allow);
}

#[test]
fn finance_and_payroll_policies_require_approval_by_default() {
    for kind in [PolicyKind::Finance, PolicyKind::Payroll] {
        let store = store_with_policy(policy(kind, PolicyScope::AnyAction));
        let engine = PolicyEngine::new();
        let action = action(ActionKind::PostLedgerEntry);
        let report = engine.evaluate_action(&store, &action);
        assert_eq!(report.decision, PolicyEvaluationDecision::RequireApproval);
    }
}

#[test]
fn review_requirement_maps_to_needs_human_review() {
    let store = store_with_policy(policy(
        PolicyKind::ReviewRequirement,
        PolicyScope::AnyAction,
    ));
    let engine = PolicyEngine::new();
    let action = action(ActionKind::PostLedgerEntry);
    let report = engine.evaluate_action(&store, &action);
    assert_eq!(report.decision, PolicyEvaluationDecision::NeedsHumanReview);
}

#[test]
fn escalation_policy_maps_to_escalate() {
    let store = store_with_policy(policy(PolicyKind::Escalation, PolicyScope::AnyAction));
    let engine = PolicyEngine::new();
    let action = action(ActionKind::PostLedgerEntry);
    let report = engine.evaluate_action(&store, &action);
    assert_eq!(report.decision, PolicyEvaluationDecision::Escalate);
}

#[test]
fn claim_scope_matches_related_claim() {
    let claim_id = fresh("claim");
    let store = store_with_policy(policy(
        PolicyKind::HumanApproval,
        PolicyScope::Claim(claim_id.clone()),
    ));
    let engine = PolicyEngine::new();
    let mut action = action(ActionKind::PostLedgerEntry);
    action.related_claims.push(claim_id);
    let report = engine.evaluate_action(&store, &action);
    assert_eq!(report.decision, PolicyEvaluationDecision::RequireApproval);
}

#[test]
fn unrelated_claim_scope_does_not_match() {
    let store = store_with_policy(policy(
        PolicyKind::Block,
        PolicyScope::Claim(fresh("claim")),
    ));
    let engine = PolicyEngine::new();
    let action = action(ActionKind::PostLedgerEntry);
    let report = engine.evaluate_action(&store, &action);
    assert_eq!(report.decision, PolicyEvaluationDecision::Allow);
}

#[test]
fn policy_engine_unused_import_guard() {
    let _ = accountant();
    let _ = Value::Bool(true);
}
