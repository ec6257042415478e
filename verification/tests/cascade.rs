use hydra_engine::action::{Action, ActionKind, ActionStatus, ActionTarget, OutcomeKind};
use hydra_engine::action_store::ActionStore;
use hydra_engine::cascade::{CascadeConfig, CascadeEngine};
use hydra_engine::epistemic::{Claim, ClaimKind, ClaimObject, ClaimStatus, ClaimSubject, Evidence, EvidencePayload, EvidenceSource};
use hydra_engine::epistemic_store::EpistemicStore;
use hydra_engine::event::{Event, EventKind, Stamp};
use hydra_engine::ids::{ActorId, EventId, EvidenceId, Id, NodeId, SubscriptionId, TenantId};
use hydra_engine::number::Number;
use hydra_engine::outcome_agent::OutcomeAgent;
use hydra_engine::policy::{Policy, PolicyDecisionKind, PolicyKind, PolicyScope, PolicyStatus};
use hydra_engine::policy_agent::PolicyAgent;
use hydra_engine::policy_engine::PolicyEngine;
use hydra_engine::policy_store::PolicyStore;
use hydra_engine::projection::Projection;
use hydra_engine::registry::{EventFilter, Subscription, SubscriptionRegistry};
use hydra_engine::time::Timestamp;
use hydra_engine::value::{Properties, Value};
use std::collections::hash_map::RandomState;
use std::hash::{BuildHasher, Hasher};

fn fresh(prefix: &str) -> Id {
    Id::from_str(&format!("{}_{:016x}", prefix, RandomState::new().build_hasher().finish()))
}

fn stamp() -> Stamp {
    Stamp { id: fresh("evt"), timestamp: Timestamp::at(1_780_000_000) }
}

fn trigger(kind: EventKind) -> Event {
    Event::trigger(kind, stamp(), fresh("casc"))
}

fn float(x: f64) -> Value {
    Value::Float(Number::from_bits(x.to_bits()))
}

fn number(x: f64) -> Number {
    Number::from_bits(x.to_bits())
}

trait SubscriptionHandler {
    fn handle(&self, event: &Event, graph: &Projection) -> Vec<EventKind>;
}

/// The registered subscriptions, each with its handler.
struct Handlers {
    registry: SubscriptionRegistry,
    handlers: Vec<(SubscriptionId, Box<dyn SubscriptionHandler>)>,
}

impl Handlers {
    fn new() -> Self {
        Handlers { registry: SubscriptionRegistry::new(), handlers: Vec::new() }
    }

    fn register(&mut self, name: &str, filter: EventFilter, priority: i32, handler: Box<dyn SubscriptionHandler>) {
        let id = fresh("sub");
        self.registry.register(Subscription::new(id.clone(), name, filter, priority));
        self.handlers.push((id, handler));
    }

    fn handle(&self, subscription: &Subscription, event: &Event, graph: &Projection) -> Vec<EventKind> {
        let (_, handler) = self.handlers.iter().find(|(id, _)| *id == subscription.id).unwrap();
        handler.handle(event, graph)
    }
}

/// Agents that verify claims and remedy what is verified.
fn agents(event: &Event, _graph: &Projection, store: &EpistemicStore) -> Vec<EventKind> {
    match &event.kind {
        EventKind::ClaimProposed { claim } => {
            for evidence_id in &claim.evidence_for {
                if store.evidence(evidence_id).is_none() {
                    return vec![EventKind::Signal {
                        name: "claim_missing_evidence".to_string(),
                        source: NodeId::from_str("verification"),
                        payload: Properties::from_pairs(vec![
                            ("claim_id".to_string(), Value::String(claim.id.as_str().to_string())),
                            ("evidence_id".to_string(), Value::String(evidence_id.as_str().to_string())),
                        ]),
                    }];
                }
            }
            if number(0.9).le(claim.confidence) {
                vec![EventKind::ClaimVerified { claim_id: claim.id.clone(), verified_by: verifier_actor() }]
            } else {
                vec![EventKind::ClaimSupported {
                    claim_id: claim.id.clone(),
                    evidence_id: claim.evidence_for[0].clone(),
                }]
            }
        }
        EventKind::ClaimVerified { claim_id, .. } => vec![EventKind::ActionProposed {
            action: Action {
                id: fresh("action"),
                tenant_id: Some(tenant()),
                kind: ActionKind::Backfill,
                status: ActionStatus::Proposed,
                targets: vec![],
                related_claims: vec![claim_id.clone()],
                supporting_evidence: vec![],
                proposed_by: ActorId::from_str("actor_hydra_prometheus"),
                approved_by: None,
                rejected_by: None,
                policy_id: None,
                payload: Properties::new(),
                created_at: event.timestamp,
                updated_at: event.timestamp,
                approved_at: None,
                rejected_at: None,
                executed_at: None,
                caused_by: None,
            },
        }],
        _ => vec![],
    }
}

fn no_handler(_: &Subscription, _: &Event, _: &Projection) -> Vec<EventKind> {
    vec![]
}

fn no_reflexes(_: &Event, _: &Projection, _: &EpistemicStore, _: &ActionStore) -> Vec<EventKind> {
    vec![]
}

fn tenant() -> TenantId {
    TenantId::from_str("tenant_epistemic_cascade_test")
}

fn verifier_actor() -> ActorId {
    ActorId::from_str("actor_verifier")
}

fn evidence_with_reliability(reliability: f64) -> Evidence {
    let mut data = Properties::new();
    data.set(
        "dataset".to_string(),
        Value::String("analytics.public.revenue_daily".to_string()),
    );
    data.set("freshness_lag_hours".to_string(), float(7.0));
    Evidence {
        id: fresh("evidence"),
        tenant_id: Some(tenant()),
        source: EvidenceSource::Warehouse {
            system: "snowflake".to_string(),
            database: Some("analytics".to_string()),
            schema: Some("public".to_string()),
            table: Some("revenue_daily".to_string()),
        },
        payload: EvidencePayload {
            kind: "freshness_check".to_string(),
            data,
        },
        reliability: number(reliability),
        observed_at: Timestamp::at(1_780_000_000),
        recorded_at: Timestamp::at(1_780_000_000),
        caused_by: None,
    }
}

fn claim_with_evidence(evidence_id: EvidenceId, confidence: f64) -> Claim {
    let now = Timestamp::at(1_780_000_000);
    Claim {
        id: fresh("claim"),
        tenant_id: Some(tenant()),
        kind: ClaimKind::AnomalyFinding,
        subject: ClaimSubject::Dataset("analytics.public.revenue_daily".to_string()),
        predicate: "is_stale".to_string(),
        object: ClaimObject::Value(Value::Bool(true)),
        confidence: number(confidence),
        status: ClaimStatus::Proposed,
        evidence_for: vec![evidence_id],
        evidence_against: vec![],
        valid_from: now,
        valid_until: None,
        created_by: verifier_actor(),
        created_at: now,
        updated_at: now,
        caused_by: None,
    }
}

#[test]
fn epistemic_cascade_verifies_claim_proposed() {
    let engine = CascadeEngine::with_defaults();
    let mut projection = Projection::new();
    let mut epistemic_store = EpistemicStore::new();
    let mut action_store = ActionStore::new();
    let outcome_agent = OutcomeAgent::new(ActorId::from_str("actor_hydra_sentinel"));
    let mut policy_store = PolicyStore::new();
    let policy_engine = PolicyEngine::new();
    let policy_agent = PolicyAgent::new(
        ActorId::from_str("actor_hydra_policy"),
        ActorId::from_str("actor_hydra_approver"),
    );

    let evidence = evidence_with_reliability(0.95);
    let claim = claim_with_evidence(evidence.id.clone(), 0.91);
    let claim_id = claim.id.clone();

    epistemic_store
        .apply_event(&trigger(EventKind::EvidenceAdded { evidence }))
        .unwrap();

    let result = engine
        .trigger_with_epistemics(
            EventKind::ClaimProposed { claim },
            stamp(),
            fresh("casc"),
            &mut projection,
            &SubscriptionRegistry::new(),
            &mut epistemic_store,
            &mut action_store,
            &mut policy_store,
            &policy_engine,
            &policy_agent,
            &outcome_agent,
            no_handler,
            agents,
            no_reflexes,
            stamp,
        )
        .unwrap();

    // ClaimProposed → ClaimVerified (verification agent) → ActionProposed
    // (remediation agent) → PolicyDecisionRecorded + ActionApproved
    // (policy agent, Allow because no matching policy).
    assert_eq!(result.events.len(), 5);
    assert_eq!(result.mutations, 0);
    assert_eq!(result.max_depth_reached, 3);

    assert!(matches!(
        result.events[0].kind,
        EventKind::ClaimProposed { .. }
    ));
    match &result.events[1].kind {
        EventKind::ClaimVerified {
            claim_id: verified_claim_id,
            verified_by,
        } => {
            assert_eq!(verified_claim_id, &claim_id);
            assert_eq!(verified_by, &verifier_actor());
        }
        other => panic!("expected ClaimVerified, got {other:?}"),
    }
    match &result.events[2].kind {
        EventKind::ActionProposed { action } => {
            assert_eq!(action.kind, ActionKind::Backfill);
            assert_eq!(action.related_claims, vec![claim_id.clone()]);
        }
        other => panic!("expected ActionProposed, got {other:?}"),
    }
    assert!(matches!(
        result.events[3].kind,
        EventKind::PolicyDecisionRecorded { .. }
    ));
    assert!(matches!(
        result.events[4].kind,
        EventKind::ActionApproved { .. }
    ));

    let stored = epistemic_store.claim(&claim_id).unwrap();
    assert_eq!(stored.status, ClaimStatus::Verified);
    assert_eq!(result.events[1].caused_by, vec![result.events[0].id.clone()]);
    assert_eq!(result.events[2].caused_by, vec![result.events[1].id.clone()]);
    // PolicyDecisionRecorded and ActionApproved are both reactions to event[2] (ActionProposed)
    assert_eq!(result.events[3].caused_by, vec![result.events[2].id.clone()]);
    assert_eq!(result.events[4].caused_by, vec![result.events[2].id.clone()]);
    assert_eq!(result.events[0].cascade_id, result.events[1].cascade_id);
    assert_eq!(result.events[1].cascade_id, result.events[2].cascade_id);
    assert_eq!(result.events[2].cascade_id, result.events[3].cascade_id);
}

#[test]
fn epistemic_cascade_supports_low_confidence_claim() {
    let engine = CascadeEngine::with_defaults();
    let mut projection = Projection::new();
    let mut epistemic_store = EpistemicStore::new();
    let mut action_store = ActionStore::new();
    let outcome_agent = OutcomeAgent::new(ActorId::from_str("actor_hydra_sentinel"));
    let mut policy_store = PolicyStore::new();
    let policy_engine = PolicyEngine::new();
    let policy_agent = PolicyAgent::new(
        ActorId::from_str("actor_hydra_policy"),
        ActorId::from_str("actor_hydra_approver"),
    );

    let evidence = evidence_with_reliability(0.95);
    let evidence_id = evidence.id.clone();
    let claim = claim_with_evidence(evidence_id.clone(), 0.60);
    let claim_id = claim.id.clone();

    epistemic_store
        .apply_event(&trigger(EventKind::EvidenceAdded { evidence }))
        .unwrap();

    let result = engine
        .trigger_with_epistemics(
            EventKind::ClaimProposed { claim },
            stamp(),
            fresh("casc"),
            &mut projection,
            &SubscriptionRegistry::new(),
            &mut epistemic_store,
            &mut action_store,
            &mut policy_store,
            &policy_engine,
            &policy_agent,
            &outcome_agent,
            no_handler,
            agents,
            no_reflexes,
            stamp,
        )
        .unwrap();

    assert_eq!(result.events.len(), 2);
    match &result.events[1].kind {
        EventKind::ClaimSupported {
            claim_id: supported_claim_id,
            evidence_id: supported_evidence_id,
        } => {
            assert_eq!(supported_claim_id, &claim_id);
            assert_eq!(supported_evidence_id, &evidence_id);
        }
        other => panic!("expected ClaimSupported, got {other:?}"),
    }

    let stored = epistemic_store.claim(&claim_id).unwrap();
    assert_eq!(stored.status, ClaimStatus::Supported);
    assert!(stored.evidence_for.contains(&evidence_id));
}

#[test]
fn epistemic_cascade_emits_missing_evidence_signal() {
    let engine = CascadeEngine::with_defaults();
    let mut projection = Projection::new();
    let mut epistemic_store = EpistemicStore::new();
    let mut action_store = ActionStore::new();
    let outcome_agent = OutcomeAgent::new(ActorId::from_str("actor_hydra_sentinel"));
    let mut policy_store = PolicyStore::new();
    let policy_engine = PolicyEngine::new();
    let policy_agent = PolicyAgent::new(
        ActorId::from_str("actor_hydra_policy"),
        ActorId::from_str("actor_hydra_approver"),
    );

    let missing_evidence_id = fresh("evidence");
    let claim = claim_with_evidence(missing_evidence_id.clone(), 0.91);
    let claim_id = claim.id.clone();

    let result = engine
        .trigger_with_epistemics(
            EventKind::ClaimProposed { claim },
            stamp(),
            fresh("casc"),
            &mut projection,
            &SubscriptionRegistry::new(),
            &mut epistemic_store,
            &mut action_store,
            &mut policy_store,
            &policy_engine,
            &policy_agent,
            &outcome_agent,
            no_handler,
            agents,
            no_reflexes,
            stamp,
        )
        .unwrap();

    assert_eq!(result.events.len(), 2);
    match &result.events[1].kind {
        EventKind::Signal { name, payload, .. } => {
            assert_eq!(name, "claim_missing_evidence");
            assert_eq!(
                payload.get("claim_id"),
                Some(&Value::String(claim_id.as_str().to_string()))
            );
            assert_eq!(
                payload.get("evidence_id"),
                Some(&Value::String(missing_evidence_id.as_str().to_string()))
            );
        }
        other => panic!("expected claim_missing_evidence Signal, got {other:?}"),
    }

    let stored = epistemic_store.claim(&claim_id).unwrap();
    assert_eq!(stored.status, ClaimStatus::Proposed);
}

#[test]
fn epistemic_cascade_observes_unknown_outcome_for_executed_backfill() {
    let engine = CascadeEngine::with_defaults();
    let mut projection = Projection::new();
    let mut epistemic_store = EpistemicStore::new();
    let mut action_store = ActionStore::new();
    let outcome_agent = OutcomeAgent::new(ActorId::from_str("actor_hydra_sentinel"));
    let mut policy_store = PolicyStore::new();
    let policy_engine = PolicyEngine::new();
    let policy_agent = PolicyAgent::new(
        ActorId::from_str("actor_hydra_policy"),
        ActorId::from_str("actor_hydra_approver"),
    );

    let now = Timestamp::at(1_780_000_000);
    let action = Action {
        id: fresh("action"),
        tenant_id: Some(tenant()),
        kind: ActionKind::Backfill,
        status: ActionStatus::Proposed,
        targets: vec![ActionTarget::Dataset(
            "analytics.public.revenue_daily".to_string(),
        )],
        related_claims: vec![],
        supporting_evidence: vec![],
        proposed_by: ActorId::from_str("actor_hydra_prometheus"),
        approved_by: None,
        rejected_by: None,
        policy_id: None,
        payload: Properties::new(),
        created_at: now,
        updated_at: now,
        approved_at: None,
        rejected_at: None,
        executed_at: None,
        caused_by: None,
    };
    let action_id = action.id.clone();
    action_store
        .apply_event(&trigger(EventKind::ActionProposed { action }))
        .unwrap();

    let result = engine
        .trigger_with_epistemics(
            EventKind::ActionExecuted {
                action_id: action_id.clone(),
            },
            stamp(),
            fresh("casc"),
            &mut projection,
            &SubscriptionRegistry::new(),
            &mut epistemic_store,
            &mut action_store,
            &mut policy_store,
            &policy_engine,
            &policy_agent,
            &outcome_agent,
            no_handler,
            agents,
            no_reflexes,
            stamp,
        )
        .unwrap();

    assert_eq!(result.events.len(), 2);
    assert!(matches!(
        result.events[0].kind,
        EventKind::ActionExecuted { .. }
    ));
    match &result.events[1].kind {
        EventKind::OutcomeObserved { outcome } => {
            assert_eq!(outcome.action_id, action_id);
            assert_eq!(outcome.kind, OutcomeKind::Unknown);
        }
        other => panic!("expected OutcomeObserved, got {other:?}"),
    }
    assert_eq!(action_store.outcomes_for_action(&action_id).len(), 1);
}

#[test]
fn policy_cascade_auto_approves_action_when_no_policy_matches() {
    let engine = CascadeEngine::with_defaults();
    let mut projection = Projection::new();
    let mut epistemic_store = EpistemicStore::new();
    let mut action_store = ActionStore::new();
    let outcome_agent = OutcomeAgent::new(ActorId::from_str("actor_hydra_sentinel"));
    let mut policy_store = PolicyStore::new();
    let policy_engine = PolicyEngine::new();
    let policy_agent = PolicyAgent::new(
        ActorId::from_str("actor_hydra_policy"),
        ActorId::from_str("actor_hydra_approver"),
    );

    let now = Timestamp::at(1_780_000_000);
    let action = Action {
        id: fresh("action"),
        tenant_id: Some(tenant()),
        kind: ActionKind::Backfill,
        status: ActionStatus::Proposed,
        targets: vec![ActionTarget::Dataset(
            "analytics.public.revenue_daily".to_string(),
        )],
        related_claims: vec![],
        supporting_evidence: vec![],
        proposed_by: ActorId::from_str("actor_prometheus"),
        approved_by: None,
        rejected_by: None,
        policy_id: None,
        payload: Properties::new(),
        created_at: now,
        updated_at: now,
        approved_at: None,
        rejected_at: None,
        executed_at: None,
        caused_by: None,
    };
    let action_id = action.id.clone();

    let result = engine
        .trigger_with_epistemics(
            EventKind::ActionProposed { action },
            stamp(),
            fresh("casc"),
            &mut projection,
            &SubscriptionRegistry::new(),
            &mut epistemic_store,
            &mut action_store,
            &mut policy_store,
            &policy_engine,
            &policy_agent,
            &outcome_agent,
            no_handler,
            agents,
            no_reflexes,
            stamp,
        )
        .unwrap();

    assert_eq!(result.events.len(), 3);
    assert!(matches!(result.events[0].kind, EventKind::ActionProposed { .. }));
    match &result.events[1].kind {
        EventKind::PolicyDecisionRecorded { decision } => {
            assert_eq!(decision.action_id, action_id);
            assert_eq!(decision.kind, PolicyDecisionKind::Allow);
        }
        other => panic!("expected PolicyDecisionRecorded, got {other:?}"),
    }
    match &result.events[2].kind {
        EventKind::ActionApproved {
            action_id: approved_action_id,
            ..
        } => {
            assert_eq!(approved_action_id, &action_id);
        }
        other => panic!("expected ActionApproved, got {other:?}"),
    }
    assert_eq!(
        action_store.action(&action_id).unwrap().status,
        ActionStatus::Approved
    );
    assert_eq!(policy_store.decisions_for_action(&action_id).len(), 1);
}

#[test]
fn policy_cascade_requests_approval_for_matching_human_policy() {
    let engine = CascadeEngine::with_defaults();
    let mut projection = Projection::new();
    let mut epistemic_store = EpistemicStore::new();
    let mut action_store = ActionStore::new();
    let outcome_agent = OutcomeAgent::new(ActorId::from_str("actor_hydra_sentinel"));
    let mut policy_store = PolicyStore::new();
    let policy_engine = PolicyEngine::new();
    let approver = ActorId::from_str("actor_accountant");
    let policy_agent = PolicyAgent::new(
        ActorId::from_str("actor_hydra_policy"),
        approver.clone(),
    );

    let now = Timestamp::at(1_780_000_000);
    let policy = Policy {
        id: fresh("policy"),
        tenant_id: Some(tenant()),
        name: "Payroll approval required".to_string(),
        kind: PolicyKind::HumanApproval,
        status: PolicyStatus::Active,
        scope: PolicyScope::ActionKind("RunPayroll".to_string()),
        condition: Properties::new(),
        metadata: Properties::new(),
        created_by: ActorId::from_str("actor_policy_admin"),
        created_at: now,
        updated_at: now,
        caused_by: None,
    };
    policy_store
        .apply_event(&trigger(EventKind::PolicyRegistered { policy }))
        .unwrap();

    let action = Action {
        id: fresh("action"),
        tenant_id: Some(tenant()),
        kind: ActionKind::RunPayroll,
        status: ActionStatus::Proposed,
        targets: vec![ActionTarget::System("payroll".to_string())],
        related_claims: vec![],
        supporting_evidence: vec![],
        proposed_by: ActorId::from_str("actor_payroll_agent"),
        approved_by: None,
        rejected_by: None,
        policy_id: None,
        payload: Properties::new(),
        created_at: now,
        updated_at: now,
        approved_at: None,
        rejected_at: None,
        executed_at: None,
        caused_by: None,
    };
    let action_id = action.id.clone();

    let result = engine
        .trigger_with_epistemics(
            EventKind::ActionProposed { action },
            stamp(),
            fresh("casc"),
            &mut projection,
            &SubscriptionRegistry::new(),
            &mut epistemic_store,
            &mut action_store,
            &mut policy_store,
            &policy_engine,
            &policy_agent,
            &outcome_agent,
            no_handler,
            agents,
            no_reflexes,
            stamp,
        )
        .unwrap();

    assert_eq!(result.events.len(), 3);
    assert!(matches!(result.events[0].kind, EventKind::ActionProposed { .. }));
    assert!(matches!(
        result.events[1].kind,
        EventKind::PolicyDecisionRecorded { .. }
    ));
    match &result.events[2].kind {
        EventKind::ApprovalRequested { request } => {
            assert_eq!(request.action_id, action_id);
            assert_eq!(request.requested_from, vec![approver]);
        }
        other => panic!("expected ApprovalRequested, got {other:?}"),
    }
    assert_eq!(
        action_store.action(&action_id).unwrap().status,
        ActionStatus::Proposed
    );
    assert_eq!(policy_store.decisions_for_action(&action_id).len(), 1);
    assert_eq!(policy_store.approvals_for_action(&action_id).len(), 1);
}

/// A handler that classifies new nodes by emitting a NodeUpdated event
struct ClassifyHandler;
impl SubscriptionHandler for ClassifyHandler {
    fn handle(
        &self,
        event: &Event,
        _graph: &Projection,
    ) -> Vec<EventKind> {
        if let EventKind::NodeCreated { node_id, .. } = &event.kind {
            vec![EventKind::NodeUpdated {
                node_id: node_id.clone(),
                changes: Properties::from_pairs(vec![(
                    "classified".to_string(),
                    Value::Bool(true),
                )]),
            }]
        } else {
            vec![]
        }
    }
}

/// A handler that emits a signal when a node is classified
struct AlertOnClassifyHandler;
impl SubscriptionHandler for AlertOnClassifyHandler {
    fn handle(
        &self,
        event: &Event,
        graph: &Projection,
    ) -> Vec<EventKind> {
        if let EventKind::NodeUpdated { node_id, changes } = &event.kind {
            if changes.get("classified").is_some() {
                if let Some(node) = graph.node(node_id) {
                    return vec![EventKind::Signal {
                        name: "classified_alert".to_string(),
                        source: node_id.clone(),
                        payload: Properties::from_pairs(vec![(
                            "type".to_string(),
                            Value::String(node.type_id().to_string()),
                        )]),
                    }];
                }
            }
        }
        vec![]
    }
}

/// A handler that would cause infinite recursion if depth limit didn't exist
struct InfiniteHandler;
impl SubscriptionHandler for InfiniteHandler {
    fn handle(
        &self,
        event: &Event,
        _graph: &Projection,
    ) -> Vec<EventKind> {
        if let EventKind::Signal { source, .. } = &event.kind {
            vec![EventKind::Signal {
                name: "loop".to_string(),
                source: source.clone(),
                payload: Properties::new(),
            }]
        } else {
            vec![]
        }
    }
}

#[test]
fn simple_trigger_no_subscriptions() {
    let engine = CascadeEngine::with_defaults();
    let mut proj = Projection::new();
    let reg = Handlers::new();

    let result = engine
        .trigger(
            EventKind::NodeCreated {
                node_id: fresh("node"),
                type_id: "ec2".to_string(),
                properties: Properties::new(),
            },
            stamp(),
            fresh("casc"),
            &mut proj,
            &reg.registry,
            |s: &Subscription, e: &Event, g: &Projection| reg.handle(s, e, g),
            stamp,
        )
        .unwrap();

    assert_eq!(result.events.len(), 1);
    assert_eq!(result.mutations, 1);
    assert_eq!(result.max_depth_reached, 0);
    assert!(!result.truncated);
    assert_eq!(proj.node_count(), 1);
}

#[test]
fn cascade_classify_on_create() {
    let engine = CascadeEngine::with_defaults();
    let mut proj = Projection::new();
    let mut reg = Handlers::new();

    reg.register(
        "classify",
        EventFilter::NodeCreated,
        100,
        Box::new(ClassifyHandler),
    );

    let node_id = fresh("node");
    let result = engine
        .trigger(
            EventKind::NodeCreated {
                node_id: node_id.clone(),
                type_id: "ec2".to_string(),
                properties: Properties::new(),
            },
            stamp(),
            fresh("casc"),
            &mut proj,
            &reg.registry,
            |s: &Subscription, e: &Event, g: &Projection| reg.handle(s, e, g),
            stamp,
        )
        .unwrap();

    // Trigger (NodeCreated) + Reaction (NodeUpdated)
    assert_eq!(result.events.len(), 2);
    assert_eq!(result.mutations, 2);
    assert_eq!(result.max_depth_reached, 1);

    // Verify the node was classified
    let node = proj.node(&node_id).unwrap();
    assert_eq!(node.get_bool("classified"), Some(true));
    assert_eq!(node.version, 2); // created + updated
}

#[test]
fn multi_level_cascade() {
    let engine = CascadeEngine::with_defaults();
    let mut proj = Projection::new();
    let mut reg = Handlers::new();

    // Level 1: NodeCreated → classify (NodeUpdated)
    reg.register(
        "classify",
        EventFilter::NodeCreated,
        100,
        Box::new(ClassifyHandler),
    );
    // Level 2: NodeUpdated(classified) → alert (Signal)
    reg.register(
        "alert_on_classify",
        EventFilter::NodeUpdated,
        90,
        Box::new(AlertOnClassifyHandler),
    );

    let node_id = fresh("node");
    let result = engine
        .trigger(
            EventKind::NodeCreated {
                node_id: node_id.clone(),
                type_id: "ec2".to_string(),
                properties: Properties::new(),
            },
            stamp(),
            fresh("casc"),
            &mut proj,
            &reg.registry,
            |s: &Subscription, e: &Event, g: &Projection| reg.handle(s, e, g),
            stamp,
        )
        .unwrap();

    // Trigger (NodeCreated) → classify (NodeUpdated) → alert (Signal)
    assert_eq!(result.events.len(), 3);
    assert_eq!(result.max_depth_reached, 2);

    // Verify causal chain
    assert!(result.events[0].is_trigger());
    assert_eq!(result.events[1].caused_by, vec![result.events[0].id.clone()]);
    assert_eq!(result.events[2].caused_by, vec![result.events[1].id.clone()]);

    // All share the same cascade_id
    assert_eq!(result.events[0].cascade_id, result.events[1].cascade_id);
    assert_eq!(result.events[1].cascade_id, result.events[2].cascade_id);
}

#[test]
fn depth_limit_stops_infinite_cascade() {
    let engine = CascadeEngine::new(CascadeConfig {
        max_depth: 5,
        max_events: 1000,
    });
    let mut proj = Projection::new();
    let mut reg = Handlers::new();

    // This handler re-emits a signal on every signal → infinite loop
    reg.register(
        "infinite",
        EventFilter::SignalName("loop".to_string()),
        100,
        Box::new(InfiniteHandler),
    );

    let node_id = fresh("node");
    // First create the node so signals have a valid source
    proj.apply(&trigger(EventKind::NodeCreated {
        node_id: node_id.clone(),
        type_id: "test".to_string(),
        properties: Properties::new(),
    }))
    .unwrap();

    let result = engine
        .trigger(
            EventKind::Signal {
                name: "loop".to_string(),
                source: node_id,
                payload: Properties::new(),
            },
            stamp(),
            fresh("casc"),
            &mut proj,
            &reg.registry,
            |s: &Subscription, e: &Event, g: &Projection| reg.handle(s, e, g),
            stamp,
        )
        .unwrap();

    assert!(result.truncated);
    assert!(result.events.len() <= 7); // 0..5 depth + some extra
}

#[test]
fn the_event_limit_alone_ends_an_endless_cascade() {
    let engine = CascadeEngine::new(CascadeConfig { max_depth: u32::MAX, max_events: 4 });
    let mut proj = Projection::new();
    let mut reg = Handlers::new();
    reg.register("infinite", EventFilter::SignalName("loop".to_string()), 100, Box::new(InfiniteHandler));
    let result = engine
        .trigger(
            EventKind::Signal { name: "loop".to_string(), source: fresh("node"), payload: Properties::new() },
            stamp(),
            fresh("casc"),
            &mut proj,
            &reg.registry,
            |s: &Subscription, e: &Event, g: &Projection| reg.handle(s, e, g),
            stamp,
        )
        .unwrap();
    assert!(result.truncated);
    assert_eq!(result.events.len(), 4);
    assert_eq!(result.max_depth_reached, 3);
}

#[test]
fn event_limit_stops_wide_cascade() {
    let engine = CascadeEngine::new(CascadeConfig {
        max_depth: 100,
        max_events: 5,
    });
    let mut proj = Projection::new();
    let mut reg = Handlers::new();

    /// Handler that emits 3 signals per signal (exponential growth)
    struct FanOutHandler;
    impl SubscriptionHandler for FanOutHandler {
        fn handle(
            &self,
            event: &Event,
            _graph: &Projection,
        ) -> Vec<EventKind> {
            if let EventKind::Signal { source, .. } = &event.kind {
                (0..3)
                    .map(|i| EventKind::Signal {
                        name: format!("fan_{}", i),
                        source: source.clone(),
                        payload: Properties::new(),
                    })
                    .collect()
            } else {
                vec![]
            }
        }
    }

    reg.register(
        "fanout",
        EventFilter::EventKindName("signal".to_string()),
        100,
        Box::new(FanOutHandler),
    );

    let result = engine
        .trigger(
            EventKind::Signal {
                name: "start".to_string(),
                source: fresh("node"),
                payload: Properties::new(),
            },
            stamp(),
            fresh("casc"),
            &mut proj,
            &reg.registry,
            |s: &Subscription, e: &Event, g: &Projection| reg.handle(s, e, g),
            stamp,
        )
        .unwrap();

    assert!(result.truncated);
    assert!(result.events.len() <= 5);
}

#[test]
fn causal_links_form_proper_dag() {
    let engine = CascadeEngine::with_defaults();
    let mut proj = Projection::new();
    let mut reg = Handlers::new();

    reg.register(
        "classify",
        EventFilter::NodeCreated,
        100,
        Box::new(ClassifyHandler),
    );

    let result = engine
        .trigger(
            EventKind::NodeCreated {
                node_id: fresh("node"),
                type_id: "ec2".to_string(),
                properties: Properties::new(),
            },
            stamp(),
            fresh("casc"),
            &mut proj,
            &reg.registry,
            |s: &Subscription, e: &Event, g: &Projection| reg.handle(s, e, g),
            stamp,
        )
        .unwrap();

    // Build a set of all event IDs
    let all_ids: std::collections::HashSet<EventId> =
        result.events.iter().map(|e| e.id.clone()).collect();

    // Every caused_by reference must point to an event in this cascade
    for event in &result.events {
        for parent_id in &event.caused_by {
            assert!(
                all_ids.contains(parent_id),
                "Event {} references non-existent parent {}",
                event.id.as_str(),
                parent_id.as_str()
            );
        }
    }
}

#[test]
fn subscription_priority_determines_order() {
    let engine = CascadeEngine::with_defaults();
    let mut proj = Projection::new();
    let mut reg = Handlers::new();

    /// Records a marker property to prove execution order
    struct MarkerHandler {
        key: String,
    }
    impl SubscriptionHandler for MarkerHandler {
        fn handle(
            &self,
            event: &Event,
            _graph: &Projection,
        ) -> Vec<EventKind> {
            if let EventKind::NodeCreated { node_id, .. } = &event.kind {
                vec![EventKind::NodeUpdated {
                    node_id: node_id.clone(),
                    changes: Properties::from_pairs(vec![(
                        self.key.clone(),
                        Value::Bool(true),
                    )]),
                }]
            } else {
                vec![]
            }
        }
    }

    // Higher priority fires first
    reg.register(
        "low",
        EventFilter::NodeCreated,
        10,
        Box::new(MarkerHandler {
            key: "low".to_string(),
        }),
    );
    reg.register(
        "high",
        EventFilter::NodeCreated,
        100,
        Box::new(MarkerHandler {
            key: "high".to_string(),
        }),
    );

    let node_id = fresh("node");
    let result = engine
        .trigger(
            EventKind::NodeCreated {
                node_id: node_id.clone(),
                type_id: "ec2".to_string(),
                properties: Properties::new(),
            },
            stamp(),
            fresh("casc"),
            &mut proj,
            &reg.registry,
            |s: &Subscription, e: &Event, g: &Projection| reg.handle(s, e, g),
            stamp,
        )
        .unwrap();

    // 1 trigger + 2 reactions
    assert_eq!(result.events.len(), 3);

    // High priority should be the first reaction
    assert!(matches!(
        &result.events[1].kind,
        EventKind::NodeUpdated { changes, .. } if changes.get("high").is_some()
    ));
    assert!(matches!(
        &result.events[2].kind,
        EventKind::NodeUpdated { changes, .. } if changes.get("low").is_some()
    ));
}

#[test]
fn handler_targeting_nonexistent_node_errors() {
    let engine = CascadeEngine::with_defaults();
    let mut proj = Projection::new();
    let mut reg = Handlers::new();

    struct BadTargetHandler;
    impl SubscriptionHandler for BadTargetHandler {
        fn handle(
            &self,
            _event: &Event,
            _graph: &Projection,
        ) -> Vec<EventKind> {
            // Returns a NodeUpdated for a node that doesn't exist
            vec![EventKind::NodeUpdated {
                node_id: NodeId::from_str("node_GHOST"),
                changes: Properties::from_pairs(vec![("x".to_string(), Value::Int(1))]),
            }]
        }
    }

    reg.register(
        "bad_target",
        EventFilter::NodeCreated,
        100,
        Box::new(BadTargetHandler),
    );

    // This should return an error because the reaction targets a non-existent node
    let result = engine.trigger(
        EventKind::NodeCreated {
            node_id: fresh("node"),
            type_id: "ec2".to_string(),
            properties: Properties::new(),
        },
        stamp(),
        fresh("casc"),
        &mut proj,
        &reg.registry,
        |s: &Subscription, e: &Event, g: &Projection| reg.handle(s, e, g),
        stamp,
    );
    assert!(result.is_err());
}

#[test]
fn breadth_index_assigned_to_sibling_reactions() {
    let engine = CascadeEngine::with_defaults();
    let mut proj = Projection::new();
    let mut reg = Handlers::new();

    // Two handlers that both react to NodeCreated — they produce sibling reactions
    struct TagHandler { key: String }
    impl SubscriptionHandler for TagHandler {
        fn handle(
            &self,
            event: &Event,
            _graph: &Projection,
        ) -> Vec<EventKind> {
            if let EventKind::NodeCreated { node_id, .. } = &event.kind {
                vec![EventKind::NodeUpdated {
                    node_id: node_id.clone(),
                    changes: Properties::from_pairs(vec![(self.key.clone(), Value::Bool(true))]),
                }]
            } else {
                vec![]
            }
        }
    }

    reg.register(
        "first",
        EventFilter::NodeCreated,
        100,
        Box::new(TagHandler { key: "a".into() }),
    );
    reg.register(
        "second",
        EventFilter::NodeCreated,
        50,
        Box::new(TagHandler { key: "b".into() }),
    );

    let result = engine
        .trigger(
            EventKind::NodeCreated {
                node_id: fresh("node"),
                type_id: "ec2".to_string(),
                properties: Properties::new(),
            },
            stamp(),
            fresh("casc"),
            &mut proj,
            &reg.registry,
            |s: &Subscription, e: &Event, g: &Projection| reg.handle(s, e, g),
            stamp,
        )
        .unwrap();

    // Trigger at depth=0, breadth=0
    assert_eq!(result.events[0].cascade_depth, 0);
    assert_eq!(result.events[0].cascade_breadth_index, 0);

    // Two reactions at depth=1, breadth=0 and breadth=1
    assert_eq!(result.events[1].cascade_depth, 1);
    assert_eq!(result.events[1].cascade_breadth_index, 0);

    assert_eq!(result.events[2].cascade_depth, 1);
    assert_eq!(result.events[2].cascade_breadth_index, 1);
}

#[test]
fn breadth_index_resets_per_parent() {
    let engine = CascadeEngine::with_defaults();
    let mut proj = Projection::new();
    let mut reg = Handlers::new();

    // Handler that produces TWO reactions per event
    struct DoubleHandler;
    impl SubscriptionHandler for DoubleHandler {
        fn handle(
            &self,
            event: &Event,
            _graph: &Projection,
        ) -> Vec<EventKind> {
            if let EventKind::NodeCreated { node_id, .. } = &event.kind {
                vec![
                    EventKind::NodeUpdated {
                        node_id: node_id.clone(),
                        changes: Properties::from_pairs(vec![("tag_a".into(), Value::Bool(true))]),
                    },
                    EventKind::NodeUpdated {
                        node_id: node_id.clone(),
                        changes: Properties::from_pairs(vec![("tag_b".into(), Value::Bool(true))]),
                    },
                ]
            } else {
                vec![]
            }
        }
    }

    reg.register(
        "doubler",
        EventFilter::NodeCreated,
        100,
        Box::new(DoubleHandler),
    );

    let result = engine
        .trigger(
            EventKind::NodeCreated {
                node_id: fresh("node"),
                type_id: "ec2".to_string(),
                properties: Properties::new(),
            },
            stamp(),
            fresh("casc"),
            &mut proj,
            &reg.registry,
            |s: &Subscription, e: &Event, g: &Projection| reg.handle(s, e, g),
            stamp,
        )
        .unwrap();

    // Trigger (depth=0, breadth=0) + 2 reactions (depth=1, breadth=0,1)
    assert_eq!(result.events.len(), 3);
    assert_eq!(result.events[1].cascade_breadth_index, 0);
    assert_eq!(result.events[2].cascade_breadth_index, 1);

    // Both reactions share the same parent
    assert_eq!(result.events[1].caused_by, result.events[2].caused_by);
}

#[test]
fn trigger_event_has_breadth_index_zero() {
    let event = trigger(EventKind::Signal {
        name: "test".into(),
        source: fresh("node"),
        payload: Properties::new(),
    });
    assert_eq!(event.cascade_breadth_index, 0);
}

#[test]
fn max_events_limit_truncates_cascade() {
    // Config: max_events = 5, with a subscription that spawns reactions
    let config = CascadeConfig {
        max_depth: 100,
        max_events: 5,
    };
    let engine = CascadeEngine::new(config);
    let mut proj = Projection::new();
    let registry = Handlers::new();

    // Ingest many triggers — should stop at 5
    // Without subscriptions, each trigger is 1 event, so first 5 succeed
    for i in 0..10 {
        let kind = EventKind::NodeCreated {
            node_id: fresh("node"),
            type_id: format!("type_{}", i),
            properties: Properties::new(),
        };
        let result = engine.trigger(kind, stamp(), fresh("casc"), &mut proj, &registry.registry, |s: &Subscription, e: &Event, g: &Projection| registry.handle(s, e, g), stamp);
        if i < 5 {
            assert!(result.is_ok(), "Event {} should succeed", i);
        }
        // After 5, the engine should truncate individual cascades
        // (each trigger is its own cascade of 1 event, so they all succeed
        // individually — the max_events limit is per-cascade)
    }
    // The limit is per-cascade, not global — all 10 succeed since each is 1 event
    assert_eq!(proj.node_count(), 10);

    // Now test with a chain reaction that exceeds the per-cascade limit
    let mut registry2 = Handlers::new();
    struct SpawnHandler;
    impl SubscriptionHandler for SpawnHandler {
        fn handle(
            &self,
            event: &Event,
            _graph: &Projection,
        ) -> Vec<EventKind> {
            // Every node create spawns another node create
            if let EventKind::NodeCreated { .. } = &event.kind {
                vec![EventKind::NodeCreated {
                    node_id: fresh("node"),
                    type_id: "spawned".to_string(),
                    properties: Properties::new(),
                }]
            } else {
                vec![]
            }
        }
    }

    registry2.register(
        "spawner",
        EventFilter::NodeCreated,
        100,
        Box::new(SpawnHandler),
    );

    let engine2 = CascadeEngine::new(CascadeConfig {
        max_depth: 100,
        max_events: 5,
    });
    let mut proj2 = Projection::new();
    let result = engine2.trigger(
        EventKind::NodeCreated {
            node_id: fresh("node"),
            type_id: "trigger".to_string(),
            properties: Properties::new(),
        },
        stamp(),
        fresh("casc"),
        &mut proj2,
        &registry2.registry,
        |s: &Subscription, e: &Event, g: &Projection| registry2.handle(s, e, g),
        stamp,
    ).unwrap();

    // Without limit this would be infinite. With max_events=5, it stops.
    assert!(result.truncated, "Should be truncated by max_events");
    assert!(result.events.len() <= 5, "Should not exceed 5 events");
}

#[test]
fn subscriptions_answer_before_the_policy_agent() {
    let mut registry = SubscriptionRegistry::new();
    registry.register(Subscription::new(
        SubscriptionId::from_str("sub_late"),
        "late",
        EventFilter::EventKindName("action_proposed".to_string()),
        1,
    ));
    registry.register(Subscription::new(
        SubscriptionId::from_str("sub_early"),
        "early",
        EventFilter::EventKindName("action_proposed".to_string()),
        2,
    ));
    let now = Timestamp::at(1_780_000_000);
    let action = Action {
        id: fresh("action"),
        tenant_id: Some(tenant()),
        kind: ActionKind::Backfill,
        status: ActionStatus::Proposed,
        targets: vec![],
        related_claims: vec![],
        supporting_evidence: vec![],
        proposed_by: ActorId::from_str("actor_one"),
        approved_by: None,
        rejected_by: None,
        policy_id: None,
        payload: Properties::new(),
        created_at: now,
        updated_at: now,
        approved_at: None,
        rejected_at: None,
        executed_at: None,
        caused_by: None,
    };
    let result = CascadeEngine::with_defaults()
        .trigger_with_epistemics(
            EventKind::ActionProposed { action },
            stamp(),
            fresh("casc"),
            &mut Projection::new(),
            &registry,
            &mut EpistemicStore::new(),
            &mut ActionStore::new(),
            &mut PolicyStore::new(),
            &PolicyEngine::new(),
            &PolicyAgent::new(ActorId::from_str("actor_policy"), ActorId::from_str("actor_approver")),
            &OutcomeAgent::new(ActorId::from_str("actor_outcome")),
            |s: &Subscription, _: &Event, _: &Projection| {
                vec![EventKind::Signal {
                    name: s.name.clone(),
                    source: NodeId::from_str("node_one"),
                    payload: Properties::new(),
                }]
            },
            agents,
            no_reflexes,
            stamp,
        )
        .unwrap();
    assert_eq!(result.events.len(), 5);
    match (&result.events[1].kind, &result.events[2].kind) {
        (EventKind::Signal { name: first, .. }, EventKind::Signal { name: second, .. }) => {
            assert_eq!(first, "early");
            assert_eq!(second, "late");
        }
        other => panic!("expected two signals, got {other:?}"),
    }
    assert!(matches!(result.events[3].kind, EventKind::PolicyDecisionRecorded { .. }));
    assert!(matches!(result.events[4].kind, EventKind::ActionApproved { .. }));
}
