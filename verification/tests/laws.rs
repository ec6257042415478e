use hydra_engine::action::{Action, ActionKind, ActionStatus, ActionTarget, Outcome, OutcomeKind};
use hydra_engine::action_store::ActionStore;
use hydra_engine::anomaly::AnomalyEngine;
use hydra_engine::anomaly_rules::CascadeRule;
use hydra_engine::cascade::{CascadeEngine, CascadeResult};
use hydra_engine::counterfactual::{causal_subtree, counterfactual, counterfactual_filter, diff_projections};
use hydra_engine::coverage::{CoverageEngine, CoverageExpectation, CoverageModel};
use hydra_engine::epistemic::{
    Claim, ClaimKind, ClaimObject, ClaimStatus, ClaimSubject, Evidence, EvidencePayload, EvidenceSource,
};
use hydra_engine::epistemic_store::EpistemicStore;
use hydra_engine::error::HydraError;
use hydra_engine::event::{Event, EventKind, Stamp};
use hydra_engine::event_log::EventLog;
use hydra_engine::ids::{ActorId, EdgeId, EventId, Id, NodeId};
use hydra_engine::number::Number;
use hydra_engine::outcome_agent::OutcomeAgent;
use hydra_engine::policy::{Policy, PolicyKind, PolicyScope, PolicyStatus};
use hydra_engine::policy_agent::PolicyAgent;
use hydra_engine::policy_engine::{PolicyEngine, PolicyEvaluationDecision};
use hydra_engine::policy_store::PolicyStore;
use hydra_engine::projection::Projection;
use hydra_engine::registry::{EventFilter, Subscription, SubscriptionRegistry};
use hydra_engine::time::Timestamp;
use hydra_engine::value::{Properties, Value};
use std::cell::Cell;

fn number(x: f64) -> Number {
    Number::from_bits(x.to_bits())
}

fn value_of(x: Number) -> f64 {
    f64::from_bits(x.to_bits())
}

fn now() -> Timestamp {
    Timestamp::at(1_780_000_000)
}

/// An event with an identifier of its own, brought about by the given ones.
fn event(id: &str, kind: EventKind, caused_by: &[&str]) -> Event {
    let mut event = Event::trigger(kind, Stamp { id: EventId::from_str(id), timestamp: now() }, Id::from_str("casc"));
    event.caused_by = caused_by.iter().map(|c| EventId::from_str(c)).collect();
    event
}

fn node(id: &str, type_id: &str) -> EventKind {
    EventKind::NodeCreated {
        node_id: NodeId::from_str(id),
        type_id: type_id.to_string(),
        properties: Properties::new(),
    }
}

fn edge(id: &str, source: &str, target: &str) -> EventKind {
    EventKind::EdgeCreated {
        edge_id: EdgeId::from_str(id),
        source: NodeId::from_str(source),
        target: NodeId::from_str(target),
        type_id: "link".to_string(),
        properties: Properties::new(),
    }
}

fn deletion(id: &str) -> EventKind {
    EventKind::NodeDeleted { node_id: NodeId::from_str(id) }
}

fn update(id: &str, name: &str, value: Value) -> EventKind {
    EventKind::NodeUpdated {
        node_id: NodeId::from_str(id),
        changes: Properties::from_pairs(vec![(name.to_string(), value)]),
    }
}

fn graph_of(kinds: Vec<EventKind>) -> Projection {
    let mut graph = Projection::new();
    for (i, kind) in kinds.into_iter().enumerate() {
        graph.apply(&event(&format!("evt_{i}"), kind, &[])).unwrap();
    }
    graph
}

#[test]
fn each_refusal_of_the_graph_has_its_error() {
    let mut graph = graph_of(vec![node("a", "x"), node("b", "x"), edge("ab", "a", "b")]);
    let a = NodeId::from_str("a");
    let ghost = NodeId::from_str("ghost");
    assert_eq!(graph.apply(&event("1", node("a", "y"), &[])), Err(HydraError::NodeAlreadyExists(a.clone())));
    assert_eq!(
        graph.apply(&event("2", update("ghost", "p", Value::Int(1)), &[])),
        Err(HydraError::NodeNotFound(ghost.clone()))
    );
    assert_eq!(graph.apply(&event("3", deletion("ghost"), &[])), Err(HydraError::NodeNotFound(ghost.clone())));
    assert_eq!(
        graph.apply(&event("4", edge("ab", "a", "b"), &[])),
        Err(HydraError::EdgeAlreadyExists(EdgeId::from_str("ab")))
    );
    assert_eq!(
        graph.apply(&event("5", edge("ag", "a", "ghost"), &[])),
        Err(HydraError::InvalidEdgeEndpoints { source: a, target: ghost })
    );
    assert_eq!(
        graph.apply(&event("6", EventKind::EdgeDeleted { edge_id: EdgeId::from_str("none") }, &[])),
        Err(HydraError::EdgeNotFound(EdgeId::from_str("none")))
    );
}

#[test]
fn refused_events_leave_the_graph_as_it_is() {
    let mut graph = graph_of(vec![node("a", "x"), node("b", "x")]);
    assert!(graph.apply(&event("1", node("a", "y"), &[])).is_err());
    assert!(graph.apply(&event("2", edge("ag", "a", "ghost"), &[])).is_err());
    assert_eq!(graph.node_count(), 2);
    assert_eq!(graph.edge_count(), 0);
    assert_eq!(graph.node(&NodeId::from_str("a")).unwrap().type_id(), "x");
    assert!(graph.edge(&EdgeId::from_str("ag")).is_none());
}

#[test]
fn what_was_deleted_is_still_known() {
    let graph = graph_of(vec![node("a", "x"), node("b", "x"), edge("ab", "a", "b"), deletion("b")]);
    assert!(!graph.has_node(&NodeId::from_str("b")));
    assert!(!graph.node(&NodeId::from_str("b")).unwrap().is_alive());
    assert!(!graph.edge(&EdgeId::from_str("ab")).unwrap().is_alive());
    assert_eq!(graph.edges_by_type("link").len(), 0);
    assert_eq!(graph.all_nodes().len(), 2);
}

#[test]
fn records_come_in_the_order_of_their_identifiers() {
    let graph = graph_of(vec![node("c", "x"), node("a", "x"), node("b", "x")]);
    let ids: Vec<&str> = graph.nodes_by_type("x").iter().map(|n| n.id().as_str()).collect();
    assert_eq!(ids, ["a", "b", "c"]);
}

#[test]
fn a_graph_does_not_differ_from_itself() {
    let graph = graph_of(vec![node("a", "x"), node("b", "x"), edge("ab", "a", "b"), update("a", "p", Value::Int(1))]);
    assert!(diff_projections(&graph, &graph).is_empty());
}

#[test]
fn replays_account_for_every_event() {
    let mut log = EventLog::new();
    log.append(event("e1", node("a", "x"), &[]));
    log.append(event("e2", update("a", "p", Value::Int(1)), &["e1"]));
    log.append(event("e3", node("b", "x"), &[]));
    log.append(event("e4", edge("ab", "a", "b"), &[]));
    let without = counterfactual(&log, &EventId::from_str("e1")).unwrap();
    // e1 and e2 are gone, e3 is replayed, and e4 is refused.
    assert_eq!(without.events_removed, 2);
    assert_eq!(without.events_replayed, 1);
    assert_eq!(without.events_skipped, 1);
    match counterfactual(&log, &EventId::from_str("ghost")) {
        Err(HydraError::EventNotFound(id)) => assert_eq!(id.as_str(), "ghost"),
        _ => panic!("expected EventNotFound"),
    }
}

#[test]
fn parts_removed_are_exact() {
    let mut log = EventLog::new();
    for i in 0..4 {
        log.append(event(&format!("e{i}"), node(&format!("n{i}"), "x"), &[]));
    }
    let one = counterfactual_filter(&log, |e: &Event| e.id.as_str() == "e0");
    assert_eq!(value_of(one.removal_fraction()), 0.25);
    let all = counterfactual_filter(&log, |_: &Event| true);
    assert_eq!(value_of(all.removal_fraction()), 1.0);
    let none = counterfactual_filter(&EventLog::new(), |_: &Event| true);
    assert_eq!(value_of(none.removal_fraction()), 0.0);
}

#[test]
fn subtrees_are_found_breadth_first_and_once() {
    let mut log = EventLog::new();
    log.append(event("r", node("r", "x"), &[]));
    log.append(event("b", node("b", "x"), &["r"]));
    log.append(event("c", node("c", "x"), &["r"]));
    log.append(event("d", node("d", "x"), &["b", "c"]));
    let ids: Vec<EventId> = causal_subtree(&log, &EventId::from_str("r"));
    let texts: Vec<&str> = ids.iter().map(|i| i.as_str()).collect();
    assert_eq!(texts, ["r", "b", "c", "d"]);
    assert!(causal_subtree(&log, &EventId::from_str("ghost")).is_empty());
}

#[test]
fn causes_are_followed_to_the_end() {
    let mut log = EventLog::new();
    log.append(event("a", node("a", "x"), &[]));
    for i in 0..20 {
        let cause = if i == 0 { "a".to_string() } else { format!("s{}", i - 1) };
        log.append(event(&format!("s{i}"), node(&format!("n{i}"), "x"), &[cause.as_str()]));
    }
    let chain = log.root_cause(&EventId::from_str("s19"));
    assert_eq!(chain.len(), 21);
    assert_eq!(chain[0].id.as_str(), "a");
    assert_eq!(chain[20].id.as_str(), "s19");
}

#[test]
fn circles_of_causes_end() {
    let mut log = EventLog::new();
    log.append(event("a", node("a", "x"), &["b"]));
    log.append(event("b", node("b", "x"), &["a"]));
    assert_eq!(log.root_cause(&EventId::from_str("a")).len(), 2);
    assert_eq!(log.causal_chain(&EventId::from_str("a")).len(), 1);
}

#[test]
fn compaction_keeps_the_latest() {
    let mut log = EventLog::new();
    for i in 0..5 {
        log.append(event(&format!("e{i}"), node(&format!("n{i}"), "x"), &[]));
    }
    assert_eq!(log.compact(&EventId::from_str("e2")), 3);
    let ids: Vec<String> = log.iter().iter().map(|e| e.id.as_str().to_string()).collect();
    assert_eq!(ids, ["e3", "e4"]);
    assert!(log.get(&EventId::from_str("e2")).is_none());
    // What was removed still counts as appended.
    assert_eq!(log.total_appended(), 5);
}

#[test]
fn chains_of_removed_events_are_empty() {
    let mut log = EventLog::new();
    log.append(event("a", node("a", "x"), &[]));
    log.append(event("b", node("b", "x"), &["a"]));
    log.append(event("c", node("c", "x"), &["b"]));
    assert_eq!(log.causal_chain(&EventId::from_str("a")).len(), 2);
    log.compact(&EventId::from_str("a"));
    assert!(log.causal_chain(&EventId::from_str("a")).is_empty());
    assert!(log.root_cause(&EventId::from_str("a")).is_empty());
    assert_eq!(log.causal_chain(&EventId::from_str("b")).len(), 1);
    assert_eq!(log.root_cause(&EventId::from_str("c")).len(), 2);
}

#[test]
fn causes_that_were_never_logged_have_chains() {
    let mut log = EventLog::new();
    log.append(event("b", node("b", "x"), &["a"]));
    log.append(event("c", node("c", "x"), &["b"]));
    let ids: Vec<&str> = log.causal_chain(&EventId::from_str("a")).iter().map(|e| e.id.as_str()).collect();
    assert_eq!(ids, ["b", "c"]);
    assert!(log.root_cause(&EventId::from_str("a")).is_empty());
    assert!(log.causal_chain(&EventId::from_str("z")).is_empty());
    // A compaction of other events changes nothing of that.
    log.append(event("d", node("d", "x"), &["a"]));
    log.compact(&EventId::from_str("b"));
    assert_eq!(log.causal_chain(&EventId::from_str("a")).len(), 1);
}

#[test]
fn removed_events_have_chains_once_they_are_logged_again() {
    let mut log = EventLog::new();
    log.append(event("a", node("a", "x"), &[]));
    log.append(event("b", node("b", "x"), &["a"]));
    log.compact(&EventId::from_str("a"));
    log.append(event("c", node("c", "x"), &["a"]));
    assert!(log.causal_chain(&EventId::from_str("a")).is_empty());
    log.append(event("a", node("a", "x"), &[]));
    assert_eq!(log.causal_chain(&EventId::from_str("a")).len(), 2);
    log.compact(&EventId::from_str("a"));
    assert!(log.causal_chain(&EventId::from_str("a")).is_empty());
}

#[test]
fn compaction_removes_the_configured_fraction() {
    let mut log = EventLog::with_config(hydra_engine::event_log::EventLogConfig {
        max_events: 9,
        compact_fraction: number(0.3),
    });
    for i in 0..10 {
        log.append(event(&format!("e{i}"), node(&format!("n{i}"), "x"), &[]));
    }
    // Ten times three tenths is three.
    assert_eq!(log.auto_compact(), 3);
    assert_eq!(log.len(), 7);
    assert_eq!(log.auto_compact(), 0);
    log.set_config(hydra_engine::event_log::EventLogConfig { max_events: 1, compact_fraction: number(f64::NAN) });
    assert_eq!(log.auto_compact(), 1);
    log.set_config(hydra_engine::event_log::EventLogConfig { max_events: 1, compact_fraction: number(9.0) });
    // At least one event is kept.
    assert_eq!(log.auto_compact(), 5);
    assert_eq!(log.len(), 1);
}

#[test]
fn subscriptions_of_the_same_priority_keep_their_order() {
    let mut registry = SubscriptionRegistry::new();
    for (name, priority) in [("first", 5), ("low", 1), ("second", 5), ("high", 9)] {
        registry.register(Subscription::new(Id::from_str(name), name, EventFilter::Any, priority));
    }
    let e = event("e", node("a", "x"), &[]);
    let names: Vec<&str> = registry.matching_subscriptions(&e).iter().map(|s| s.name.as_str()).collect();
    assert_eq!(names, ["high", "first", "second", "low"]);
}

#[test]
fn filters_ask_for_what_they_say() {
    let created = event("e", node("a", "ec2"), &[]);
    let signal = event(
        "s",
        EventKind::Signal { name: "alert".to_string(), source: NodeId::from_str("a"), payload: Properties::new() },
        &[],
    );
    assert!(EventFilter::NodeType("ec2".to_string()).matches(&created));
    assert!(!EventFilter::NodeType("rds".to_string()).matches(&created));
    assert!(EventFilter::SignalName("alert".to_string()).matches(&signal));
    assert!(!EventFilter::SignalName("other".to_string()).matches(&signal));
    assert!(EventFilter::EventKindName("signal".to_string()).matches(&signal));
    assert!(EventFilter::And(vec![]).matches(&signal));
    assert!(!EventFilter::And(vec![EventFilter::Any, EventFilter::NodeDeleted]).matches(&created));
}

fn policy(id: &str, kind: PolicyKind) -> EventKind {
    EventKind::PolicyRegistered {
        policy: Policy {
            id: Id::from_str(id),
            tenant_id: None,
            name: id.to_string(),
            kind,
            status: PolicyStatus::Active,
            scope: PolicyScope::AnyAction,
            condition: Properties::new(),
            metadata: Properties::new(),
            created_by: ActorId::from_str("ops"),
            created_at: now(),
            updated_at: now(),
            caused_by: None,
        },
    }
}

fn action(id: &str) -> Action {
    Action {
        id: Id::from_str(id),
        tenant_id: None,
        kind: ActionKind::Backfill,
        status: ActionStatus::Proposed,
        targets: vec![ActionTarget::System("test".to_string())],
        related_claims: vec![],
        supporting_evidence: vec![],
        proposed_by: ActorId::from_str("agent"),
        approved_by: None,
        rejected_by: None,
        policy_id: None,
        payload: Properties::new(),
        created_at: now(),
        updated_at: now(),
        approved_at: None,
        rejected_at: None,
        executed_at: None,
        caused_by: None,
    }
}

#[test]
fn the_most_restrictive_policy_decides() {
    let mut store = PolicyStore::new();
    let engine = PolicyEngine::new();
    let steps = [
        ("p1", PolicyKind::AutoApproval, PolicyEvaluationDecision::AutoApprove),
        ("p2", PolicyKind::ReviewRequirement, PolicyEvaluationDecision::NeedsHumanReview),
        ("p3", PolicyKind::HumanApproval, PolicyEvaluationDecision::RequireApproval),
        ("p4", PolicyKind::Escalation, PolicyEvaluationDecision::Escalate),
        ("p5", PolicyKind::Block, PolicyEvaluationDecision::Block),
    ];
    let mut last = None;
    for (id, kind, decision) in steps {
        store.apply_event(&event(id, policy(id, kind), &[])).unwrap();
        let report = engine.evaluate_action(&store, &action("act"));
        if report.decision == decision {
            last = report.matched_policy_id;
        }
    }
    let report = engine.evaluate_action(&store, &action("act"));
    assert_eq!(report.decision, PolicyEvaluationDecision::Block);
    assert_eq!(report.matched_policy_id, last);
    assert_eq!(report.matched_policy_id.unwrap().as_str(), "p5");
}

#[test]
fn disabling_an_unknown_policy_is_refused() {
    let mut store = PolicyStore::new();
    store.apply_event(&event("1", policy("p1", PolicyKind::Block), &[])).unwrap();
    let refused = store.apply_event(&event(
        "2",
        EventKind::PolicyDisabled {
            policy_id: Id::from_str("ghost"),
            disabled_by: ActorId::from_str("ops"),
            reason: None,
        },
        &[],
    ));
    assert_eq!(refused, Err(HydraError::QueryError("unknown policy: ghost".to_string())));
    assert_eq!(store.active_policies().len(), 1);
}

fn evidence(id: &str) -> EventKind {
    EventKind::EvidenceAdded {
        evidence: Evidence {
            id: Id::from_str(id),
            tenant_id: None,
            source: EvidenceSource::System { name: "sensor".to_string() },
            payload: EvidencePayload { kind: "check".to_string(), data: Properties::new() },
            reliability: number(0.9),
            observed_at: now(),
            recorded_at: now(),
            caused_by: None,
        },
    }
}

fn claim(id: &str) -> EventKind {
    EventKind::ClaimProposed {
        claim: Claim {
            id: Id::from_str(id),
            tenant_id: None,
            kind: ClaimKind::AnomalyFinding,
            subject: ClaimSubject::System("engine".to_string()),
            predicate: "is_slow".to_string(),
            object: ClaimObject::Value(Value::Bool(true)),
            confidence: number(0.5),
            status: ClaimStatus::Proposed,
            evidence_for: vec![],
            evidence_against: vec![],
            valid_from: now(),
            valid_until: None,
            created_by: ActorId::from_str("agent"),
            created_at: now(),
            updated_at: now(),
            caused_by: None,
        },
    }
}

#[test]
fn support_counts_once() {
    let mut store = EpistemicStore::new();
    store.apply_event(&event("1", evidence("ev"), &[])).unwrap();
    store.apply_event(&event("2", claim("c"), &[])).unwrap();
    let support = event(
        "3",
        EventKind::ClaimSupported { claim_id: Id::from_str("c"), evidence_id: Id::from_str("ev") },
        &[],
    );
    store.apply_event(&support).unwrap();
    store.apply_event(&support).unwrap();
    assert_eq!(store.claim(&Id::from_str("c")).unwrap().evidence_for.len(), 1);
    let unknown = store.apply_event(&event(
        "4",
        EventKind::ClaimSupported { claim_id: Id::from_str("ghost"), evidence_id: Id::from_str("ev") },
        &[],
    ));
    assert!(matches!(unknown, Err(HydraError::QueryError(_))));
    assert_eq!(store.claim_count(), 1);
}

#[test]
fn outcomes_leave_their_actions_as_they_are() {
    let mut store = ActionStore::new();
    store.apply_event(&event("1", EventKind::ActionProposed { action: action("act") }, &[])).unwrap();
    let outcome = Outcome {
        id: Id::from_str("out"),
        tenant_id: None,
        action_id: Id::from_str("act"),
        kind: OutcomeKind::Unknown,
        observed_events: vec![],
        updated_claims: vec![],
        produced_evidence: vec![],
        impact: Properties::new(),
        observed_at: now(),
        recorded_at: now(),
        recorded_by: ActorId::from_str("ops"),
        caused_by: None,
    };
    store.apply_event(&event("2", EventKind::OutcomeObserved { outcome }, &[])).unwrap();
    assert_eq!(store.action(&Id::from_str("act")), Some(&action("act")));
    let refused = store.apply_event(&event("3", EventKind::ActionExecuting { action_id: Id::from_str("ghost") }, &[]));
    assert_eq!(refused, Err(HydraError::QueryError("unknown action: ghost".to_string())));
}

#[test]
fn amplification_starts_beyond_the_limits() {
    let engine = AnomalyEngine::new().with_cascade_rule(CascadeRule {
        max_event_count: 2,
        max_depth: 3,
        severity: number(0.5),
    });
    let graph = Projection::new();
    let result = |count: usize, depth: u32| CascadeResult {
        events: (0..count).map(|i| event(&format!("e{i}"), node(&format!("n{i}"), "x"), &[])).collect(),
        mutations: 0,
        max_depth_reached: depth,
        truncated: false,
        produced_by: vec![],
    };
    assert!(engine.analyze_cascade(&result(2, 3), &graph, now()).is_empty());
    assert_eq!(engine.analyze_cascade(&result(3, 3), &graph, now()).len(), 1);
    assert_eq!(engine.analyze_cascade(&result(2, 4), &graph, now()).len(), 1);
}

#[test]
fn scores_weigh_gaps_by_how_far_they_are_filled() {
    let graph = graph_of(vec![node("a", "x"), node("b", "x"), node("c", "y")]);
    let engine = CoverageEngine::new();
    let model = CoverageModel {
        name: "m".to_string(),
        expectations: vec![
            CoverageExpectation::MinNodeCount { node_type: "x".to_string(), min_count: 2 },
            CoverageExpectation::MinNodeCount { node_type: "y".to_string(), min_count: 3 },
            CoverageExpectation::TypeRatio {
                numerator_type: "y".to_string(),
                denominator_type: "x".to_string(),
                min_ratio: number(0.8),
            },
        ],
        scope_node_type: None,
    };
    let report = engine.evaluate(&model, &graph, now());
    assert_eq!(report.met, 1);
    assert_eq!(value_of(report.gaps[0].fulfillment), 1.0 / 3.0);
    assert_eq!(value_of(report.gaps[1].fulfillment), 0.5 / 0.8);
    assert_eq!(value_of(report.score), (1.0 + (0.0 + 1.0 / 3.0 + 0.5 / 0.8)) / 3.0);
    assert_eq!(
        report.gaps[1].description,
        "Ratio of 'y' to 'x' is 0.50 (expected >= 0.80). Have 1 'y' for 2 'x'."
    );
}

/// The events of a cascade on all stores that a proposed backfill starts, with identifiers
/// counted up.
fn backfill_cascade() -> Vec<Event> {
    let counter = Cell::new(0);
    let mint = || {
        counter.set(counter.get() + 1);
        Stamp { id: EventId::from_str(&format!("evt_{}", counter.get())), timestamp: now() }
    };
    let action = Action {
        id: Id::from_str("action_one"),
        tenant_id: None,
        kind: ActionKind::Backfill,
        status: ActionStatus::Proposed,
        targets: vec![],
        related_claims: vec![],
        supporting_evidence: vec![],
        proposed_by: ActorId::from_str("actor_one"),
        approved_by: None,
        rejected_by: None,
        policy_id: None,
        payload: Properties::new(),
        created_at: now(),
        updated_at: now(),
        approved_at: None,
        rejected_at: None,
        executed_at: None,
        caused_by: None,
    };
    CascadeEngine::with_defaults()
        .trigger_with_epistemics(
            EventKind::ActionProposed { action },
            Stamp { id: EventId::from_str("evt_0"), timestamp: now() },
            Id::from_str("casc"),
            &mut Projection::new(),
            &SubscriptionRegistry::new(),
            &mut EpistemicStore::new(),
            &mut ActionStore::new(),
            &mut PolicyStore::new(),
            &PolicyEngine::new(),
            &PolicyAgent::new(ActorId::from_str("actor_policy"), ActorId::from_str("actor_approver")),
            &OutcomeAgent::new(ActorId::from_str("actor_outcome")),
            |_: &Subscription, _: &Event, _: &Projection| vec![],
            |e: &Event, _: &Projection, _: &EpistemicStore| match &e.kind {
                EventKind::ActionApproved { action_id, .. } => {
                    vec![EventKind::ActionExecuting { action_id: action_id.clone() }]
                }
                EventKind::ActionExecuting { action_id } => {
                    vec![EventKind::ActionExecuted { action_id: action_id.clone() }]
                }
                _ => vec![],
            },
            |_: &Event, _: &Projection, _: &EpistemicStore, _: &ActionStore| vec![],
            mint,
        )
        .unwrap()
        .events
}

#[test]
fn cascades_on_all_stores_are_deterministic() {
    let (one, other) = (backfill_cascade(), backfill_cascade());
    let names: Vec<&str> = one.iter().map(|e| e.kind.kind_name()).collect();
    assert_eq!(
        names,
        vec![
            "action_proposed",
            "policy_decision_recorded",
            "action_approved",
            "action_executing",
            "action_executed",
            "outcome_observed"
        ]
    );
    assert_eq!(format!("{one:?}"), format!("{other:?}"));
}

#[test]
fn siblings_are_numbered_in_order() {
    let events = backfill_cascade();
    let indexes: Vec<u32> = events.iter().map(|e| e.cascade_breadth_index).collect();
    assert_eq!(indexes, vec![0, 0, 1, 0, 0, 0]);
}
