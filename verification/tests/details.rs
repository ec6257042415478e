use hydra_engine::action::ActionTarget;
use hydra_engine::anomaly::AnomalyEngine;
use hydra_engine::anomaly_rules::{
    Anomaly, AnomalyKind, CounterfactualRule, DriftRule, NodeHistory, PatternRule, PropertyHistory, PropertyVersion, TopologyRule,
};
use hydra_engine::cascade::CascadeResult;
use hydra_engine::commit::{CommitBatch, EncodedEvent, MetadataEntry};
use hydra_engine::commit_ledger::{engine_digest_v0, hash_commit_material, CommitLedger};
use hydra_engine::epistemic::{Claim, ClaimObject, ClaimStatus, ClaimSubject};
use hydra_engine::error::HydraError;
use hydra_engine::event::{Event, EventKind, Stamp};
use hydra_engine::event_log::EventLog;
use hydra_engine::evolution::{SubscriptionOutcome, SubscriptionTracker};
use hydra_engine::ids::{ActorId, CommitId, EdgeId, EventId, Id, IdempotencyKey, MicroModelId, NodeId, TenantId};
use hydra_engine::micromodel::{MicroModelKind, MicroModelPrediction, MicroModelStatus};
use hydra_engine::micromodel_store::MicroModelStore;
use hydra_engine::micromodels::action_failure_rate::ActionFailureRateModel;
use hydra_engine::micromodels::agent_loop_storm::AgentLoopStormModel;
use hydra_engine::micromodels::commit_rate::{
    AnomalyLevel, CommitRateAnomalyConfig, CommitRateAnomalyModel, CommitRateAnomalyState, Direction,
};
use hydra_engine::micromodels::reflex::{
    ensure_builtin_model_registered, propose_action_from_reflex, propose_claim_from_reflex, MicroModelReflexParts,
    ReflexBridgeIds,
};
use hydra_engine::micromodels::replication_lag::{ReplicationLagAnomalyConfig, ReplicationLagAnomalyModel};
use hydra_engine::number::Number;
use hydra_engine::projection::Projection;
use hydra_engine::registry::{EventFilter, Subscription, SubscriptionRegistry};
use hydra_engine::time::Timestamp;
use hydra_engine::value::{Properties, Value};
use std::collections::hash_map::DefaultHasher;
use std::hash::{Hash, Hasher};

fn number(x: f64) -> Number {
    Number::from_bits(x.to_bits())
}

fn value_of(x: Number) -> f64 {
    f64::from_bits(x.to_bits())
}

fn now() -> Timestamp {
    Timestamp::at(1_780_000_000)
}

fn event(id: &str, kind: EventKind, caused_by: &[&str]) -> Event {
    let mut event = Event::trigger(kind, Stamp { id: EventId::from_str(id), timestamp: now() }, Id::from_str("casc"));
    event.caused_by = caused_by.iter().map(|c| EventId::from_str(c)).collect();
    event
}

fn node(id: &str, type_id: &str) -> EventKind {
    EventKind::NodeCreated {
        node_id: NodeId::from_str(id),
        type_id: type_id.to_string(),
        properties: Properties::new(),
    }
}

fn edge(id: &str, source: &str, target: &str, type_id: &str) -> EventKind {
    EventKind::EdgeCreated {
        edge_id: EdgeId::from_str(id),
        source: NodeId::from_str(source),
        target: NodeId::from_str(target),
        type_id: type_id.to_string(),
        properties: Properties::new(),
    }
}

fn encoded(id: &str) -> EncodedEvent {
    EncodedEvent {
        id: EventId::from_str(id),
        cascade_id: Id::from_str("casc \"1\""),
        cascade_depth: 2,
        cascade_breadth_index: 3,
        encoding: format!("{{\"id\":\"{id}\"}}"),
    }
}

#[test]
fn commit_hashes_cover_the_json_of_a_batch() {
    let mut ledger = CommitLedger::new();
    let key = IdempotencyKey::from_str("key\n1");
    let batch = ledger.commit_events(CommitId::from_str("c\\1"), vec![encoded("e1")], Some(key)).unwrap();
    let event_hash = engine_digest_v0("{\"id\":\"e1\"}");
    let material = format!(
        "{{\"id\":\"c\\\\1\",\"tenant_id\":null,\"sequence\":1,\"previous_hash\":null,\"idempotency_key\":\"key\\n1\",\
         \"event_records\":[{{\"event_id\":\"e1\",\"event_hash\":\"{event_hash}\",\"cascade_id\":\"casc \\\"1\\\"\",\
         \"cascade_depth\":2,\"cascade_breadth_index\":3}}],\"metadata\":[]}}"
    );
    assert_eq!(batch.commit_hash.as_ref().unwrap().as_str(), engine_digest_v0(&material));
    assert_eq!(hash_commit_material(&batch).as_str(), engine_digest_v0(&material));
}

#[test]
fn json_strings_are_escaped() {
    let mut batch = CommitBatch::new(CommitId::from_str("\u{8}\t\n\u{c}\r\"\\/\u{1}\u{1f}\u{7f}\u{e9}"), vec![]);
    batch.sequence = 7;
    let material = "{\"id\":\"\\b\\t\\n\\f\\r\\\"\\\\/\\u0001\\u001f\u{7f}\u{e9}\",\"tenant_id\":null,\"sequence\":7,\
                    \"previous_hash\":null,\"idempotency_key\":null,\"event_records\":[],\"metadata\":[]}";
    assert_eq!(hash_commit_material(&batch).as_str(), engine_digest_v0(material));
}

#[test]
fn keys_keep_their_commit_through_later_ones() {
    let mut ledger = CommitLedger::new();
    let key = |k: &str| Some(IdempotencyKey::from_str(k));
    let first = ledger.commit_events(CommitId::from_str("c1"), vec![encoded("e1")], key("k1")).unwrap();
    let second = ledger.commit_events(CommitId::from_str("c2"), vec![encoded("e2")], key("k2")).unwrap();
    assert_eq!((first.sequence, second.sequence), (1, 2));
    assert_eq!(second.previous_hash, first.commit_hash);
    let again = ledger.commit_events(CommitId::from_str("c3"), vec![encoded("e3")], key("k1")).unwrap();
    assert_eq!(again.id, first.id);
    assert_eq!(again.commit_hash, first.commit_hash);
    assert_eq!(ledger.commit_count(), 2);
    assert_eq!(ledger.head_hash(), second.commit_hash.as_ref());
    assert!(ledger.verify_chain().is_ok());
}

#[test]
fn commit_hashes_cover_metadata_and_tenants() {
    let mut batch = CommitBatch::new(CommitId::from_str("c"), vec![encoded("e1")]);
    let plain = hash_commit_material(&batch);
    batch.tenant_id = Some(TenantId::from_str("t"));
    let tenanted = hash_commit_material(&batch);
    batch.metadata.push(MetadataEntry { key: "k".to_string(), value: "v".to_string() });
    let noted = hash_commit_material(&batch);
    assert_ne!(plain, tenanted);
    assert_ne!(tenanted, noted);
}

#[test]
fn broken_chains_are_found_out() {
    let mut original = CommitLedger::new();
    let first = original.commit_events(CommitId::from_str("c1"), vec![encoded("e1")], None).unwrap();
    let mut second = original.commit_events(CommitId::from_str("c2"), vec![encoded("e2")], None).unwrap();
    second.previous_hash = None;
    let mut recovered = CommitLedger::new();
    assert!(recovered.load_committed_batches(vec![first, second]).is_err() || recovered.verify_chain().is_err());
}

#[test]
fn empty_commits_are_refused() {
    let mut ledger = CommitLedger::new();
    assert!(matches!(
        ledger.commit_events(CommitId::from_str("c1"), vec![], None),
        Err(HydraError::QueryError(_))
    ));
    assert_eq!(ledger.commit_count(), 0);
    assert_eq!(ledger.head_hash(), None);
}

fn registry() -> SubscriptionRegistry {
    let mut registry = SubscriptionRegistry::new();
    registry.register(Subscription::new(Id::from_str("sub"), "tagger", EventFilter::NodeCreated, 1));
    registry
}

#[test]
fn proposals_say_what_they_rest_on() {
    let registry = registry();
    let mut tracker = SubscriptionTracker::new().with_min_fires(3).with_fp_threshold(number(0.5));
    for i in 0..3 {
        let result = CascadeResult {
            events: vec![
                event(&format!("e{i}"), node("a", "x"), &[]),
                event(&format!("r{i}"), EventKind::NodeDeleted { node_id: NodeId::from_str("a") }, &[&format!("e{i}")]),
            ],
            mutations: 2,
            max_depth_reached: 1,
            truncated: false,
            produced_by: vec![None, Some(Id::from_str("sub"))],
        };
        tracker.record_cascade(&result, &registry);
    }
    let sub = Id::from_str("sub");
    assert_eq!(tracker.metrics(&sub).unwrap().total_fires, 3);
    assert_eq!(tracker.metrics(&sub).unwrap().total_reactions, 3);
    assert!(tracker.record_outcome(&sub, 0, SubscriptionOutcome::Confirmed));
    assert!(tracker.record_outcome(&sub, 1, SubscriptionOutcome::Dismissed));
    assert!(tracker.record_outcome(&sub, 2, SubscriptionOutcome::Dismissed));
    assert!(!tracker.record_outcome(&sub, 3, SubscriptionOutcome::Dismissed));
    tracker.record_miss(&sub, EventId::from_str("missed"), None, now());
    let metrics = tracker.metrics(&sub).unwrap();
    assert_eq!(value_of(metrics.precision().unwrap()), 1.0 / 3.0);
    assert_eq!(value_of(metrics.false_positive_rate().unwrap()), 1.0 - 1.0 / 3.0);
    assert_eq!(value_of(metrics.recall().unwrap()), 0.5);
    assert_eq!(metrics.pending_outcomes(), 0);
    let proposals = tracker.generate_proposals(now());
    assert_eq!(proposals.len(), 1);
    assert_eq!(
        proposals[0].description,
        "Subscription 'tagger' has a 67% false positive rate (2 false / 3 total judged). \
         Consider adjusting its filter or threshold."
    );
    assert_eq!(
        proposals[0].rationale,
        "Precision: 33.3%. Recall: 50.0%. 3 fires, 1 true positives, 2 false positives, \
         1 false negatives, 0 auto-accepted, 0 pending."
    );
    assert_eq!(proposals[0].fires_prevented, 2);
    assert!(tracker.reject_proposal(0, now()));
    assert!(!tracker.approve_proposal(0, now()));
    // Once it is answered, a new one is made.
    assert_eq!(tracker.generate_proposals(now()).len(), 1);
}

#[test]
fn judging_all_leaves_none_open() {
    let registry = registry();
    let mut tracker = SubscriptionTracker::new();
    let result = CascadeResult {
        events: vec![event("e1", node("a", "x"), &[]), event("e2", node("b", "x"), &[])],
        mutations: 2,
        max_depth_reached: 0,
        truncated: false,
        produced_by: vec![],
    };
    tracker.record_cascade(&result, &registry);
    let sub = Id::from_str("sub");
    assert_eq!(tracker.record_all_outcomes(&sub, SubscriptionOutcome::AutoAccepted), 2);
    assert_eq!(tracker.record_all_outcomes(&sub, SubscriptionOutcome::Dismissed), 0);
    assert_eq!(tracker.metrics(&sub).unwrap().auto_accepted, 2);
    assert_eq!(tracker.metrics(&sub).unwrap().pending_outcomes(), 0);
    assert_eq!(tracker.record_all_outcomes(&Id::from_str("ghost"), SubscriptionOutcome::Dismissed), 0);
}

#[test]
fn simulations_count_only_what_the_log_holds() {
    let registry = registry();
    let mut tracker = SubscriptionTracker::new();
    let mut log = EventLog::new();
    let known = event("e1", node("a", "ec2"), &[]);
    let other = event("e2", node("b", "rds"), &[]);
    let gone = event("e3", node("c", "rds"), &[]);
    log.append(known.clone());
    log.append(other.clone());
    let result =
        CascadeResult { events: vec![known, other, gone], mutations: 3, max_depth_reached: 0, truncated: false, produced_by: vec![] };
    tracker.record_cascade(&result, &registry);
    let sub = Id::from_str("sub");
    tracker.record_outcome(&sub, 0, SubscriptionOutcome::Confirmed);
    tracker.record_outcome(&sub, 1, SubscriptionOutcome::Dismissed);
    let sim = tracker.simulate_filter(&sub, &EventFilter::NodeType("ec2".to_string()), &log);
    assert_eq!((sim.would_match, sim.would_not_match), (1, 1));
    assert_eq!((sim.true_positives_kept, sim.false_positives_removed), (1, 1));
    assert_eq!(value_of(sim.estimated_precision.unwrap()), 1.0);
    let none = tracker.simulate_filter(&Id::from_str("ghost"), &EventFilter::Any, &log);
    assert_eq!(none.would_match, 0);
    assert!(none.estimated_precision.is_none());
}

#[test]
fn anomalies_say_what_was_found() {
    let mut graph = Projection::new();
    let mut log = EventLog::new();
    for (id, kind) in [
        ("e1", node("adm", "admin")),
        ("e2", node("r1", "res")),
        ("e3", node("r2", "res")),
        ("e4", edge("x1", "adm", "r1", "may")),
        ("e5", edge("x2", "adm", "r2", "may")),
    ] {
        let e = event(id, kind, &[]);
        graph.apply(&e).unwrap();
        log.append(e);
    }
    let mut engine = AnomalyEngine::new();
    engine.add_topology_rule(TopologyRule {
        node_type: "admin".to_string(),
        edge_type: "may".to_string(),
        min_degree: 0,
        max_degree: 1,
        severity: number(0.4),
    });
    engine.add_counterfactual_rule(CounterfactualRule {
        node_type: "admin".to_string(),
        min_removal_fraction: number(0.9),
        min_graph_impact: 3,
        severity: number(0.5),
    });
    engine.add_pattern_rule(PatternRule {
        name: "broad".to_string(),
        anchor_type: "admin".to_string(),
        edge_type: "may".to_string(),
        target_type: "res".to_string(),
        min_fan_out: 2,
        target_predicate: None,
        anchor_predicate: None,
        severity: number(0.6),
    });
    let found = engine.analyze_batch(&graph, &vec![], &log, now());
    let texts: Vec<&str> = found.iter().map(|a| a.description.as_str()).collect();
    assert_eq!(
        texts,
        [
            "admin adm has 2 'may' edges (expected 0-1)",
            "admin adm accounts for 20% of events (1 removed). Removing them changes 3 graph elements.",
            "Pattern 'broad': admin adm fans out to 2 'res' nodes via 'may' edges (threshold: 2)",
        ]
    );
    match &found[2].kind {
        AnomalyKind::ForbiddenPattern { matched_targets, .. } => {
            assert_eq!(matched_targets.len(), 2);
            assert_eq!(found[2].affected_nodes.len(), 3);
        }
        other => panic!("expected ForbiddenPattern, got {other:?}"),
    }
}

#[test]
fn detectors_say_what_they_saw() {
    let storm = AgentLoopStormModel::default();
    assert_eq!(
        storm.evaluate_observation(1, 2, 3, None, 0).reason,
        "1 agent events / 2 actions / 3 claims in 60s \u{2014} within thresholds"
    );
    assert_eq!(
        storm.evaluate_observation(50, 2, 3, Some("bot".to_string()), 7).reason,
        "agent loop storm at warning level: 50 agent events / 2 actions / 3 claims in 60s; \
         top actor bot contributed 7 events"
    );
    assert_eq!(
        storm.evaluate_observation(200, 2, 3, Some("bot".to_string()), 0).reason,
        "agent loop storm at critical level: 200 agent events / 2 actions / 3 claims in 60s"
    );
    let failures = ActionFailureRateModel::default();
    assert_eq!(
        failures.evaluate_observation(0, 0, None).reason,
        "no actions reached terminal state in 300s \u{2014} delivery healthy by absence"
    );
    assert_eq!(
        failures.evaluate_observation(9, 1, None).reason,
        "1 of 9 actions failed in 300s \u{2014} within thresholds"
    );
    assert_eq!(
        failures.evaluate_observation(9, 3, Some("Notify".to_string())).reason,
        "action delivery warning: 3 of 9 actions failed in 300s; failure ratio 33.3%; top failed kind Notify"
    );
    assert_eq!(
        failures.evaluate_observation(4, 40, None).reason,
        "action delivery critical: 40 of 4 actions failed in 300s; failure ratio 1000.0%"
    );
    let lag = ReplicationLagAnomalyModel::default();
    assert_eq!(
        lag.evaluate_observation(now(), 5, Some(now())).reason,
        "replication lag 5 commits within warning threshold 10"
    );
    assert_eq!(
        lag.evaluate_observation(now(), 500, Some(now())).reason,
        "replication lag 500 commits exceeds critical threshold 100"
    );
    assert_eq!(
        lag.evaluate_observation(now(), 5, None).reason,
        "replication heartbeat stale: no observation in last 60s"
    );
    // A second more than the limit is too much, the limit itself is not.
    assert!(!lag.evaluate_observation(Timestamp::at(60), 0, Some(Timestamp::at(0))).stale_heartbeat);
    assert!(lag.evaluate_observation(Timestamp::at(61), 0, Some(Timestamp::at(0))).stale_heartbeat);
    // So is any part of a second more.
    let half = Timestamp { seconds: 60, nanos: 500_000_000 };
    assert!(lag.evaluate_observation(half, 0, Some(Timestamp::at(0))).stale_heartbeat);
    assert!(!lag.evaluate_observation(Timestamp::at(0), 0, Some(half)).stale_heartbeat);
}

#[test]
fn critical_lag_is_at_least_that_of_the_warning() {
    let config = |warning_lag_commits: u64, critical_lag_commits: u64| ReplicationLagAnomalyConfig {
        warning_lag_commits,
        critical_lag_commits,
        stale_heartbeat_after_secs: 60,
    };
    assert_eq!(*ReplicationLagAnomalyModel::with_config(config(10, 20)).config(), config(10, 20));
    assert_eq!(*ReplicationLagAnomalyModel::with_config(config(10, 5)).config(), config(10, 10));
}

#[test]
fn commit_rates_are_weighed_in() {
    let config = CommitRateAnomalyConfig::default();
    let state = CommitRateAnomalyState {
        ewma_rate: number(100.0),
        ewma_variance: number(16.0),
        samples_seen: 9,
        last_observed_at: None,
    };
    let mut model = CommitRateAnomalyModel::with_state(config, state);
    let out = model.evaluate_observation(now(), 130);
    assert_eq!(out.level, AnomalyLevel::Critical);
    assert_eq!(out.direction, Direction::Spike);
    assert_eq!(value_of(out.z_score), 7.5);
    assert_eq!(out.reason, "commit rate 130/min vastly exceeds expected 100/min by z-score 7.5");
    assert_eq!(value_of(model.state().ewma_rate), 100.0 + 0.2 * 30.0);
    assert_eq!(value_of(model.state().ewma_variance), (1.0 - 0.2) * 16.0 + 0.2 * 30.0 * 30.0);
    assert_eq!(model.state().samples_seen, 10);
    let calm = CommitRateAnomalyModel::with_state(config, state).evaluate_observation(now(), 98);
    assert_eq!(calm.reason, "commit rate 98/min within \u{b1}0.5\u{3c3} of expected 100/min");
    let drop = CommitRateAnomalyModel::with_state(config, state).evaluate_observation(now(), 84);
    assert_eq!(drop.level, AnomalyLevel::Warning);
    assert_eq!(drop.reason, "commit rate 84/min falls below expected 100/min by z-score -4.0");
    let first = CommitRateAnomalyModel::default().evaluate_observation(now(), 7);
    assert_eq!(first.reason, "warming up: 1/5 samples collected");
}

fn prediction() -> MicroModelPrediction {
    MicroModelPrediction {
        model_id: MicroModelId::from_str("mm_lag"),
        run_id: Id::from_str("run"),
        input: "{}".to_string(),
        output: "{}".to_string(),
        confidence: number(0.95),
        explanation: None,
        created_at: now(),
    }
}

fn parts(actionable: bool) -> MicroModelReflexParts {
    MicroModelReflexParts {
        actionable,
        confidence: number(0.95),
        claim_subject: ClaimSubject::System("hydra".to_string()),
        claim_predicate: "replication_lagging".to_string(),
        claim_object: ClaimObject::Value(Value::Bool(true)),
        evidence_payload_data: Properties::from_pairs(vec![("lag".to_string(), Value::Int(7))]),
        action_target: ActionTarget::System("hydra".to_string()),
        action_payload: Properties::new(),
    }
}

#[test]
fn predictions_lead_to_claims_and_actions() {
    let actor = ActorId::from_str("ops");
    let (event_id, evidence_id, claim_id) =
        (EventId::from_str("pe"), Id::from_str("ev"), Id::from_str("cl"));
    assert!(propose_claim_from_reflex(&prediction(), &event_id, &parts(false), &actor, &evidence_id, &claim_id)
        .is_none());
    let proposed =
        propose_claim_from_reflex(&prediction(), &event_id, &parts(true), &actor, &evidence_id, &claim_id).unwrap();
    assert_eq!(proposed.evidence.payload.kind, "micro_model_prediction");
    assert_eq!(proposed.evidence.payload.data.get("lag"), Some(&Value::Int(7)));
    assert_eq!(proposed.claim.evidence_for, vec![evidence_id.clone()]);
    assert_eq!(proposed.claim.caused_by, Some(event_id));
    let bridge = ReflexBridgeIds {
        evidence_id,
        evidence_event_id: EventId::from_str("ee"),
        claim_id: claim_id.clone(),
        claim_event_id: EventId::from_str("ce"),
    };
    let action_id = Id::from_str("act");
    let action = propose_action_from_reflex(
        Some(&proposed.claim),
        &prediction(),
        &bridge,
        &parts(true),
        &actor,
        &action_id,
    )
    .unwrap();
    assert_eq!(action.related_claims, vec![claim_id]);
    assert_eq!(action.caused_by, Some(EventId::from_str("ce")));
    // A doubtful claim calls for nothing, unless it is verified.
    let mut doubtful = proposed.claim.clone();
    doubtful.confidence = number(0.89);
    let propose =
        |claim: Option<&Claim>| propose_action_from_reflex(claim, &prediction(), &bridge, &parts(true), &actor, &action_id);
    assert!(propose(Some(&doubtful)).is_none());
    doubtful.status = ClaimStatus::Verified;
    assert!(propose(Some(&doubtful)).is_some());
    doubtful.predicate = "other".to_string();
    assert!(propose(Some(&doubtful)).is_none());
    assert!(propose(None).is_none());
}

#[test]
fn builtin_models_are_registered_once() {
    let mut store = MicroModelStore::new();
    let id = MicroModelId::from_str("mm_lag");
    let actor = ActorId::from_str("ops");
    let register = |store: &MicroModelStore| {
        ensure_builtin_model_registered(store, &id, MicroModelKind::ReplicationLagAnomaly, "lag", &actor, now())
    };
    let kinds = register(&store);
    assert_eq!(kinds.len(), 2);
    for kind in kinds {
        store.apply_event(&event("e", kind, &[])).unwrap();
    }
    assert_eq!(store.model(&id).unwrap().status, MicroModelStatus::Active);
    assert!(register(&store).is_empty());
}

#[test]
fn proposals_start_beyond_the_threshold() {
    let registry = registry();
    let mut tracker = SubscriptionTracker::new().with_min_fires(2).with_fp_threshold(number(0.5));
    let result = CascadeResult {
        events: vec![event("e1", node("a", "x"), &[]), event("e2", node("b", "x"), &[])],
        mutations: 2,
        max_depth_reached: 0,
        truncated: false,
        produced_by: vec![],
    };
    tracker.record_cascade(&result, &registry);
    let sub = Id::from_str("sub");
    tracker.record_outcome(&sub, 0, SubscriptionOutcome::Confirmed);
    tracker.record_outcome(&sub, 1, SubscriptionOutcome::Dismissed);
    // Half of the fires were false alarms: not more than the threshold.
    assert!(tracker.generate_proposals(now()).is_empty());
    let mut stricter = tracker.with_fp_threshold(number(0.4));
    assert_eq!(stricter.generate_proposals(now()).len(), 1);
}

#[test]
fn drift_takes_so_many_changes() {
    let history = |values: &[i64]| NodeHistory {
        node_id: NodeId::from_str("a"),
        type_id: "x".to_string(),
        properties: vec![PropertyHistory {
            property: "score".to_string(),
            versions: values
                .iter()
                .enumerate()
                .map(|(i, v)| PropertyVersion {
                    effective_from: Timestamp::at(1_780_000_000 + 10 * i as i64),
                    value: Value::Int(*v),
                })
                .collect(),
        }],
    };
    let mut engine = AnomalyEngine::new();
    engine.add_drift_rule(DriftRule {
        node_type: "x".to_string(),
        property: "score".to_string(),
        min_consecutive: 3,
        severity: number(0.7),
    });
    let find = |values: &[i64]| engine.analyze_batch(&Projection::new(), &vec![history(values)], &EventLog::new(), now());
    // Two changes are too few, three are enough; earlier values do not matter.
    assert!(find(&[1, 2, 3]).is_empty());
    let found = find(&[9, 1, 2, 3, 4]);
    assert_eq!(found.len(), 1);
    match &found[0].kind {
        AnomalyKind::TemporalDrift { data_points, duration_secs, .. } => {
            assert_eq!((*data_points, *duration_secs), (4, 30));
        }
        other => panic!("expected TemporalDrift, got {other:?}"),
    }
    assert!(find(&[1, 2, 3, 3]).is_empty());
}

#[test]
fn quiet_rates_have_no_deviation() {
    let state = CommitRateAnomalyState {
        ewma_rate: number(5.0),
        ewma_variance: number(1.0),
        samples_seen: 9,
        last_observed_at: None,
    };
    let mut model = CommitRateAnomalyModel::with_state(CommitRateAnomalyConfig::default(), state);
    let out = model.evaluate_observation(now(), 50);
    assert_eq!(out.level, AnomalyLevel::Normal);
    assert_eq!(out.direction, Direction::Stable);
    assert_eq!(value_of(out.z_score), 0.0);
}

#[test]
fn anomalies_keep_their_identifier() {
    let anomaly = |missing: &str, severity: f64, at: i64| Anomaly {
        kind: AnomalyKind::StructuralOrphan {
            node_id: NodeId::from_str("n\"1"),
            missing_edge_type: missing.to_string(),
        },
        description: "orphaned".to_string(),
        severity: number(severity),
        affected_nodes: vec![NodeId::from_str("n\"1")],
        trigger_event: None,
        detected_at: Timestamp::at(at),
    };
    let id = anomaly("in_vpc", 0.5, 1).stable_id();
    assert_eq!(id, anomaly("in_vpc", 0.9, 2).stable_id());
    assert_ne!(id, anomaly("in_subnet", 0.5, 1).stable_id());
    let mut hasher = DefaultHasher::new();
    "StructuralOrphan { node_id: NodeId(\"n\\\"1\"), missing_edge_type: \"in_vpc\" }".hash(&mut hasher);
    "n\"1".hash(&mut hasher);
    "orphaned".hash(&mut hasher);
    assert_eq!(id, format!("anom_{:016x}", hasher.finish()));
}
