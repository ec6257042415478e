use hydra_engine::anomaly_rules::{Anomaly, AnomalyKind, DriftDirection};
use hydra_engine::cascade::{CascadeEngine, CascadeResult};
use hydra_engine::event::{Event, EventKind, Stamp};
use hydra_engine::event_log::EventLog;
use hydra_engine::evolution::{ProposalStatus, SubscriptionOutcome, SubscriptionTracker};
use hydra_engine::ids::{Id, SubscriptionId};
use hydra_engine::number::Number;
use hydra_engine::projection::Projection;
use hydra_engine::registry::{EventFilter, Subscription, SubscriptionRegistry};
use hydra_engine::time::Timestamp;
use hydra_engine::value::{Properties, Value};
use std::collections::hash_map::RandomState;
use std::hash::{BuildHasher, Hasher};

fn fresh(prefix: &str) -> Id {
    Id::from_str(&format!("{}_{:016x}", prefix, RandomState::new().build_hasher().finish()))
}

fn stamp() -> Stamp {
    Stamp { id: fresh("evt"), timestamp: Timestamp::at(1_780_000_000) }
}

fn trigger(kind: EventKind) -> Event {
    Event::trigger(kind, stamp(), fresh("casc"))
}

fn number(x: f64) -> Number {
    Number::from_bits(x.to_bits())
}

fn value_of(x: Number) -> f64 {
    f64::from_bits(x.to_bits())
}

fn setup_registry() -> (SubscriptionRegistry, SubscriptionId) {
    let mut registry = SubscriptionRegistry::new();
    let sub = Subscription::new(fresh("sub"), "tagger", EventFilter::NodeCreated, 100);
    let id = sub.id.clone();
    registry.register(sub);
    (registry, id)
}

/// A subscription tags a new node with its name.
fn tag(subscription: &Subscription, event: &Event, _: &Projection) -> Vec<EventKind> {
    let EventKind::NodeCreated { node_id, .. } = &event.kind else {
        return vec![];
    };
    vec![EventKind::NodeUpdated {
        node_id: node_id.clone(),
        changes: Properties::from_pairs(vec![(subscription.name.clone(), Value::Bool(true))]),
    }]
}

fn now() -> Timestamp {
    Timestamp::at(1_780_000_000)
}

fn run_cascade(registry: &SubscriptionRegistry) -> CascadeResult {
    let engine = CascadeEngine::with_defaults();
    let mut proj = Projection::new();
    engine
        .trigger(
            EventKind::NodeCreated {
                node_id: fresh("node"),
                type_id: "ec2".to_string(),
                properties: Properties::new(),
            },
            stamp(),
            fresh("casc"),
            &mut proj,
            registry,
            tag,
            stamp,
        )
        .unwrap()
}

#[test]
fn records_cascade_fires() {
    let (registry, sub_id) = setup_registry();
    let result = run_cascade(&registry);

    let mut tracker = SubscriptionTracker::new();
    tracker.record_cascade(&result, &registry);

    let metrics = tracker.metrics(&sub_id).unwrap();
    assert!(metrics.total_fires > 0);
    assert_eq!(metrics.subscription_name, "tagger");
}

#[test]
fn records_outcomes() {
    let (registry, sub_id) = setup_registry();
    let result = run_cascade(&registry);

    let mut tracker = SubscriptionTracker::new();
    tracker.record_cascade(&result, &registry);

    // Record first fire as a true positive
    assert!(tracker.record_outcome(&sub_id, 0, SubscriptionOutcome::Confirmed));

    let metrics = tracker.metrics(&sub_id).unwrap();
    assert_eq!(metrics.true_positives, 1);
    assert_eq!(metrics.false_positives, 0);
}

#[test]
fn precision_calculation() {
    let (registry, sub_id) = setup_registry();

    let mut tracker = SubscriptionTracker::new();

    // Run 4 cascades
    for _ in 0..4 {
        let result = run_cascade(&registry);
        tracker.record_cascade(&result, &registry);
    }

    let metrics = tracker.metrics(&sub_id).unwrap();
    let fire_count = metrics.fire_log.len();

    // Mark first 3 as confirmed, last 1 as dismissed
    for i in 0..fire_count.saturating_sub(1) {
        tracker.record_outcome(&sub_id, i, SubscriptionOutcome::Confirmed);
    }
    if fire_count > 0 {
        tracker.record_outcome(&sub_id, fire_count - 1, SubscriptionOutcome::Dismissed);
    }

    let metrics = tracker.metrics(&sub_id).unwrap();
    // Precision should reflect the split
    let precision = value_of(metrics.precision().unwrap());
    assert!(precision > 0.0 && precision < 1.0);
}

#[test]
fn no_precision_without_outcomes() {
    let (registry, sub_id) = setup_registry();
    let result = run_cascade(&registry);

    let mut tracker = SubscriptionTracker::new();
    tracker.record_cascade(&result, &registry);

    let metrics = tracker.metrics(&sub_id).unwrap();
    assert!(metrics.precision().is_none());
}

#[test]
fn generates_proposals_for_high_fp_rate() {
    let (registry, sub_id) = setup_registry();

    let mut tracker = SubscriptionTracker::new()
        .with_min_fires(3)
        .with_fp_threshold(number(0.5));

    // Run 5 cascades
    for _ in 0..5 {
        let result = run_cascade(&registry);
        tracker.record_cascade(&result, &registry);
    }

    // Mark all as dismissed (100% false positive rate)
    tracker.record_all_outcomes(&sub_id, SubscriptionOutcome::Dismissed);

    let proposals = tracker.generate_proposals(now());
    assert!(!proposals.is_empty());
    assert_eq!(proposals[0].subscription_id, sub_id);
    assert_eq!(proposals[0].status, ProposalStatus::Proposed);
}

#[test]
fn no_proposals_for_good_subscriptions() {
    let (registry, sub_id) = setup_registry();

    let mut tracker = SubscriptionTracker::new()
        .with_min_fires(3)
        .with_fp_threshold(number(0.5));

    // Run 5 cascades
    for _ in 0..5 {
        let result = run_cascade(&registry);
        tracker.record_cascade(&result, &registry);
    }

    // Mark all as confirmed (0% false positive rate)
    tracker.record_all_outcomes(&sub_id, SubscriptionOutcome::Confirmed);

    let proposals = tracker.generate_proposals(now());
    assert!(proposals.is_empty());
}

#[test]
fn approve_reject_proposals() {
    let (registry, sub_id) = setup_registry();

    let mut tracker = SubscriptionTracker::new()
        .with_min_fires(2)
        .with_fp_threshold(number(0.3));

    for _ in 0..5 {
        let result = run_cascade(&registry);
        tracker.record_cascade(&result, &registry);
    }

    tracker.record_all_outcomes(&sub_id, SubscriptionOutcome::Dismissed);
    tracker.generate_proposals(now());

    assert!(!tracker.pending_proposals().is_empty());

    // Approve the first proposal
    assert!(tracker.approve_proposal(0, now()));
    assert_eq!(tracker.proposals()[0].status, ProposalStatus::Approved);
    assert!(tracker.proposals()[0].resolved_at.is_some());

    // Can't approve again
    assert!(!tracker.approve_proposal(0, now()));
}

#[test]
fn simulate_filter_change() {
    let (registry, sub_id) = setup_registry();

    let mut tracker = SubscriptionTracker::new();
    let mut log = EventLog::new();

    // Run cascades and record events in the log
    for _ in 0..5 {
        let result = run_cascade(&registry);
        tracker.record_cascade(&result, &registry);
        for event in &result.events {
            log.append(event.clone());
        }
    }

    // Mark first 2 fires as confirmed, rest as dismissed
    let metrics = tracker.metrics(&sub_id).unwrap();
    let fire_count = metrics.fire_log.len();
    for i in 0..fire_count.min(2) {
        tracker.record_outcome(&sub_id, i, SubscriptionOutcome::Confirmed);
    }
    for i in 2..fire_count {
        tracker.record_outcome(&sub_id, i, SubscriptionOutcome::Dismissed);
    }

    // Simulate with a more restrictive filter (only ec2 type)
    let narrow_filter = EventFilter::And(vec![
        EventFilter::NodeCreated,
        EventFilter::NodeType("ec2".to_string()),
    ]);

    let sim = tracker.simulate_filter(&sub_id, &narrow_filter, &log);

    // All events were ec2 NodeCreated, so the narrow filter should match all
    assert_eq!(sim.would_match + sim.would_not_match, fire_count as u64);
}

#[test]
fn dont_overwrite_outcomes() {
    let (registry, sub_id) = setup_registry();
    let result = run_cascade(&registry);

    let mut tracker = SubscriptionTracker::new();
    tracker.record_cascade(&result, &registry);

    assert!(tracker.record_outcome(&sub_id, 0, SubscriptionOutcome::Confirmed));
    // Second recording should fail
    assert!(!tracker.record_outcome(&sub_id, 0, SubscriptionOutcome::Dismissed));

    let metrics = tracker.metrics(&sub_id).unwrap();
    assert_eq!(metrics.true_positives, 1);
    assert_eq!(metrics.false_positives, 0);
}

#[test]
fn worst_performers_sorted() {
    let mut registry = SubscriptionRegistry::new();

    let good_sub = Subscription::new(fresh("sub"), "good", EventFilter::NodeCreated, 100);
    let good_id = good_sub.id.clone();
    registry.register(good_sub);

    let bad_sub = Subscription::new(fresh("sub"), "bad", EventFilter::NodeCreated, 50);
    let bad_id = bad_sub.id.clone();
    registry.register(bad_sub);

    let mut tracker = SubscriptionTracker::new();

    for _ in 0..5 {
        let result = run_cascade(&registry);
        tracker.record_cascade(&result, &registry);
    }

    // Good sub: all confirmed. Bad sub: all dismissed.
    tracker.record_all_outcomes(&good_id, SubscriptionOutcome::Confirmed);
    tracker.record_all_outcomes(&bad_id, SubscriptionOutcome::Dismissed);

    let worst = tracker.worst_performers();
    assert!(worst.len() >= 2);
    // Bad sub should be first (highest FP rate)
    assert_eq!(worst[0].subscription_id, bad_id);
}

#[test]
fn empty_tracker() {
    let tracker = SubscriptionTracker::new();
    assert_eq!(tracker.tracked_count(), 0);
    assert!(tracker.all_metrics().is_empty());
    assert!(tracker.worst_performers().is_empty());
    assert!(tracker.proposals().is_empty());
    assert!(tracker.pending_proposals().is_empty());
}

#[test]
fn pending_outcomes_tracking() {
    let (registry, sub_id) = setup_registry();

    let mut tracker = SubscriptionTracker::new();

    for _ in 0..5 {
        let result = run_cascade(&registry);
        tracker.record_cascade(&result, &registry);
    }

    let metrics = tracker.metrics(&sub_id).unwrap();
    let total = metrics.total_fires;
    assert_eq!(metrics.pending_outcomes(), total);

    // Confirm one
    tracker.record_outcome(&sub_id, 0, SubscriptionOutcome::Confirmed);
    let metrics = tracker.metrics(&sub_id).unwrap();
    assert_eq!(metrics.pending_outcomes(), total - 1);
}

#[test]
fn no_duplicate_proposals() {
    let (registry, sub_id) = setup_registry();

    let mut tracker = SubscriptionTracker::new()
        .with_min_fires(2)
        .with_fp_threshold(number(0.3));

    for _ in 0..5 {
        let result = run_cascade(&registry);
        tracker.record_cascade(&result, &registry);
    }

    tracker.record_all_outcomes(&sub_id, SubscriptionOutcome::Dismissed);

    // Generate proposals twice — should not create duplicates
    let p1 = tracker.generate_proposals(now());
    assert_eq!(p1.len(), 1);

    let p2 = tracker.generate_proposals(now());
    assert_eq!(p2.len(), 0); // Already has a pending proposal

    assert_eq!(tracker.proposals().len(), 1);
}

#[test]
fn full_evolution_loop() {
    let (registry, sub_id) = setup_registry();

    let mut tracker = SubscriptionTracker::new()
        .with_min_fires(3)
        .with_fp_threshold(number(0.4));

    // Phase 1: Accumulate data
    for _ in 0..10 {
        let result = run_cascade(&registry);
        tracker.record_cascade(&result, &registry);
    }

    // Phase 2: Human provides feedback (mostly false positives)
    let fire_count = tracker.metrics(&sub_id).unwrap().fire_log.len();
    for i in 0..fire_count {
        if i < 2 {
            tracker.record_outcome(&sub_id, i, SubscriptionOutcome::Confirmed);
        } else {
            tracker.record_outcome(&sub_id, i, SubscriptionOutcome::Dismissed);
        }
    }

    // Phase 3: System generates proposals
    let proposals = tracker.generate_proposals(now());
    assert!(!proposals.is_empty(), "Should propose changes for high FP sub");

    // Phase 4: Human approves
    assert!(tracker.approve_proposal(0, now()));

    // Phase 5: Verify state
    assert_eq!(tracker.proposals()[0].status, ProposalStatus::Approved);
    assert!(tracker.pending_proposals().is_empty());

    // Metrics should still be queryable
    let metrics = tracker.metrics(&sub_id).unwrap();
    assert!(metrics.precision().is_some());
    let precision = value_of(metrics.precision().unwrap());
    assert!(precision < 0.5, "Precision should be low: {}", precision);
}

#[test]
fn records_miss() {
    let (registry, sub_id) = setup_registry();
    let result = run_cascade(&registry);

    let mut tracker = SubscriptionTracker::new();
    tracker.record_cascade(&result, &registry);

    // Record a missed event
    let missed_event_id = fresh("evt");
    assert!(tracker.record_miss(&sub_id, missed_event_id.clone(), Some("incident #42".into()), now()));

    let metrics = tracker.metrics(&sub_id).unwrap();
    assert_eq!(metrics.false_negatives, 1);
    assert_eq!(metrics.miss_log.len(), 1);
    assert_eq!(metrics.miss_log[0].missed_event_id, missed_event_id);
    assert_eq!(metrics.miss_log[0].reason, Some("incident #42".into()));
}

#[test]
fn recall_calculation() {
    let (registry, sub_id) = setup_registry();

    let mut tracker = SubscriptionTracker::new();

    // Run cascades and mark as confirmed (true positives)
    for _ in 0..3 {
        let result = run_cascade(&registry);
        tracker.record_cascade(&result, &registry);
    }
    tracker.record_all_outcomes(&sub_id, SubscriptionOutcome::Confirmed);

    let metrics = tracker.metrics(&sub_id).unwrap();
    let tp = metrics.true_positives;

    // No misses → recall is 100%
    assert_eq!(metrics.recall(), Some(number(1.0)));

    // Record 1 miss
    tracker.record_miss(&sub_id, fresh("evt"), None, now());

    let metrics = tracker.metrics(&sub_id).unwrap();
    // recall = TP / (TP + FN) = tp / (tp + 1)
    let expected = tp as f64 / (tp as f64 + 1.0);
    assert!((value_of(metrics.recall().unwrap()) - expected).abs() < 0.001);
}

#[test]
fn no_recall_without_data() {
    let tracker = SubscriptionTracker::new();
    // Unknown subscription → no metrics
    let id = fresh("sub");
    assert!(tracker.metrics(&id).is_none());
}

#[test]
fn duplicate_miss_rejected() {
    let mut tracker = SubscriptionTracker::new();
    let sub_id = fresh("sub");
    let event_id = fresh("evt");

    assert!(tracker.record_miss(&sub_id, event_id.clone(), None, now()));
    assert!(!tracker.record_miss(&sub_id, event_id.clone(), None, now()));

    let metrics = tracker.metrics(&sub_id).unwrap();
    assert_eq!(metrics.false_negatives, 1);
}

#[test]
fn miss_on_untracked_sub_initializes() {
    let mut tracker = SubscriptionTracker::new();
    let sub_id = fresh("sub");

    // No fires recorded, but we can still record a miss
    assert!(tracker.record_miss(&sub_id, fresh("evt"), None, now()));
    assert_eq!(tracker.tracked_count(), 1);

    let metrics = tracker.metrics(&sub_id).unwrap();
    assert_eq!(metrics.total_fires, 0);
    assert_eq!(metrics.false_negatives, 1);
    // recall = 0 / (0 + 1) = 0
    assert_eq!(metrics.recall(), Some(number(0.0)));
}

#[test]
fn autonomous_false_negative_detection() {
    let (registry, sub_id) = setup_registry();
    let mut tracker = SubscriptionTracker::new();
    let mut log = EventLog::new();

    // Create an event that the subscription WOULD match (NodeCreated)
    // but we DON'T run it through the cascade — so no fire is recorded
    let node_id = fresh("node");
    let event = trigger(EventKind::NodeCreated {
        node_id: node_id.clone(),
        type_id: "ec2".to_string(),
        properties: Properties::new(),
    });
    log.append(event.clone());

    // Simulate an anomaly detected on this node, referencing the event
    let anomaly = Anomaly {
        kind: AnomalyKind::StructuralOrphan {
            node_id: node_id.clone(),
            missing_edge_type: "in_vpc".to_string(),
        },
        description: "ec2 orphaned".to_string(),
        severity: number(0.8),
        affected_nodes: vec![node_id.clone()],
        trigger_event: Some(event.id.clone()),
        detected_at: Timestamp::at(1_780_000_000),
    };

    // Correlate: the subscription's filter matches NodeCreated,
    // and the anomaly's trigger event is a NodeCreated → should detect FN
    let misses = tracker.correlate_anomalies(&vec![anomaly], &log, &registry, number(0.5), now());

    assert!(misses > 0, "Should detect autonomous false negative");

    let metrics = tracker.metrics(&sub_id).unwrap();
    assert!(metrics.false_negatives > 0);
    assert_eq!(metrics.miss_log.len(), metrics.false_negatives as usize);
    assert!(metrics.miss_log[0].reason.as_ref().unwrap().contains("Autonomous"));
}

#[test]
fn no_fn_when_subscription_fired() {
    let (registry, sub_id) = setup_registry();
    let mut tracker = SubscriptionTracker::new();
    let mut log = EventLog::new();

    // Run a cascade — subscription fires and is recorded
    let result = run_cascade(&registry);
    tracker.record_cascade(&result, &registry);
    for event in &result.events {
        log.append(event.clone());
    }

    // Now an anomaly is detected on the same event
    let trigger_event = &result.events[0];
    let anomaly = Anomaly {
        kind: AnomalyKind::CascadeAmplification {
            cascade_event_count: 100,
            cascade_depth: 10,
            normal_max_count: 5,
            normal_max_depth: 3,
        },
        description: "cascade too big".to_string(),
        severity: number(0.9),
        affected_nodes: vec![],
        trigger_event: Some(trigger_event.id.clone()),
        detected_at: Timestamp::at(1_780_000_000),
    };

    // Correlate: subscription DID fire → no false negative
    let misses = tracker.correlate_anomalies(&vec![anomaly], &log, &registry, number(0.5), now());
    assert_eq!(misses, 0);

    let metrics = tracker.metrics(&sub_id).unwrap();
    assert_eq!(metrics.false_negatives, 0);
}

#[test]
fn anomaly_below_threshold_ignored() {
    let (registry, _sub_id) = setup_registry();
    let mut tracker = SubscriptionTracker::new();
    let mut log = EventLog::new();

    let event = trigger(EventKind::NodeCreated {
        node_id: fresh("node"),
        type_id: "ec2".to_string(),
        properties: Properties::new(),
    });
    log.append(event.clone());

    let anomaly = Anomaly {
        kind: AnomalyKind::StructuralOrphan {
            node_id: fresh("node"),
            missing_edge_type: "x".to_string(),
        },
        description: "low severity".to_string(),
        severity: number(0.2), // Below threshold
        affected_nodes: vec![],
        trigger_event: Some(event.id.clone()),
        detected_at: Timestamp::at(1_780_000_000),
    };

    let misses = tracker.correlate_anomalies(&vec![anomaly], &log, &registry, number(0.5), now());
    assert_eq!(misses, 0);
}

#[test]
fn anomaly_with_affected_nodes_only() {
    let (registry, sub_id) = setup_registry();
    let mut tracker = SubscriptionTracker::new();
    let mut log = EventLog::new();

    let node_id = fresh("node");
    let event = trigger(EventKind::NodeCreated {
        node_id: node_id.clone(),
        type_id: "ec2".to_string(),
        properties: Properties::new(),
    });
    log.append(event.clone());

    // Anomaly with affected_nodes but no trigger_event (batch-detected)
    let anomaly = Anomaly {
        kind: AnomalyKind::TemporalDrift {
            node_id: node_id.clone(),
            property: "trust".to_string(),
            direction: DriftDirection::Decreasing,
            data_points: 10,
            duration_secs: 3600,
        },
        description: "trust drifting".to_string(),
        severity: number(0.7),
        affected_nodes: vec![node_id.clone()],
        trigger_event: None, // No trigger — batch detected
        detected_at: Timestamp::at(1_780_000_000),
    };

    let misses = tracker.correlate_anomalies(&vec![anomaly], &log, &registry, number(0.5), now());
    assert!(misses > 0, "Should find events on affected nodes and detect FN");

    let metrics = tracker.metrics(&sub_id).unwrap();
    assert!(metrics.false_negatives > 0);
}

#[test]
fn apply_mutation_changes_filter() {
    let (mut registry, sub_id) = setup_registry();

    let mut tracker = SubscriptionTracker::new()
        .with_min_fires(2)
        .with_fp_threshold(number(0.3));

    // Run cascades and dismiss all → high FP rate
    for _ in 0..5 {
        let result = run_cascade(&registry);
        tracker.record_cascade(&result, &registry);
    }
    tracker.record_all_outcomes(&sub_id, SubscriptionOutcome::Dismissed);

    // Generate proposals
    tracker.generate_proposals(now());
    assert!(!tracker.proposals().is_empty());

    // Approve the proposal
    assert!(tracker.approve_proposal(0, now()));

    // Set a proposed filter on the proposal (normally generate_proposals or
    // simulate_filter would set this, but for the test we set it directly)
    tracker.proposals[0].proposed_filter = Some(EventFilter::And(vec![
        EventFilter::NodeCreated,
        EventFilter::NodeType("ec2".to_string()),
    ]));

    // Apply it
    assert!(tracker.apply_mutation(0, &mut registry, now()));
    assert_eq!(tracker.proposals()[0].status, ProposalStatus::Applied);

    // Verify the filter actually changed in the registry
    let sub = registry.get(&sub_id).unwrap();
    assert!(matches!(sub.filter, EventFilter::And(_)));
}

#[test]
fn apply_mutation_fails_if_not_approved() {
    let (mut registry, sub_id) = setup_registry();

    let mut tracker = SubscriptionTracker::new()
        .with_min_fires(2)
        .with_fp_threshold(number(0.3));

    for _ in 0..5 {
        let result = run_cascade(&registry);
        tracker.record_cascade(&result, &registry);
    }
    tracker.record_all_outcomes(&sub_id, SubscriptionOutcome::Dismissed);
    tracker.generate_proposals(now());

    // Still in Proposed status — not approved
    tracker.proposals[0].proposed_filter = Some(EventFilter::NodeDeleted);
    assert!(!tracker.apply_mutation(0, &mut registry, now()));

    // Filter unchanged
    let sub = registry.get(&sub_id).unwrap();
    assert!(matches!(sub.filter, EventFilter::NodeCreated));
}

#[test]
fn apply_mutation_fails_without_proposed_filter() {
    let (mut registry, sub_id) = setup_registry();

    let mut tracker = SubscriptionTracker::new()
        .with_min_fires(2)
        .with_fp_threshold(number(0.3));

    for _ in 0..5 {
        let result = run_cascade(&registry);
        tracker.record_cascade(&result, &registry);
    }
    tracker.record_all_outcomes(&sub_id, SubscriptionOutcome::Dismissed);
    tracker.generate_proposals(now());
    tracker.approve_proposal(0, now());

    // proposed_filter is None (default from generate_proposals)
    assert!(!tracker.apply_mutation(0, &mut registry, now()));
    assert_eq!(tracker.proposals()[0].status, ProposalStatus::Approved); // unchanged
}

#[test]
fn registry_set_filter() {
    let (mut registry, sub_id) = setup_registry();

    // The filter is NodeCreated
    let sub = registry.get(&sub_id).unwrap();
    assert!(matches!(sub.filter, EventFilter::NodeCreated));

    // Change it
    assert!(registry.set_filter(&sub_id, EventFilter::NodeDeleted));

    // Verify
    let sub = registry.get(&sub_id).unwrap();
    assert!(matches!(sub.filter, EventFilter::NodeDeleted));

    // Non-existent ID fails
    assert!(!registry.set_filter(&fresh("sub"), EventFilter::Any));
}

#[test]
fn reactions_count_for_their_own_subscription() {
    let mut registry = SubscriptionRegistry::new();
    let (a, b): (SubscriptionId, SubscriptionId) = (Id::from_str("sub_a"), Id::from_str("sub_b"));
    registry.register(Subscription::new(a.clone(), "a", EventFilter::NodeCreated, 100));
    registry.register(Subscription::new(b.clone(), "b", EventFilter::NodeCreated, 50));
    let result = run_cascade(&registry);
    assert_eq!(result.events.len(), 3);
    assert_eq!(result.produced_by, vec![None, Some(a.clone()), Some(b.clone())]);
    let mut tracker = SubscriptionTracker::new();
    tracker.record_cascade(&result, &registry);
    for id in [&a, &b] {
        let metrics = tracker.metrics(id).unwrap();
        assert_eq!(metrics.total_fires, 1);
        assert_eq!(metrics.total_reactions, 1);
        assert_eq!(metrics.fire_log.len(), 1);
        assert_eq!(metrics.fire_log[0].reaction_count, 1);
    }
}

#[test]
fn committed_events_count_for_all_that_fired_on_their_cause() {
    let mut registry = SubscriptionRegistry::new();
    let (a, b): (SubscriptionId, SubscriptionId) = (Id::from_str("sub_a"), Id::from_str("sub_b"));
    registry.register(Subscription::new(a.clone(), "a", EventFilter::NodeCreated, 100));
    registry.register(Subscription::new(b.clone(), "b", EventFilter::NodeCreated, 50));
    let result = CascadeResult::from_committed_events(run_cascade(&registry).events);
    assert!(result.produced_by.is_empty());
    let mut tracker = SubscriptionTracker::new();
    tracker.record_cascade(&result, &registry);
    for id in [&a, &b] {
        let metrics = tracker.metrics(id).unwrap();
        assert_eq!(metrics.total_fires, 1);
        assert_eq!(metrics.total_reactions, 2);
        assert_eq!(metrics.fire_log[0].reaction_count, 2);
    }
}

#[test]
fn a_fire_on_one_event_of_an_anomaly_is_no_miss() {
    let (registry, sub_id) = setup_registry();
    let create = |id: &str, parents: Vec<Id>| {
        let mut event = Event::trigger(
            EventKind::NodeCreated {
                node_id: Id::from_str("node_a"),
                type_id: "ec2".to_string(),
                properties: Properties::new(),
            },
            Stamp { id: Id::from_str(id), timestamp: now() },
            Id::from_str("casc"),
        );
        event.caused_by = parents;
        event
    };
    let mut log = EventLog::new();
    log.append(create("e1", vec![]));
    log.append(create("e2", vec![Id::from_str("e1")]));
    let anomaly = || Anomaly {
        kind: AnomalyKind::StructuralOrphan {
            node_id: Id::from_str("node_a"),
            missing_edge_type: "in_vpc".to_string(),
        },
        description: "orphan".to_string(),
        severity: number(0.9),
        affected_nodes: vec![],
        trigger_event: Some(Id::from_str("e2")),
        detected_at: now(),
    };
    // Without any fire both events are missed, under the name that is registered.
    let mut tracker = SubscriptionTracker::new();
    assert_eq!(tracker.correlate_anomalies(&vec![anomaly()], &log, &registry, number(0.5), now()), 2);
    assert_eq!(tracker.metrics(&sub_id).unwrap().subscription_name, "tagger");
    // With a fire on the first neither is.
    let mut tracker = SubscriptionTracker::new();
    let result = CascadeResult {
        events: vec![create("e1", vec![])],
        mutations: 1,
        max_depth_reached: 0,
        truncated: false,
        produced_by: vec![None],
    };
    tracker.record_cascade(&result, &registry);
    assert_eq!(tracker.correlate_anomalies(&vec![anomaly()], &log, &registry, number(0.5), now()), 0);
    // A trigger that was never logged still leads to the events that name it as a cause.
    let mut log = EventLog::new();
    log.append(create("e2", vec![Id::from_str("e1")]));
    let unlogged = Anomaly { trigger_event: Some(Id::from_str("e1")), ..anomaly() };
    let mut tracker = SubscriptionTracker::new();
    assert_eq!(tracker.correlate_anomalies(&vec![unlogged], &log, &registry, number(0.5), now()), 1);
}
