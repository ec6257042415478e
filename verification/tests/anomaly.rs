use hydra_engine::anomaly::AnomalyEngine;
use hydra_engine::anomaly_rules::{AnomalyKind, CascadeRule, ChangeRateRule, CounterfactualRule, DriftDirection, DriftRule, NodeHistory, PatternRule, PropertyHistory, PropertyPredicate, PropertyVersion, TimeWindowRule, TopologyRule, detect_monotonic_trend, is_in_time_window};
use hydra_engine::cascade::CascadeResult;
use hydra_engine::event::{Event, EventKind, Stamp};
use hydra_engine::event_log::EventLog;
use hydra_engine::graph::Node;
use hydra_engine::ids::{EdgeId, Id, NodeId};
use hydra_engine::number::Number;
use hydra_engine::projection::Projection;
use hydra_engine::time::Timestamp;
use hydra_engine::value::{Properties, Value};
use std::collections::hash_map::RandomState;
use std::hash::{BuildHasher, Hasher};

fn fresh(prefix: &str) -> Id {
    Id::from_str(&format!("{}_{:016x}", prefix, RandomState::new().build_hasher().finish()))
}

fn stamp() -> Stamp {
    Stamp { id: fresh("evt"), timestamp: Timestamp::at(1_780_000_000) }
}

fn trigger(kind: EventKind) -> Event {
    Event::trigger(kind, stamp(), fresh("casc"))
}

fn reaction(kind: EventKind, parent: &Event) -> Event {
    Event::reaction(kind, parent, stamp())
}

fn float(x: f64) -> Value {
    Value::Float(Number::from_bits(x.to_bits()))
}

fn number(x: f64) -> Number {
    Number::from_bits(x.to_bits())
}

fn value_of(x: Number) -> f64 {
    f64::from_bits(x.to_bits())
}

fn moment(milliseconds: i64) -> Timestamp {
    let total = 1_780_000_000_000 + milliseconds;
    Timestamp { seconds: total.div_euclid(1000), nanos: total.rem_euclid(1000) as u32 * 1_000_000 }
}

fn at_hour(hour: i64) -> Timestamp {
    // 2025-06-15
    Timestamp::at(1_749_945_600 + hour * 3600)
}

fn version(effective_from: Timestamp, value: Value) -> PropertyVersion {
    PropertyVersion { effective_from, value }
}

fn record(histories: &mut Vec<NodeHistory>, event: &Event) {
    let (node_id, properties) = match &event.kind {
        EventKind::NodeCreated { node_id, type_id, properties } => {
            histories.push(NodeHistory {
                node_id: node_id.clone(),
                type_id: type_id.clone(),
                properties: Vec::new(),
            });
            (node_id, properties)
        }
        EventKind::NodeUpdated { node_id, changes } => (node_id, changes),
        _ => return,
    };
    let Some(history) = histories.iter_mut().find(|h| h.node_id == *node_id) else {
        return;
    };
    for i in 0..properties.len() {
        let name = properties.name_at(i);
        let next = version(event.timestamp, properties.value_at(i).clone());
        match history.properties.iter_mut().find(|p| p.property == *name) {
            Some(known) => known.versions.push(next),
            None => history.properties.push(PropertyHistory { property: name.clone(), versions: vec![next] }),
        }
    }
}

struct TestEnv {
    proj: Projection,
    log: EventLog,
    histories: Vec<NodeHistory>,
}

impl TestEnv {
    fn new() -> Self {
        Self {
            proj: Projection::new(),
            log: EventLog::new(),
            histories: Vec::new(),
        }
    }

    fn ingest(&mut self, event: Event) -> Event {
        let _ = self.proj.apply(&event);
        self.log.append(event.clone());
        record(&mut self.histories, &event);
        event
    }

    fn create_node(&mut self, type_id: &str) -> (NodeId, Event) {
        let node_id = fresh("node");
        let event = trigger(EventKind::NodeCreated {
            node_id: node_id.clone(),
            type_id: type_id.to_string(),
            properties: Properties::new(),
        });
        let event = self.ingest(event);
        (node_id, event)
    }

    fn create_node_with_props(
        &mut self,
        type_id: &str,
        props: Properties,
    ) -> (NodeId, Event) {
        let node_id = fresh("node");
        let event = trigger(EventKind::NodeCreated {
            node_id: node_id.clone(),
            type_id: type_id.to_string(),
            properties: props,
        });
        let event = self.ingest(event);
        (node_id, event)
    }

    fn create_edge(
        &mut self,
        source: &NodeId,
        target: &NodeId,
        type_id: &str,
    ) -> (EdgeId, Event) {
        let edge_id = fresh("edge");
        let event = trigger(EventKind::EdgeCreated {
            edge_id: edge_id.clone(),
            source: source.clone(),
            target: target.clone(),
            type_id: type_id.to_string(),
            properties: Properties::new(),
        });
        let event = self.ingest(event);
        (edge_id, event)
    }

    fn update_at(
        &mut self,
        node_id: &NodeId,
        changes: Properties,
        timestamp: Timestamp,
        parent: &Event,
    ) -> Event {
        let mut event = reaction(
            EventKind::NodeUpdated {
                node_id: node_id.clone(),
                changes,
            },
            parent,
        );
        event.timestamp = timestamp;
        self.ingest(event)
    }
}

#[test]
fn detects_cascade_amplification() {
    let engine = AnomalyEngine::new().with_cascade_rule(CascadeRule {
        max_event_count: 5,
        max_depth: 3,
        severity: number(0.8),
    });

    // Simulate a large cascade result
    let mut events = Vec::new();
    for _ in 0..10 {
        events.push(trigger(EventKind::Signal {
            name: "test".to_string(),
            source: fresh("node"),
            payload: Properties::new(),
        }));
    }

    let result = CascadeResult {
        events,
        mutations: 0,
        max_depth_reached: 5,
        truncated: false,
        produced_by: vec![],
    };

    let proj = Projection::new();
    let anomalies = engine.analyze_cascade(&result, &proj, moment(0));

    assert_eq!(anomalies.len(), 1);
    assert!(matches!(
        anomalies[0].kind,
        AnomalyKind::CascadeAmplification { cascade_event_count: 10, cascade_depth: 5, .. }
    ));
    assert!((value_of(anomalies[0].severity) - 0.8).abs() < f64::EPSILON);
}

#[test]
fn normal_cascade_no_anomaly() {
    let engine = AnomalyEngine::new();

    let result = CascadeResult {
        events: vec![trigger(EventKind::Signal {
            name: "ok".to_string(),
            source: fresh("node"),
            payload: Properties::new(),
        })],
        mutations: 1,
        max_depth_reached: 0,
        truncated: false,
        produced_by: vec![],
    };

    let proj = Projection::new();
    let anomalies = engine.analyze_cascade(&result, &proj, moment(0));
    assert!(anomalies.is_empty());
}

#[test]
fn detects_topology_violation() {
    let mut env = TestEnv::new();
    let (ec2, _) = env.create_node("ec2");
    let (_vpc, _) = env.create_node("vpc");
    // ec2 has NO "in_vpc" edge — violates the rule

    let mut engine = AnomalyEngine::new();
    engine.add_topology_rule(TopologyRule {
        node_type: "ec2".to_string(),
        edge_type: "in_vpc".to_string(),
        min_degree: 1,
        max_degree: 5,
        severity: number(0.6),
    });

    let anomalies = engine.analyze_batch(&env.proj, &env.histories, &env.log, moment(0));
    assert_eq!(anomalies.len(), 1);
    assert!(matches!(
        &anomalies[0].kind,
        AnomalyKind::StructuralOrphan { node_id, missing_edge_type }
        if *node_id == ec2 && missing_edge_type == "in_vpc"
    ));
}

#[test]
fn topology_satisfied_no_anomaly() {
    let mut env = TestEnv::new();
    let (ec2, _) = env.create_node("ec2");
    let (vpc, _) = env.create_node("vpc");
    env.create_edge(&ec2, &vpc, "in_vpc");

    let mut engine = AnomalyEngine::new();
    engine.add_topology_rule(TopologyRule {
        node_type: "ec2".to_string(),
        edge_type: "in_vpc".to_string(),
        min_degree: 1,
        max_degree: 5,
        severity: number(0.6),
    });

    let anomalies = engine.analyze_batch(&env.proj, &env.histories, &env.log, moment(0));
    assert!(anomalies.is_empty());
}

#[test]
fn detects_too_many_edges() {
    let mut env = TestEnv::new();
    let (admin, _) = env.create_node("admin");

    // Create 10 resources connected to admin
    for _ in 0..10 {
        let (resource, _) = env.create_node("resource");
        env.create_edge(&admin, &resource, "has_permission");
    }

    let mut engine = AnomalyEngine::new();
    engine.add_topology_rule(TopologyRule {
        node_type: "admin".to_string(),
        edge_type: "has_permission".to_string(),
        min_degree: 1,
        max_degree: 5,
        severity: number(0.9),
    });

    let anomalies = engine.analyze_batch(&env.proj, &env.histories, &env.log, moment(0));
    assert_eq!(anomalies.len(), 1);
    assert!(matches!(
        &anomalies[0].kind,
        AnomalyKind::TopologyDegree { actual: 10, expected_max: 5, .. }
    ));
}

#[test]
fn detects_monotonic_drift() {
    let mut env = TestEnv::new();

    let (n, e0) = env.create_node_with_props(
        "ec2",
        Properties::from_pairs(vec![("trust_score".into(), Value::Int(100))]),
    );

    // Simulate decreasing trust score over 5 updates
    let mut prev = e0;
    for i in 1..=5 {
        let ts = moment(i * 100);
        prev = env.update_at(
            &n,
            Properties::from_pairs(vec![("trust_score".into(), Value::Int(100 - i * 10))]),
            ts,
            &prev,
        );
    }

    let mut engine = AnomalyEngine::new();
    engine.add_drift_rule(DriftRule {
        node_type: "ec2".to_string(),
        property: "trust_score".to_string(),
        min_consecutive: 4,
        severity: number(0.7),
    });

    let anomalies = engine.analyze_batch(&env.proj, &env.histories, &env.log, moment(0));
    assert_eq!(anomalies.len(), 1);
    assert!(matches!(
        &anomalies[0].kind,
        AnomalyKind::TemporalDrift { direction: DriftDirection::Decreasing, .. }
    ));
}

#[test]
fn no_drift_when_oscillating() {
    let mut env = TestEnv::new();

    let (n, e0) = env.create_node_with_props(
        "ec2",
        Properties::from_pairs(vec![("trust_score".into(), Value::Int(50))]),
    );

    // Oscillating: 50, 60, 50, 60, 50
    let values = [60, 50, 60, 50];
    let mut prev = e0;
    for (i, &val) in values.iter().enumerate() {
        let ts = moment((i as i64 + 1) * 100);
        prev = env.update_at(
            &n,
            Properties::from_pairs(vec![("trust_score".into(), Value::Int(val))]),
            ts,
            &prev,
        );
    }

    let mut engine = AnomalyEngine::new();
    engine.add_drift_rule(DriftRule {
        node_type: "ec2".to_string(),
        property: "trust_score".to_string(),
        min_consecutive: 3,
        severity: number(0.7),
    });

    let anomalies = engine.analyze_batch(&env.proj, &env.histories, &env.log, moment(0));
    assert!(anomalies.is_empty());
}

#[test]
fn detects_change_rate_anomaly() {
    let mut env = TestEnv::new();

    let (n, e0) = env.create_node_with_props(
        "ec2",
        Properties::from_pairs(vec![("counter".into(), Value::Int(0))]),
    );

    // 20 rapid changes in the recent past (well within detection window)
    let mut prev = e0;
    let base = -60_000; // 60 seconds ago
    for i in 1..=20 {
        let ts = moment(base + i);
        prev = env.update_at(
            &n,
            Properties::from_pairs(vec![("counter".into(), Value::Int(i))]),
            ts,
            &prev,
        );
    }

    let mut engine = AnomalyEngine::new();
    engine.add_change_rate_rule(ChangeRateRule {
        node_type: "ec2".to_string(),
        max_changes: 5,
        window_secs: 3600, // 1 hour
        severity: number(0.8),
    });

    let anomalies = engine.analyze_batch(&env.proj, &env.histories, &env.log, moment(0));
    assert_eq!(anomalies.len(), 1);
    assert!(matches!(
        &anomalies[0].kind,
        AnomalyKind::ChangeRateAnomaly { normal_max: 5, .. }
    ));
}

#[test]
fn no_rules_no_anomalies() {
    let env = TestEnv::new();
    let engine = AnomalyEngine::new();

    let anomalies = engine.analyze_batch(&env.proj, &env.histories, &env.log, moment(0));
    assert!(anomalies.is_empty());
}

#[test]
fn realtime_topology_check_on_affected_nodes() {
    let mut env = TestEnv::new();
    let (ec2, _) = env.create_node("ec2");
    // ec2 has no VPC edge

    let mut engine = AnomalyEngine::new();
    engine.add_topology_rule(TopologyRule {
        node_type: "ec2".to_string(),
        edge_type: "in_vpc".to_string(),
        min_degree: 1,
        max_degree: 5,
        severity: number(0.6),
    });

    // Simulate a cascade result that affects this ec2 node
    let cascade_result = CascadeResult {
        events: vec![trigger(EventKind::NodeUpdated {
            node_id: ec2.clone(),
            changes: Properties::from_pairs(vec![("state".into(), Value::String("running".into()))]),
        })],
        mutations: 1,
        max_depth_reached: 0,
        truncated: false,
        produced_by: vec![],
    };

    let anomalies = engine.analyze_cascade(&cascade_result, &env.proj, moment(0));
    assert_eq!(anomalies.len(), 1);
    assert!(matches!(
        &anomalies[0].kind,
        AnomalyKind::TopologyDegree { actual: 0, .. }
    ));
}

#[test]
fn multiple_violations_detected() {
    let mut env = TestEnv::new();
    let (_ec2, _) = env.create_node("ec2"); // No VPC edge
    let (_rds, _) = env.create_node("rds"); // No VPC edge

    let mut engine = AnomalyEngine::new();
    engine.add_topology_rule(TopologyRule {
        node_type: "ec2".to_string(),
        edge_type: "in_vpc".to_string(),
        min_degree: 1,
        max_degree: 5,
        severity: number(0.6),
    });
    engine.add_topology_rule(TopologyRule {
        node_type: "rds".to_string(),
        edge_type: "in_vpc".to_string(),
        min_degree: 1,
        max_degree: 3,
        severity: number(0.7),
    });

    let anomalies = engine.analyze_batch(&env.proj, &env.histories, &env.log, moment(0));
    assert_eq!(anomalies.len(), 2);
}

#[test]
fn rule_count_tracks_all_rule_types() {
    let mut engine = AnomalyEngine::new(); // 1 cascade rule (default)
    assert_eq!(engine.rule_count(), 1);

    engine.add_topology_rule(TopologyRule {
        node_type: "ec2".to_string(),
        edge_type: "in_vpc".to_string(),
        min_degree: 1,
        max_degree: 5,
        severity: number(0.6),
    });
    assert_eq!(engine.rule_count(), 2);

    engine.add_drift_rule(DriftRule {
        node_type: "ec2".to_string(),
        property: "trust_score".to_string(),
        min_consecutive: 5,
        severity: number(0.7),
    });
    assert_eq!(engine.rule_count(), 3);

    engine.add_change_rate_rule(ChangeRateRule {
        node_type: "ec2".to_string(),
        max_changes: 10,
        window_secs: 3600,
        severity: number(0.5),
    });
    assert_eq!(engine.rule_count(), 4);
}

#[test]
fn monotonic_trend_detection() {
    let now = moment(0);

    // Increasing
    let increasing = vec![
        version(now, Value::Int(1)),
        version(moment(1000), Value::Int(2)),
        version(moment(2000), Value::Int(3)),
    ];
    assert_eq!(detect_monotonic_trend(&increasing), Some(DriftDirection::Increasing));

    // Decreasing
    let decreasing = vec![
        version(now, float(3.0)),
        version(moment(1000), float(2.0)),
        version(moment(2000), float(1.0)),
    ];
    assert_eq!(detect_monotonic_trend(&decreasing), Some(DriftDirection::Decreasing));

    // Not monotonic
    let zigzag = vec![
        version(now, Value::Int(1)),
        version(moment(1000), Value::Int(3)),
        version(moment(2000), Value::Int(2)),
    ];
    assert_eq!(detect_monotonic_trend(&zigzag), None);

    // Non-numeric
    let strings = vec![
        version(now, Value::String("a".into())),
        version(moment(1000), Value::String("b".into())),
    ];
    assert_eq!(detect_monotonic_trend(&strings), None);

    // Single point
    let single = vec![version(now, Value::Int(1))];
    assert_eq!(detect_monotonic_trend(&single), None);

    // Empty
    assert_eq!(detect_monotonic_trend(&[]), None);
}

#[test]
fn time_window_normal_range() {
    // 2am-4am window
    assert!(is_in_time_window(2, 2, 4));
    assert!(is_in_time_window(3, 2, 4));
    assert!(is_in_time_window(4, 2, 4));
    assert!(!is_in_time_window(1, 2, 4));
    assert!(!is_in_time_window(5, 2, 4));
    assert!(!is_in_time_window(14, 2, 4));
}

#[test]
fn time_window_wraparound() {
    // 10pm-4am window (22-4, crosses midnight)
    assert!(is_in_time_window(22, 22, 4));
    assert!(is_in_time_window(23, 22, 4));
    assert!(is_in_time_window(0, 22, 4));
    assert!(is_in_time_window(3, 22, 4));
    assert!(is_in_time_window(4, 22, 4));
    assert!(!is_in_time_window(5, 22, 4));
    assert!(!is_in_time_window(14, 22, 4));
    assert!(!is_in_time_window(21, 22, 4));
}

#[test]
fn detects_time_window_violation() {
    let mut env = TestEnv::new();

    // Create a node with a change at 2pm UTC (hour 14) — outside a 2am-4am window
    let n = fresh("node");
    let at_2pm = at_hour(14);
    let create_event = {
        let mut e = trigger(EventKind::NodeCreated {
            node_id: n.clone(),
            type_id: "backup_job".to_string(),
            properties: Properties::from_pairs(vec![("status".into(), Value::String("complete".into()))]),
        });
        e.timestamp = at_2pm;
        e
    };
    env.ingest(create_event);

    let mut engine = AnomalyEngine::new();
    engine.add_time_window_rule(TimeWindowRule {
        node_type: "backup_job".to_string(),
        start_hour: 2,
        end_hour: 4,
        tolerance: 0,
        lookback_secs: 0, // all history
        severity: number(0.8),
    });

    let anomalies = engine.analyze_batch(&env.proj, &env.histories, &env.log, moment(0));
    assert_eq!(anomalies.len(), 1);
    assert!(matches!(
        &anomalies[0].kind,
        AnomalyKind::TimeWindowViolation {
            change_hour: 14,
            expected_start_hour: 2,
            expected_end_hour: 4,
            violations: 1,
            ..
        }
    ));
}

#[test]
fn no_violation_when_in_window() {
    let mut env = TestEnv::new();
    let n = fresh("node");

    // Change at 3am UTC — inside 2am-4am window
    let at_3am = at_hour(3);
    let create_event = {
        let mut e = trigger(EventKind::NodeCreated {
            node_id: n.clone(),
            type_id: "backup_job".to_string(),
            properties: Properties::from_pairs(vec![("status".into(), Value::String("complete".into()))]),
        });
        e.timestamp = at_3am;
        e
    };
    env.ingest(create_event);

    let mut engine = AnomalyEngine::new();
    engine.add_time_window_rule(TimeWindowRule {
        node_type: "backup_job".to_string(),
        start_hour: 2,
        end_hour: 4,
        tolerance: 0,
        lookback_secs: 0,
        severity: number(0.8),
    });

    let anomalies = engine.analyze_batch(&env.proj, &env.histories, &env.log, moment(0));
    assert!(anomalies.is_empty());
}

#[test]
fn tolerance_allows_some_violations() {
    let mut env = TestEnv::new();
    let n = fresh("node");

    // One change at 2pm (outside window)
    let at_2pm = at_hour(14);
    let e1 = {
        let mut e = trigger(EventKind::NodeCreated {
            node_id: n.clone(),
            type_id: "backup_job".to_string(),
            properties: Properties::from_pairs(vec![("status".into(), Value::String("running".into()))]),
        });
        e.timestamp = at_2pm;
        e
    };
    env.ingest(e1);

    let mut engine = AnomalyEngine::new();
    engine.add_time_window_rule(TimeWindowRule {
        node_type: "backup_job".to_string(),
        start_hour: 2,
        end_hour: 4,
        tolerance: 1, // Allow 1 out-of-window change
        lookback_secs: 0,
        severity: number(0.8),
    });

    // 1 violation with tolerance=1 → no anomaly
    let anomalies = engine.analyze_batch(&env.proj, &env.histories, &env.log, moment(0));
    assert!(anomalies.is_empty());
}

#[test]
fn wraparound_window_detection() {
    let mut env = TestEnv::new();
    let n = fresh("node");

    // Change at 11pm UTC (hour 23) — inside a 22-4 wraparound window
    let at_11pm = at_hour(23);
    let e1 = {
        let mut e = trigger(EventKind::NodeCreated {
            node_id: n.clone(),
            type_id: "backup_job".to_string(),
            properties: Properties::from_pairs(vec![("status".into(), Value::String("ok".into()))]),
        });
        e.timestamp = at_11pm;
        e
    };
    env.ingest(e1);

    let mut engine = AnomalyEngine::new();
    engine.add_time_window_rule(TimeWindowRule {
        node_type: "backup_job".to_string(),
        start_hour: 22,
        end_hour: 4,
        tolerance: 0,
        lookback_secs: 0,
        severity: number(0.8),
    });

    // 11pm is inside the 10pm-4am window → no anomaly
    let anomalies = engine.analyze_batch(&env.proj, &env.histories, &env.log, moment(0));
    assert!(anomalies.is_empty());
}

#[test]
fn rule_count_includes_time_window() {
    let mut engine = AnomalyEngine::new();
    assert_eq!(engine.rule_count(), 1); // cascade only

    engine.add_time_window_rule(TimeWindowRule {
        node_type: "backup_job".to_string(),
        start_hour: 2,
        end_hour: 4,
        tolerance: 0,
        lookback_secs: 0,
        severity: number(0.5),
    });
    assert_eq!(engine.rule_count(), 2);
}

#[test]
fn detects_counterfactual_outlier() {
    let mut env = TestEnv::new();

    // Create one "admin" node with many events
    let (admin, e0) = env.create_node("admin");
    for i in 0..10 {
        let mut e = reaction(
            EventKind::NodeUpdated {
                node_id: admin.clone(),
                changes: Properties::from_pairs(vec![(format!("action_{}", i), Value::Bool(true))]),
            },
            &e0,
        );
        e.timestamp = moment(0);
        env.ingest(e);
    }

    // Create a few independent nodes
    for _ in 0..3 {
        env.create_node("resource");
    }

    let mut engine = AnomalyEngine::new();
    engine.add_counterfactual_rule(CounterfactualRule {
        node_type: "admin".to_string(),
        min_removal_fraction: number(0.3),
        min_graph_impact: 1,
        severity: number(0.9),
    });

    let anomalies = engine.analyze_batch(&env.proj, &env.histories, &env.log, moment(0));

    // The admin node accounts for 11 of ~14 events (~79%) → should flag
    let cf_anomalies: Vec<_> = anomalies
        .iter()
        .filter(|a| matches!(a.kind, AnomalyKind::CounterfactualOutlier { .. }))
        .collect();
    assert_eq!(cf_anomalies.len(), 1);

    if let AnomalyKind::CounterfactualOutlier {
        source_node,
        removal_fraction,
        ..
    } = &cf_anomalies[0].kind
    {
        assert_eq!(*source_node, admin);
        assert!(value_of(*removal_fraction) > 0.3);
    } else {
        panic!("Expected CounterfactualOutlier");
    }
}

#[test]
fn no_counterfactual_anomaly_for_balanced_graph() {
    let mut env = TestEnv::new();

    // Create 5 nodes of equal weight — no single node dominates
    for _ in 0..5 {
        env.create_node("admin");
    }

    let mut engine = AnomalyEngine::new();
    engine.add_counterfactual_rule(CounterfactualRule {
        node_type: "admin".to_string(),
        min_removal_fraction: number(0.5), // Need >50% to trigger
        min_graph_impact: 3,
        severity: number(0.9),
    });

    let anomalies = engine.analyze_batch(&env.proj, &env.histories, &env.log, moment(0));
    let cf_anomalies: Vec<_> = anomalies
        .iter()
        .filter(|a| matches!(a.kind, AnomalyKind::CounterfactualOutlier { .. }))
        .collect();
    assert!(cf_anomalies.is_empty());
}

#[test]
fn rule_count_includes_counterfactual() {
    let mut engine = AnomalyEngine::new();
    let base = engine.rule_count(); // cascade only = 1

    engine.add_counterfactual_rule(CounterfactualRule {
        node_type: "admin".to_string(),
        min_removal_fraction: number(0.3),
        min_graph_impact: 1,
        severity: number(0.9),
    });
    assert_eq!(engine.rule_count(), base + 1);
}

#[test]
fn detects_forbidden_pattern_fan_out() {
    let mut env = TestEnv::new();

    // Create admin node
    let (admin, _) = env.create_node("admin");

    // Create 10 resources connected via has_permission
    for _ in 0..10 {
        let (resource, _) = env.create_node("resource");
        env.create_edge(&admin, &resource, "has_permission");
    }

    let mut engine = AnomalyEngine::new();
    engine.add_pattern_rule(PatternRule {
        name: "broad_permissions".to_string(),
        anchor_type: "admin".to_string(),
        edge_type: "has_permission".to_string(),
        target_type: "resource".to_string(),
        min_fan_out: 5,
        target_predicate: None,
        anchor_predicate: None,
        severity: number(0.9),
    });

    let anomalies = engine.analyze_batch(&env.proj, &env.histories, &env.log, moment(0));
    let pattern_anomalies: Vec<_> = anomalies
        .iter()
        .filter(|a| matches!(a.kind, AnomalyKind::ForbiddenPattern { .. }))
        .collect();

    assert_eq!(pattern_anomalies.len(), 1);
    if let AnomalyKind::ForbiddenPattern { fan_out, pattern_name, .. } = &pattern_anomalies[0].kind {
        assert_eq!(*fan_out, 10);
        assert_eq!(pattern_name, "broad_permissions");
    }
}

#[test]
fn no_pattern_match_below_threshold() {
    let mut env = TestEnv::new();
    let (admin, _) = env.create_node("admin");

    // Only 2 resources — below threshold of 5
    for _ in 0..2 {
        let (resource, _) = env.create_node("resource");
        env.create_edge(&admin, &resource, "has_permission");
    }

    let mut engine = AnomalyEngine::new();
    engine.add_pattern_rule(PatternRule {
        name: "broad_permissions".to_string(),
        anchor_type: "admin".to_string(),
        edge_type: "has_permission".to_string(),
        target_type: "resource".to_string(),
        min_fan_out: 5,
        target_predicate: None,
        anchor_predicate: None,
        severity: number(0.9),
    });

    let anomalies = engine.analyze_batch(&env.proj, &env.histories, &env.log, moment(0));
    let pattern_anomalies: Vec<_> = anomalies
        .iter()
        .filter(|a| matches!(a.kind, AnomalyKind::ForbiddenPattern { .. }))
        .collect();
    assert!(pattern_anomalies.is_empty());
}

#[test]
fn pattern_with_target_predicate() {
    let mut env = TestEnv::new();
    let (admin, _) = env.create_node("admin");

    // 5 resources, but only 3 have "modified=true"
    for i in 0..5 {
        let props = if i < 3 {
            Properties::from_pairs(vec![("modified".to_string(), Value::Bool(true))])
        } else {
            Properties::new()
        };
        let (resource, _) = env.create_node_with_props("backup_config", props);
        env.create_edge(&admin, &resource, "modified");
    }

    let mut engine = AnomalyEngine::new();
    engine.add_pattern_rule(PatternRule {
        name: "suspicious_backup_changes".to_string(),
        anchor_type: "admin".to_string(),
        edge_type: "modified".to_string(),
        target_type: "backup_config".to_string(),
        min_fan_out: 3,
        target_predicate: Some(PropertyPredicate::Equals(
            "modified".to_string(),
            Value::Bool(true),
        )),
        anchor_predicate: None,
        severity: number(0.95),
    });

    let anomalies = engine.analyze_batch(&env.proj, &env.histories, &env.log, moment(0));
    let pattern_anomalies: Vec<_> = anomalies
        .iter()
        .filter(|a| matches!(a.kind, AnomalyKind::ForbiddenPattern { .. }))
        .collect();

    assert_eq!(pattern_anomalies.len(), 1);
    if let AnomalyKind::ForbiddenPattern { fan_out, .. } = &pattern_anomalies[0].kind {
        assert_eq!(*fan_out, 3); // Only the 3 with modified=true
    }
}

#[test]
fn pattern_with_anchor_predicate() {
    let mut env = TestEnv::new();

    // Two admins: one new (flagged), one old (not flagged)
    let (new_admin, _) = env.create_node_with_props(
        "admin",
        Properties::from_pairs(vec![("is_new".to_string(), Value::Bool(true))]),
    );
    let (old_admin, _) = env.create_node_with_props(
        "admin",
        Properties::from_pairs(vec![("is_new".to_string(), Value::Bool(false))]),
    );

    // Both connect to 5 resources
    for _ in 0..5 {
        let (r, _) = env.create_node("resource");
        env.create_edge(&new_admin, &r, "has_permission");
    }
    for _ in 0..5 {
        let (r, _) = env.create_node("resource");
        env.create_edge(&old_admin, &r, "has_permission");
    }

    let mut engine = AnomalyEngine::new();
    engine.add_pattern_rule(PatternRule {
        name: "new_admin_broad_access".to_string(),
        anchor_type: "admin".to_string(),
        edge_type: "has_permission".to_string(),
        target_type: "resource".to_string(),
        min_fan_out: 5,
        target_predicate: None,
        anchor_predicate: Some(PropertyPredicate::Equals(
            "is_new".to_string(),
            Value::Bool(true),
        )),
        severity: number(0.95),
    });

    let anomalies = engine.analyze_batch(&env.proj, &env.histories, &env.log, moment(0));
    let pattern_anomalies: Vec<_> = anomalies
        .iter()
        .filter(|a| matches!(a.kind, AnomalyKind::ForbiddenPattern { .. }))
        .collect();

    // Only the new admin should match
    assert_eq!(pattern_anomalies.len(), 1);
    if let AnomalyKind::ForbiddenPattern { anchor_node, .. } = &pattern_anomalies[0].kind {
        assert_eq!(*anchor_node, new_admin);
    }
}

#[test]
fn property_predicate_logic() {
    let node = Node::new(
        fresh("node"),
        "test".to_string(),
        Properties::from_pairs(vec![
            ("score".to_string(), Value::Int(75)),
            ("name".to_string(), Value::String("test".into())),
            ("active".to_string(), Value::Bool(true)),
        ]),
    );

    assert!(PropertyPredicate::Exists("score".to_string()).matches(&node));
    assert!(!PropertyPredicate::Exists("missing".to_string()).matches(&node));

    assert!(PropertyPredicate::Equals("active".to_string(), Value::Bool(true)).matches(&node));
    assert!(!PropertyPredicate::Equals("active".to_string(), Value::Bool(false)).matches(&node));

    assert!(PropertyPredicate::GreaterThan("score".to_string(), number(50.0)).matches(&node));
    assert!(!PropertyPredicate::GreaterThan("score".to_string(), number(80.0)).matches(&node));

    assert!(PropertyPredicate::LessThan("score".to_string(), number(100.0)).matches(&node));
    assert!(!PropertyPredicate::LessThan("score".to_string(), number(50.0)).matches(&node));

    // All
    let all = PropertyPredicate::All(vec![
        PropertyPredicate::Exists("score".to_string()),
        PropertyPredicate::GreaterThan("score".to_string(), number(50.0)),
    ]);
    assert!(all.matches(&node));

    // Any
    let any = PropertyPredicate::Any(vec![
        PropertyPredicate::GreaterThan("score".to_string(), number(90.0)), // false
        PropertyPredicate::Exists("name".to_string()),              // true
    ]);
    assert!(any.matches(&node));
}

#[test]
fn predicate_large_i64_precision() {
    // 2^53 + 1 = 9007199254740993 — this value loses precision as f64
    // (f64 can only represent integers exactly up to 2^53)
    let big = 9_007_199_254_740_993i64;
    let big_minus_one = 9_007_199_254_740_992i64;

    let node = Node::new(
        fresh("node"),
        "test".to_string(),
        Properties::from_pairs(vec![("big".to_string(), Value::Int(big))]),
    );

    // big > big_minus_one should be true (integer comparison)
    // With f64 coercion, both would become the same f64 value → false
    assert!(
        PropertyPredicate::GreaterThan("big".to_string(), number(big_minus_one as f64)).matches(&node),
        "Large i64 should compare correctly without f64 precision loss"
    );

    // big < big + 2 should be true
    assert!(
        PropertyPredicate::LessThan("big".to_string(), number((big + 2) as f64)).matches(&node),
    );

    // Float values still work normally
    let float_node = Node::new(
        fresh("node"),
        "test".to_string(),
        Properties::from_pairs(vec![("val".to_string(), float(3.14))]),
    );
    assert!(PropertyPredicate::GreaterThan("val".to_string(), number(3.0)).matches(&float_node));
    assert!(!PropertyPredicate::GreaterThan("val".to_string(), number(4.0)).matches(&float_node));
}

#[test]
fn realtime_pattern_check() {
    let mut env = TestEnv::new();
    let (admin, _) = env.create_node("admin");

    for _ in 0..5 {
        let (r, _) = env.create_node("resource");
        env.create_edge(&admin, &r, "has_permission");
    }

    let mut engine = AnomalyEngine::new();
    engine.add_pattern_rule(PatternRule {
        name: "broad_access".to_string(),
        anchor_type: "admin".to_string(),
        edge_type: "has_permission".to_string(),
        target_type: "resource".to_string(),
        min_fan_out: 3,
        target_predicate: None,
        anchor_predicate: None,
        severity: number(0.8),
    });

    // Simulate a cascade that affects the admin node
    let cascade_result = CascadeResult {
        events: vec![trigger(EventKind::NodeUpdated {
            node_id: admin.clone(),
            changes: Properties::from_pairs(vec![("last_login".into(), Value::String("now".into()))]),
        })],
        mutations: 1,
        max_depth_reached: 0,
        truncated: false,
        produced_by: vec![],
    };

    let anomalies = engine.analyze_cascade(&cascade_result, &env.proj, moment(0));
    let pattern_anomalies: Vec<_> = anomalies
        .iter()
        .filter(|a| matches!(a.kind, AnomalyKind::ForbiddenPattern { .. }))
        .collect();
    assert_eq!(pattern_anomalies.len(), 1);
}

#[test]
fn rule_count_includes_pattern() {
    let mut engine = AnomalyEngine::new();
    let base = engine.rule_count();

    engine.add_pattern_rule(PatternRule {
        name: "test".to_string(),
        anchor_type: "x".to_string(),
        edge_type: "y".to_string(),
        target_type: "z".to_string(),
        min_fan_out: 1,
        target_predicate: None,
        anchor_predicate: None,
        severity: number(0.5),
    });
    assert_eq!(engine.rule_count(), base + 1);
}

#[test]
fn what_is_no_number_has_no_trend() {
    let at = Timestamp::at(1_780_000_000);
    let series = |values: [f64; 2]| {
        values.map(|x| version(at, Value::Float(Number::from_bits(x.to_bits()))))
    };
    assert_eq!(detect_monotonic_trend(&series([1.0, f64::NAN])), None);
    assert_eq!(detect_monotonic_trend(&series([f64::NAN, 1.0])), None);
    assert_eq!(detect_monotonic_trend(&series([1.0, 1.0])), None);
    assert_eq!(detect_monotonic_trend(&series([1.0, 2.0])), Some(DriftDirection::Increasing));
}

#[test]
fn integers_are_compared_exactly() {
    let node = |n: i64| {
        Node::new(
            Id::from_str("n"),
            "t".to_string(),
            Properties::from_pairs(vec![("x".to_string(), Value::Int(n))]),
        )
    };
    let number = |x: f64| Number::from_bits(x.to_bits());
    let below = PropertyPredicate::LessThan("x".to_string(), number(9223372036854775808.0));
    let above = PropertyPredicate::GreaterThan("x".to_string(), number(9223372036854775808.0));
    assert!(below.matches(&node(i64::MAX)));
    assert!(!above.matches(&node(i64::MAX)));
    let least = PropertyPredicate::LessThan("x".to_string(), number(-9223372036854775808.0));
    assert!(!least.matches(&node(i64::MIN)));
    let exact = PropertyPredicate::GreaterThan("x".to_string(), number(9007199254740992.0));
    assert!(exact.matches(&node(9007199254740993)));
}
