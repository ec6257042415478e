use hydra_engine::counterfactual::{GraphDiff, counterfactual, counterfactual_filter, diff_projections, impact_score};
use hydra_engine::event::{Event, EventKind, Stamp};
use hydra_engine::event_log::EventLog;
use hydra_engine::ids::{EventId, Id, NodeId};
use hydra_engine::number::Number;
use hydra_engine::projection::Projection;
use hydra_engine::time::Timestamp;
use hydra_engine::value::{Properties, Value};
use std::collections::hash_map::RandomState;
use std::hash::{BuildHasher, Hasher};

fn fresh(prefix: &str) -> Id {
    Id::from_str(&format!("{}_{:016x}", prefix, RandomState::new().build_hasher().finish()))
}

fn stamp() -> Stamp {
    Stamp { id: fresh("evt"), timestamp: Timestamp::at(1_780_000_000) }
}

fn trigger(kind: EventKind) -> Event {
    Event::trigger(kind, stamp(), fresh("casc"))
}

fn reaction(kind: EventKind, parent: &Event) -> Event {
    Event::reaction(kind, parent, stamp())
}

fn value_of(x: Number) -> f64 {
    f64::from_bits(x.to_bits())
}

/// Helper: build a Hydra-like setup with EventLog + Projection,
/// ingesting events manually (without subscriptions for these unit tests)
fn ingest(
    log: &mut EventLog,
    proj: &mut Projection,
    event: Event,
) -> Event {
    let _ = proj.apply(&event);
    log.append(event.clone());
    event
}

fn make_create(type_id: &str) -> (NodeId, Event) {
    let node_id = fresh("node");
    let event = trigger(EventKind::NodeCreated {
        node_id: node_id.clone(),
        type_id: type_id.to_string(),
        properties: Properties::new(),
    });
    (node_id, event)
}

fn make_update(node_id: &NodeId, key: &str, val: Value, parent: &Event) -> Event {
    reaction(
        EventKind::NodeUpdated {
            node_id: node_id.clone(),
            changes: Properties::from_pairs(vec![(key.to_string(), val)]),
        },
        parent,
    )
}

#[test]
fn counterfactual_removes_created_node() {
    let mut log = EventLog::new();
    let mut proj = Projection::new();

    let (n1, e1) = make_create("ec2");
    let (n2, e2) = make_create("rds");

    ingest(&mut log, &mut proj, e1.clone());
    ingest(&mut log, &mut proj, e2.clone());

    assert_eq!(proj.node_count(), 2);

    // Counterfactual: what if e1 hadn't happened?
    let cf = counterfactual(&log, &e1.id).unwrap().projection;
    assert_eq!(cf.node_count(), 1);
    assert!(!cf.has_node(&n1)); // n1 doesn't exist
    assert!(cf.has_node(&n2)); // n2 still exists
}

#[test]
fn counterfactual_removes_causal_subtree() {
    let mut log = EventLog::new();
    let mut proj = Projection::new();

    let (n1, e1) = make_create("ec2");
    let e1 = ingest(&mut log, &mut proj, e1);

    // e2 is a reaction to e1 (updates n1)
    let e2 = make_update(&n1, "classified", Value::Bool(true), &e1);
    ingest(&mut log, &mut proj, e2);

    // e3 is independent
    let (_n3, e3) = make_create("rds");
    ingest(&mut log, &mut proj, e3);

    assert_eq!(proj.node_count(), 2);
    assert_eq!(proj.node(&n1).unwrap().get_bool("classified"), Some(true));

    // Remove e1 → should also remove e2 (its reaction)
    let cf = counterfactual(&log, &e1.id).unwrap().projection;
    assert_eq!(cf.node_count(), 1); // Only rds survives
    assert!(!cf.has_node(&n1));
}

#[test]
fn diff_detects_missing_nodes() {
    let mut log = EventLog::new();
    let mut proj = Projection::new();

    let (n1, e1) = make_create("ec2");
    let (_n2, e2) = make_create("rds");
    ingest(&mut log, &mut proj, e1.clone());
    ingest(&mut log, &mut proj, e2);

    let cf = counterfactual(&log, &e1.id).unwrap().projection;
    let diff = diff_projections(&proj, &cf);

    // n1 exists in actual but not counterfactual
    assert_eq!(diff.nodes_only_in_actual.len(), 1);
    assert_eq!(diff.nodes_only_in_actual[0], n1);

    // n2 exists in both
    assert!(diff.nodes_only_in_counterfactual.is_empty());

    // No property changes (n2 is identical in both)
    assert!(diff.nodes_changed.is_empty());
}

#[test]
fn diff_detects_property_changes() {
    let mut log = EventLog::new();
    let mut proj = Projection::new();

    let (n1, e1) = make_create("ec2");
    let e1 = ingest(&mut log, &mut proj, e1);

    // Update n1's properties via a reaction
    let e2 = make_update(&n1, "trust_score", Value::Int(50), &e1);
    ingest(&mut log, &mut proj, e2.clone());

    assert_eq!(proj.node(&n1).unwrap().get_i64("trust_score"), Some(50));

    // Remove e2 (the update): n1 should still exist but without trust_score
    let cf = counterfactual(&log, &e2.id).unwrap().projection;
    assert!(cf.has_node(&n1)); // Node still exists
    assert_eq!(cf.node(&n1).unwrap().get_i64("trust_score"), None);

    let diff = diff_projections(&proj, &cf);
    assert_eq!(diff.nodes_changed.len(), 1);
    assert_eq!(diff.nodes_changed[0].node_id, n1);
    assert_eq!(diff.nodes_changed[0].property_diffs.len(), 1);
    assert_eq!(diff.nodes_changed[0].property_diffs[0].key, "trust_score");
}

#[test]
fn impact_score_basic() {
    let mut log = EventLog::new();
    let mut proj = Projection::new();

    let (n1, e1) = make_create("ec2");
    let e1 = ingest(&mut log, &mut proj, e1);
    let e2 = make_update(&n1, "classified", Value::Bool(true), &e1);
    ingest(&mut log, &mut proj, e2);

    let (_n2, e3) = make_create("rds");
    ingest(&mut log, &mut proj, e3);

    let score = impact_score(&log, &proj, &e1.id).unwrap();

    // e1 + e2 are in the causal subtree
    assert_eq!(score.causal_subtree_size, 2);
    // n1 would be missing in counterfactual
    assert_eq!(score.nodes_affected, 1);
    assert_eq!(score.edges_affected, 0);
    assert!(value_of(score.magnitude()) > 0.0);
    assert_eq!(score.affected_types.get(&Id::from_str("ec2")), Some(&1));
}

#[test]
fn impact_score_nonexistent_event() {
    let log = EventLog::new();
    let proj = Projection::new();

    let ghost = EventId::from_str("evt_GHOST");
    let result = impact_score(&log, &proj, &ghost);
    assert!(result.is_err());
}

#[test]
fn counterfactual_with_edges() {
    let mut log = EventLog::new();
    let mut proj = Projection::new();

    let (n1, e1) = make_create("ec2");
    ingest(&mut log, &mut proj, e1.clone());

    let (n2, e2) = make_create("vpc");
    ingest(&mut log, &mut proj, e2.clone());

    // Edge from ec2 → vpc (independent trigger)
    let edge_id = fresh("edge");
    let e3 = trigger(EventKind::EdgeCreated {
        edge_id: edge_id.clone(),
        source: n1.clone(),
        target: n2.clone(),
        type_id: "in_vpc".to_string(),
        properties: Properties::new(),
    });
    ingest(&mut log, &mut proj, e3.clone());

    assert_eq!(proj.edge_count(), 1);

    // Remove e1 (the ec2 node creation).
    // The edge creation (e3) will fail to apply in counterfactual
    // because n1 doesn't exist.
    let cf = counterfactual(&log, &e1.id).unwrap().projection;
    assert!(!cf.has_node(&n1));
    assert!(cf.has_node(&n2));
    assert_eq!(cf.edge_count(), 0); // Edge couldn't be created without n1

    let diff = diff_projections(&proj, &cf);
    assert_eq!(diff.nodes_only_in_actual.len(), 1); // n1
    assert_eq!(diff.edges_only_in_actual.len(), 1); // the edge
}

#[test]
fn counterfactual_leaf_event() {
    let mut log = EventLog::new();
    let mut proj = Projection::new();

    let (n1, e1) = make_create("ec2");
    let e1 = ingest(&mut log, &mut proj, e1);

    let e2 = make_update(&n1, "state", Value::String("stopped".into()), &e1);
    ingest(&mut log, &mut proj, e2.clone());

    // Remove only e2 (the update) — n1 should still exist but without "state"
    let cf = counterfactual(&log, &e2.id).unwrap().projection;
    assert!(cf.has_node(&n1));
    assert_eq!(cf.node(&n1).unwrap().get_str("state"), None);
}

#[test]
fn counterfactual_empty_log() {
    let log = EventLog::new();
    let ghost = EventId::from_str("evt_GHOST");
    let result = counterfactual(&log, &ghost);
    assert!(result.is_err());
}

#[test]
fn diff_identical_projections() {
    let mut log = EventLog::new();
    let mut proj = Projection::new();

    let (_n1, e1) = make_create("ec2");
    ingest(&mut log, &mut proj, e1);

    // Counterfactual of an event that doesn't affect anything
    // (use a separate independent event)
    let (_n2, e2) = make_create("rds");
    let e2 = ingest(&mut log, &mut proj, e2);

    // Remove e2: n2 disappears, but actual has both
    let cf = counterfactual(&log, &e2.id).unwrap().projection;
    // Diff should show n2 only in actual
    let diff = diff_projections(&proj, &cf);
    assert_eq!(diff.nodes_only_in_actual.len(), 1);
}

#[test]
fn counterfactual_deep_chain() {
    let mut log = EventLog::new();
    let mut proj = Projection::new();

    let (n1, e1) = make_create("ec2");
    let e1 = ingest(&mut log, &mut proj, e1);

    // Chain: e1 → e2 → e3 → e4
    let e2 = make_update(&n1, "step1", Value::Bool(true), &e1);
    let e2 = ingest(&mut log, &mut proj, e2);

    let e3 = make_update(&n1, "step2", Value::Bool(true), &e2);
    let e3 = ingest(&mut log, &mut proj, e3);

    let e4 = make_update(&n1, "step3", Value::Bool(true), &e3);
    ingest(&mut log, &mut proj, e4);

    assert_eq!(proj.node(&n1).unwrap().get_bool("step3"), Some(true));

    // Remove e1: the entire chain disappears (including the node)
    let cf = counterfactual(&log, &e1.id).unwrap().projection;
    assert!(!cf.has_node(&n1));

    // Remove e3: only step2 and step3 are removed, node still exists
    let cf2 = counterfactual(&log, &e3.id).unwrap().projection;
    assert!(cf2.has_node(&n1));
    assert_eq!(cf2.node(&n1).unwrap().get_bool("step1"), Some(true));
    assert_eq!(cf2.node(&n1).unwrap().get_bool("step2"), None);
    assert_eq!(cf2.node(&n1).unwrap().get_bool("step3"), None);
}

#[test]
fn impact_score_with_edges() {
    let mut log = EventLog::new();
    let mut proj = Projection::new();

    let (n1, e1) = make_create("ec2");
    ingest(&mut log, &mut proj, e1.clone());

    let (n2, e2) = make_create("vpc");
    ingest(&mut log, &mut proj, e2.clone());

    // Edge as a reaction to e1
    let edge_evt = reaction(
        EventKind::EdgeCreated {
            edge_id: fresh("edge"),
            source: n1.clone(),
            target: n2.clone(),
            type_id: "in_vpc".to_string(),
            properties: Properties::new(),
        },
        &e1,
    );
    ingest(&mut log, &mut proj, edge_evt);

    let score = impact_score(&log, &proj, &e1.id).unwrap();
    // Subtree: e1 (create) + edge_evt (reaction)
    assert_eq!(score.causal_subtree_size, 2);
    // Node n1 missing + edge missing
    assert_eq!(score.nodes_affected, 1);
    assert_eq!(score.edges_affected, 1);
    assert!(value_of(score.magnitude()) >= 15.0); // 10 (node) + 5 (edge)
}

#[test]
fn graph_diff_helpers() {
    let empty = GraphDiff {
        nodes_only_in_actual: vec![],
        nodes_only_in_counterfactual: vec![],
        nodes_changed: vec![],
        edges_only_in_actual: vec![],
        edges_only_in_counterfactual: vec![],
        edges_changed: vec![],
    };
    assert!(empty.is_empty());
    assert_eq!(empty.total_affected(), 0);

    let non_empty = GraphDiff {
        nodes_only_in_actual: vec![fresh("node")],
        nodes_only_in_counterfactual: vec![],
        nodes_changed: vec![],
        edges_only_in_actual: vec![fresh("edge"), fresh("edge")],
        edges_only_in_counterfactual: vec![],
        edges_changed: vec![],
    };
    assert!(!non_empty.is_empty());
    assert_eq!(non_empty.total_affected(), 3);
}

#[test]
fn counterfactual_filter_removes_by_node() {
    let mut log = EventLog::new();
    let mut proj = Projection::new();

    let (n1, e1) = make_create("ec2");
    ingest(&mut log, &mut proj, e1.clone());

    // Update n1 twice
    let e2 = make_update(&n1, "state", Value::String("running".into()), &e1);
    ingest(&mut log, &mut proj, e2.clone());
    let e3 = make_update(&n1, "score", Value::Int(50), &e2);
    ingest(&mut log, &mut proj, e3);

    // Create an independent node
    let (n2, e4) = make_create("rds");
    ingest(&mut log, &mut proj, e4);

    assert_eq!(proj.node_count(), 2);

    // Remove all events targeting n1
    let n1_clone = n1.clone();
    let result = counterfactual_filter(&log, |event: &Event| {
        event.kind.target_node() == Some(&n1_clone)
    });

    assert_eq!(result.roots_matched, 3); // create + 2 updates
    assert_eq!(result.events_removed, 3);
    assert_eq!(result.projection.node_count(), 1); // only n2 survives
    assert!(!result.projection.has_node(&n1));
    assert!(result.projection.has_node(&n2));
}

#[test]
fn counterfactual_filter_no_matches() {
    let mut log = EventLog::new();
    let mut proj = Projection::new();

    let (_n1, e1) = make_create("ec2");
    ingest(&mut log, &mut proj, e1);

    let result = counterfactual_filter(&log, |_: &Event| false);
    assert_eq!(result.roots_matched, 0);
    assert_eq!(result.events_removed, 0);
    assert_eq!(result.projection.node_count(), 1);
}

#[test]
fn counterfactual_filter_removes_causal_subtree() {
    let mut log = EventLog::new();
    let mut proj = Projection::new();

    let (n1, e1) = make_create("ec2");
    let e1 = ingest(&mut log, &mut proj, e1);

    // e2 is a reaction to e1 (caused by e1)
    let e2 = make_update(&n1, "classified", Value::Bool(true), &e1);
    ingest(&mut log, &mut proj, e2);

    // Remove only trigger events (not reactions)
    let result = counterfactual_filter(&log, |event: &Event| event.is_trigger());

    // e1 is a trigger → removed. e2 is caused by e1 → also removed (subtree).
    assert_eq!(result.roots_matched, 1);
    assert_eq!(result.events_removed, 2); // e1 + e2
    assert_eq!(result.projection.node_count(), 0);
}

#[test]
fn removal_fraction_correct() {
    let mut log = EventLog::new();
    let mut proj = Projection::new();

    // 4 independent events
    for _ in 0..4 {
        let (_, e) = make_create("ec2");
        ingest(&mut log, &mut proj, e);
    }

    // Remove 1 of 4 → 25%
    let first_id = log.iter()[0].id.clone();
    let result = counterfactual_filter(&log, |event: &Event| event.id == first_id);

    assert_eq!(result.roots_matched, 1);
    assert!((value_of(result.removal_fraction()) - 0.25).abs() < 0.01);
}

#[test]
fn a_deleted_node_is_affected_once() {
    let mut log = EventLog::new();
    let mut proj = Projection::new();
    let (n, created) = make_create("ec2");
    ingest(&mut log, &mut proj, created);
    let deleted = ingest(&mut log, &mut proj, trigger(EventKind::NodeDeleted { node_id: n.clone() }));
    let score = impact_score(&log, &proj, &deleted.id).unwrap();
    assert_eq!(score.causal_subtree_size, 1);
    assert_eq!(score.diff.nodes_only_in_counterfactual, vec![n.clone()]);
    assert_eq!(score.diff.nodes_changed.len(), 1);
    assert_eq!(score.nodes_affected, 1);
    assert_eq!(score.edges_affected, 0);
    assert_eq!(score.properties_changed, 0);
    assert_eq!(score.affected_types.get(&Id::from_str("ec2")), Some(&1));
    assert_eq!(score.diff.total_affected(), 1);
}

#[test]
fn filters_without_a_match_count_what_is_passed_over() {
    let mut log = EventLog::new();
    let mut proj = Projection::new();
    let (n, created) = make_create("ec2");
    ingest(&mut log, &mut proj, created.clone());
    // Nothing can be updated that does not exist.
    let lost = make_update(&Id::from_str("nowhere"), "key", Value::Int(1), &created);
    ingest(&mut log, &mut proj, lost);
    let result = counterfactual_filter(&log, |_: &Event| false);
    assert!(result.projection.has_node(&n));
    assert_eq!(result.roots_matched, 0);
    assert_eq!(result.events_removed, 0);
    assert_eq!(result.events_skipped, 1);
    assert_eq!(result.events_replayed, 1);
}
