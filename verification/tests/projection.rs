use hydra_engine::event::{Event, EventKind, Stamp};
use hydra_engine::ids::{Id, NodeId};
use hydra_engine::number::Number;
use hydra_engine::projection::Projection;
use hydra_engine::time::Timestamp;
use hydra_engine::value::{Properties, Value};
use std::collections::hash_map::RandomState;
use std::hash::{BuildHasher, Hasher};

fn fresh(prefix: &str) -> Id {
    Id::from_str(&format!("{}_{:016x}", prefix, RandomState::new().build_hasher().finish()))
}

fn stamp() -> Stamp {
    Stamp { id: fresh("evt"), timestamp: Timestamp::at(1_780_000_000) }
}

fn trigger(kind: EventKind) -> Event {
    Event::trigger(kind, stamp(), fresh("casc"))
}

fn float(x: f64) -> Value {
    Value::Float(Number::from_bits(x.to_bits()))
}

fn node_created_event(node_id: &NodeId, type_id: &str) -> Event {
    trigger(EventKind::NodeCreated {
        node_id: node_id.clone(),
        type_id: type_id.to_string(),
        properties: Properties::new(),
    })
}

fn node_created_with_props(
    node_id: &NodeId,
    type_id: &str,
    props: Properties,
) -> Event {
    trigger(EventKind::NodeCreated {
        node_id: node_id.clone(),
        type_id: type_id.to_string(),
        properties: props,
    })
}

#[test]
fn create_node() {
    let mut proj = Projection::new();
    let id = fresh("node");
    let evt = node_created_event(&id, "ec2_instance");

    let changed = proj.apply(&evt).unwrap();
    assert!(changed);
    assert!(proj.has_node(&id));
    assert_eq!(proj.node(&id).unwrap().type_id(), "ec2_instance");
    assert_eq!(proj.node_count(), 1);
    assert_eq!(proj.events_applied(), 1);
}

#[test]
fn create_duplicate_node_fails() {
    let mut proj = Projection::new();
    let id = fresh("node");
    proj.apply(&node_created_event(&id, "ec2")).unwrap();

    let result = proj.apply(&node_created_event(&id, "ec2"));
    assert!(result.is_err());
}

#[test]
fn update_node() {
    let mut proj = Projection::new();
    let id = fresh("node");
    proj.apply(&node_created_with_props(
        &id,
        "ec2",
        Properties::from_pairs(vec![("state".to_string(), Value::String("running".to_string()))]),
    ))
    .unwrap();

    let update = trigger(EventKind::NodeUpdated {
        node_id: id.clone(),
        changes: Properties::from_pairs(vec![("state".to_string(), Value::String("stopped".to_string()))]),
    });

    let changed = proj.apply(&update).unwrap();
    assert!(changed);
    assert_eq!(proj.node(&id).unwrap().get_str("state"), Some("stopped"));
    assert_eq!(proj.node(&id).unwrap().version, 2);
}

#[test]
fn update_nonexistent_node_fails() {
    let mut proj = Projection::new();
    let update = trigger(EventKind::NodeUpdated {
        node_id: NodeId::from_str("node_GHOST"),
        changes: Properties::new(),
    });
    assert!(proj.apply(&update).is_err());
}

#[test]
fn delete_node() {
    let mut proj = Projection::new();
    let id = fresh("node");
    proj.apply(&node_created_event(&id, "ec2")).unwrap();

    let delete = trigger(EventKind::NodeDeleted {
        node_id: id.clone(),
    });
    let changed = proj.apply(&delete).unwrap();
    assert!(changed);
    assert!(!proj.has_node(&id)); // has_node checks alive
    assert_eq!(proj.node_count(), 0);
    assert_eq!(proj.nodes_by_type("ec2").len(), 0);
}

#[test]
fn delete_already_dead_is_noop() {
    let mut proj = Projection::new();
    let id = fresh("node");
    proj.apply(&node_created_event(&id, "ec2")).unwrap();
    proj.apply(&trigger(EventKind::NodeDeleted {
        node_id: id.clone(),
    }))
    .unwrap();

    let result = proj.apply(&trigger(EventKind::NodeDeleted {
        node_id: id.clone(),
    }));
    assert_eq!(result.unwrap(), false);
}

#[test]
fn create_edge() {
    let mut proj = Projection::new();
    let src = fresh("node");
    let tgt = fresh("node");
    proj.apply(&node_created_event(&src, "ec2")).unwrap();
    proj.apply(&node_created_event(&tgt, "vpc")).unwrap();

    let edge_id = fresh("edge");
    let evt = trigger(EventKind::EdgeCreated {
        edge_id: edge_id.clone(),
        source: src.clone(),
        target: tgt.clone(),
        type_id: "in_vpc".to_string(),
        properties: Properties::new(),
    });

    let changed = proj.apply(&evt).unwrap();
    assert!(changed);
    assert!(proj.has_edge(&edge_id));
    assert_eq!(proj.edge_count(), 1);
    assert_eq!(proj.outgoing_edges(&src).len(), 1);
    assert_eq!(proj.incoming_edges(&tgt).len(), 1);
}

#[test]
fn create_edge_with_missing_source_fails() {
    let mut proj = Projection::new();
    let tgt = fresh("node");
    proj.apply(&node_created_event(&tgt, "vpc")).unwrap();

    let evt = trigger(EventKind::EdgeCreated {
        edge_id: fresh("edge"),
        source: NodeId::from_str("node_GHOST"),
        target: tgt,
        type_id: "in_vpc".to_string(),
        properties: Properties::new(),
    });
    assert!(proj.apply(&evt).is_err());
}

#[test]
fn update_edge() {
    let mut proj = Projection::new();
    let src = fresh("node");
    let tgt = fresh("node");
    proj.apply(&node_created_event(&src, "ec2")).unwrap();
    proj.apply(&node_created_event(&tgt, "vpc")).unwrap();

    let edge_id = fresh("edge");
    proj.apply(&trigger(EventKind::EdgeCreated {
        edge_id: edge_id.clone(),
        source: src,
        target: tgt,
        type_id: "in_vpc".to_string(),
        properties: Properties::from_pairs(vec![("weight".to_string(), float(1.0))]),
    }))
    .unwrap();

    let update = trigger(EventKind::EdgeUpdated {
        edge_id: edge_id.clone(),
        changes: Properties::from_pairs(vec![("weight".to_string(), float(2.0))]),
    });
    let changed = proj.apply(&update).unwrap();
    assert!(changed);
    assert_eq!(proj.edge(&edge_id).unwrap().get("weight"), Some(&float(2.0)));
}

#[test]
fn delete_edge() {
    let mut proj = Projection::new();
    let src = fresh("node");
    let tgt = fresh("node");
    proj.apply(&node_created_event(&src, "ec2")).unwrap();
    proj.apply(&node_created_event(&tgt, "vpc")).unwrap();

    let edge_id = fresh("edge");
    proj.apply(&trigger(EventKind::EdgeCreated {
        edge_id: edge_id.clone(),
        source: src.clone(),
        target: tgt.clone(),
        type_id: "dep".to_string(),
        properties: Properties::new(),
    }))
    .unwrap();

    let delete = trigger(EventKind::EdgeDeleted {
        edge_id: edge_id.clone(),
    });
    let changed = proj.apply(&delete).unwrap();
    assert!(changed);
    assert!(!proj.has_edge(&edge_id));
    assert_eq!(proj.outgoing_edges(&src).len(), 0);
    assert_eq!(proj.incoming_edges(&tgt).len(), 0);
    assert_eq!(proj.edge_count(), 0);
}

#[test]
fn type_index_works() {
    let mut proj = Projection::new();
    let a = fresh("node");
    let b = fresh("node");
    let c = fresh("node");
    proj.apply(&node_created_event(&a, "ec2")).unwrap();
    proj.apply(&node_created_event(&b, "ec2")).unwrap();
    proj.apply(&node_created_event(&c, "rds")).unwrap();

    assert_eq!(proj.nodes_by_type("ec2").len(), 2);
    assert_eq!(proj.nodes_by_type("rds").len(), 1);
    assert_eq!(proj.nodes_by_type("s3").len(), 0);
}

#[test]
fn topology_index_multiple_edges() {
    let mut proj = Projection::new();
    let a = fresh("node");
    let b = fresh("node");
    let c = fresh("node");
    proj.apply(&node_created_event(&a, "ec2")).unwrap();
    proj.apply(&node_created_event(&b, "vpc")).unwrap();
    proj.apply(&node_created_event(&c, "sg")).unwrap();

    proj.apply(&trigger(EventKind::EdgeCreated {
        edge_id: fresh("edge"),
        source: a.clone(),
        target: b.clone(),
        type_id: "in_vpc".to_string(),
        properties: Properties::new(),
    }))
    .unwrap();
    proj.apply(&trigger(EventKind::EdgeCreated {
        edge_id: fresh("edge"),
        source: a.clone(),
        target: c.clone(),
        type_id: "uses_sg".to_string(),
        properties: Properties::new(),
    }))
    .unwrap();

    assert_eq!(proj.outgoing_edges(&a).len(), 2);
    assert_eq!(proj.incoming_edges(&a).len(), 0);
    assert_eq!(proj.incoming_edges(&b).len(), 1);
    assert_eq!(proj.incoming_edges(&c).len(), 1);
}

#[test]
fn signal_does_not_mutate_state() {
    let mut proj = Projection::new();
    let evt = trigger(EventKind::Signal {
        name: "classify".to_string(),
        source: fresh("node"),
        payload: Properties::new(),
    });
    let changed = proj.apply(&evt).unwrap();
    assert!(!changed);
    assert_eq!(proj.node_count(), 0);
}

#[test]
fn graphreader_trait_works_on_projection() {
    let mut proj = Projection::new();
    let a = fresh("node");
    let b = fresh("node");
    proj.apply(&node_created_event(&a, "ec2")).unwrap();
    proj.apply(&node_created_event(&b, "rds")).unwrap();
    proj.apply(&trigger(EventKind::EdgeCreated {
        edge_id: fresh("edge"),
        source: a.clone(),
        target: b.clone(),
        type_id: "depends_on".to_string(),
        properties: Properties::new(),
    }))
    .unwrap();

    assert_eq!(proj.node_count(), 2);
    assert_eq!(proj.edge_count(), 1);
    assert!(proj.has_node(&a));
    assert_eq!(proj.outgoing_neighbors(&a).len(), 1);
    assert_eq!(proj.outgoing_neighbors(&a)[0].id(), &b);
    assert_eq!(proj.incoming_neighbors(&b).len(), 1);
}

#[test]
fn update_deleted_node_fails() {
    let mut proj = Projection::new();
    let id = fresh("node");
    proj.apply(&node_created_event(&id, "ec2")).unwrap();
    proj.apply(&trigger(EventKind::NodeDeleted {
        node_id: id.clone(),
    }))
    .unwrap();

    // Trying to update a dead node should fail
    let update = trigger(EventKind::NodeUpdated {
        node_id: id.clone(),
        changes: Properties::from_pairs(vec![("state".to_string(), Value::String("zombie".into()))]),
    });
    assert!(proj.apply(&update).is_err());
}

#[test]
fn create_edge_to_dead_target_fails() {
    let mut proj = Projection::new();
    let src = fresh("node");
    let tgt = fresh("node");
    proj.apply(&node_created_event(&src, "ec2")).unwrap();
    proj.apply(&node_created_event(&tgt, "rds")).unwrap();

    // Kill the target
    proj.apply(&trigger(EventKind::NodeDeleted {
        node_id: tgt.clone(),
    }))
    .unwrap();

    // Creating an edge to a dead node should fail
    let edge_evt = trigger(EventKind::EdgeCreated {
        edge_id: fresh("edge"),
        source: src,
        target: tgt,
        type_id: "depends_on".to_string(),
        properties: Properties::new(),
    });
    assert!(proj.apply(&edge_evt).is_err());
}

#[test]
fn deleting_node_cascade_deletes_edges() {
    // When a node is deleted, all its edges are also deleted.
    // This prevents phantom edges from accumulating in the graph.
    let mut proj = Projection::new();
    let a = fresh("node");
    let b = fresh("node");
    proj.apply(&node_created_event(&a, "ec2")).unwrap();
    proj.apply(&node_created_event(&b, "vpc")).unwrap();

    let edge_id = fresh("edge");
    proj.apply(&trigger(EventKind::EdgeCreated {
        edge_id: edge_id.clone(),
        source: a.clone(),
        target: b.clone(),
        type_id: "in_vpc".to_string(),
        properties: Properties::new(),
    }))
    .unwrap();

    // Delete node a — edge is cascade-deleted
    proj.apply(&trigger(EventKind::NodeDeleted {
        node_id: a.clone(),
    }))
    .unwrap();

    // Edge is now dead
    assert!(!proj.has_edge(&edge_id));
    assert_eq!(proj.edge_count(), 0);
    // b's incoming index is also cleaned
    assert_eq!(proj.incoming_edges(&b).len(), 0);
}

#[test]
fn node_returns_dead_nodes_has_node_does_not() {
    let mut proj = Projection::new();
    let id = fresh("node");
    proj.apply(&node_created_event(&id, "ec2")).unwrap();
    proj.apply(&trigger(EventKind::NodeDeleted {
        node_id: id.clone(),
    }))
    .unwrap();

    // node() returns it (dead nodes are still in storage)
    assert!(proj.node(&id).is_some());
    assert!(!proj.node(&id).unwrap().is_alive());

    // has_node() returns false (checks alive)
    assert!(!proj.has_node(&id));
}

#[test]
fn no_op_update_returns_false() {
    let mut proj = Projection::new();
    let id = fresh("node");
    proj.apply(&node_created_with_props(
        &id,
        "ec2",
        Properties::from_pairs(vec![("state".to_string(), Value::String("running".into()))]),
    ))
    .unwrap();

    // Same value — not a change
    let update = trigger(EventKind::NodeUpdated {
        node_id: id.clone(),
        changes: Properties::from_pairs(vec![("state".to_string(), Value::String("running".into()))]),
    });
    let changed = proj.apply(&update).unwrap();
    assert!(!changed); // No actual mutation
}

#[test]
fn node_deletion_cascades_to_edges() {
    let mut proj = Projection::new();
    let a = fresh("node");
    let b = fresh("node");
    let c = fresh("node");
    let e1 = fresh("edge");
    let e2 = fresh("edge");

    // Create nodes
    proj.apply(&node_created_event(&a, "ec2")).unwrap();
    proj.apply(&node_created_event(&b, "rds")).unwrap();
    proj.apply(&node_created_event(&c, "vpc")).unwrap();

    // Create edges: a->b, a->c
    proj.apply(&trigger(EventKind::EdgeCreated {
        edge_id: e1.clone(),
        source: a.clone(),
        target: b.clone(),
        type_id: "depends_on".to_string(),
        properties: Properties::new(),
    })).unwrap();
    proj.apply(&trigger(EventKind::EdgeCreated {
        edge_id: e2.clone(),
        source: a.clone(),
        target: c.clone(),
        type_id: "in_vpc".to_string(),
        properties: Properties::new(),
    })).unwrap();

    assert_eq!(proj.edge_count(), 2);
    assert_eq!(proj.outgoing_edges(&a).len(), 2);
    assert_eq!(proj.incoming_edges(&b).len(), 1);
    assert_eq!(proj.incoming_edges(&c).len(), 1);

    // Delete node a — both edges should die
    proj.apply(&trigger(EventKind::NodeDeleted {
        node_id: a.clone(),
    })).unwrap();

    assert_eq!(proj.node_count(), 2); // b and c remain
    assert_eq!(proj.edge_count(), 0); // both edges deleted
    assert_eq!(proj.outgoing_edges(&a).len(), 0);
    assert_eq!(proj.incoming_edges(&b).len(), 0);
    assert_eq!(proj.incoming_edges(&c).len(), 0);

    // Edges should be marked dead
    assert!(!proj.edge(&e1).unwrap().is_alive());
    assert!(!proj.edge(&e2).unwrap().is_alive());
}

#[test]
fn node_deletion_cleans_incoming_edges_from_other_nodes() {
    let mut proj = Projection::new();
    let a = fresh("node");
    let b = fresh("node");
    let e1 = fresh("edge");

    proj.apply(&node_created_event(&a, "ec2")).unwrap();
    proj.apply(&node_created_event(&b, "vpc")).unwrap();

    // a -> b
    proj.apply(&trigger(EventKind::EdgeCreated {
        edge_id: e1.clone(),
        source: a.clone(),
        target: b.clone(),
        type_id: "in_vpc".to_string(),
        properties: Properties::new(),
    })).unwrap();

    // Delete b (the target) — the edge should be cleaned from a's outgoing index too
    proj.apply(&trigger(EventKind::NodeDeleted {
        node_id: b.clone(),
    })).unwrap();

    assert_eq!(proj.edge_count(), 0);
    assert_eq!(proj.outgoing_edges(&a).len(), 0); // a's outgoing cleaned
}

#[test]
fn double_deletion_is_noop() {
    let mut proj = Projection::new();
    let a = fresh("node");
    proj.apply(&node_created_event(&a, "ec2")).unwrap();

    let del = trigger(EventKind::NodeDeleted { node_id: a.clone() });
    assert!(proj.apply(&del).unwrap()); // First delete: true
    assert!(!proj.apply(&del).unwrap()); // Second delete: false (already dead)
}
