use hydra_engine::coverage::{CoverageEngine, CoverageExpectation, CoverageModel};
use hydra_engine::event::{Event, EventKind, Stamp};
use hydra_engine::ids::{Id, NodeId};
use hydra_engine::number::Number;
use hydra_engine::projection::Projection;
use hydra_engine::time::Timestamp;
use hydra_engine::value::Properties;
use std::collections::hash_map::RandomState;
use std::hash::{BuildHasher, Hasher};

fn fresh(prefix: &str) -> Id {
    Id::from_str(&format!("{}_{:016x}", prefix, RandomState::new().build_hasher().finish()))
}

fn stamp() -> Stamp {
    Stamp { id: fresh("evt"), timestamp: Timestamp::at(1_780_000_000) }
}

fn trigger(kind: EventKind) -> Event {
    Event::trigger(kind, stamp(), fresh("casc"))
}

fn number(x: f64) -> Number {
    Number::from_bits(x.to_bits())
}

fn value_of(x: Number) -> f64 {
    f64::from_bits(x.to_bits())
}

fn create_node(proj: &mut Projection, type_id: &str) -> NodeId {
    let id = fresh("node");
    let event = trigger(EventKind::NodeCreated {
        node_id: id.clone(),
        type_id: type_id.to_string(),
        properties: Properties::new(),
    });
    proj.apply(&event).unwrap();
    id
}

fn create_edge(proj: &mut Projection, source: &NodeId, target: &NodeId, type_id: &str) {
    let event = trigger(EventKind::EdgeCreated {
        edge_id: fresh("edge"),
        source: source.clone(),
        target: target.clone(),
        type_id: type_id.to_string(),
        properties: Properties::new(),
    });
    proj.apply(&event).unwrap();
}

#[test]
fn min_node_count_met() {
    let mut proj = Projection::new();
    create_node(&mut proj, "ec2");
    create_node(&mut proj, "ec2");

    let engine = CoverageEngine::new();
    let model = CoverageModel {
        name: "test".to_string(),
        expectations: vec![CoverageExpectation::MinNodeCount {
            node_type: "ec2".to_string(),
            min_count: 2,
        }],
        scope_node_type: None,
    };

    let report = engine.evaluate(&model, &proj, Timestamp::at(1_780_000_000));
    assert!(report.is_complete());
    assert_eq!(value_of(report.score), 1.0);
    assert_eq!(report.met, 1);
}

#[test]
fn min_node_count_not_met() {
    let mut proj = Projection::new();
    create_node(&mut proj, "ec2");

    let engine = CoverageEngine::new();
    let model = CoverageModel {
        name: "test".to_string(),
        expectations: vec![CoverageExpectation::MinNodeCount {
            node_type: "ec2".to_string(),
            min_count: 5,
        }],
        scope_node_type: None,
    };

    let report = engine.evaluate(&model, &proj, Timestamp::at(1_780_000_000));
    assert!(!report.is_complete());
    assert_eq!(report.gaps.len(), 1);
    assert!((value_of(report.gaps[0].fulfillment) - 0.2).abs() < 0.001); // 1/5
    assert!(value_of(report.score) < 1.0);
}

#[test]
fn edge_coverage_met() {
    let mut proj = Projection::new();
    let ec2 = create_node(&mut proj, "ec2");
    let vpc = create_node(&mut proj, "vpc");
    create_edge(&mut proj, &ec2, &vpc, "in_vpc");

    let engine = CoverageEngine::new();
    let model = CoverageModel {
        name: "test".to_string(),
        expectations: vec![CoverageExpectation::EdgeCoverage {
            source_type: "ec2".to_string(),
            edge_type: "in_vpc".to_string(),
            target_type: "vpc".to_string(),
            min_per_source: 1,
        }],
        scope_node_type: None,
    };

    let report = engine.evaluate(&model, &proj, Timestamp::at(1_780_000_000));
    assert!(report.is_complete());
}

#[test]
fn edge_coverage_partial() {
    let mut proj = Projection::new();
    let ec2_a = create_node(&mut proj, "ec2");
    let ec2_b = create_node(&mut proj, "ec2");
    let vpc = create_node(&mut proj, "vpc");
    // Only ec2_a has the edge
    create_edge(&mut proj, &ec2_a, &vpc, "in_vpc");

    let engine = CoverageEngine::new();
    let model = CoverageModel {
        name: "test".to_string(),
        expectations: vec![CoverageExpectation::EdgeCoverage {
            source_type: "ec2".to_string(),
            edge_type: "in_vpc".to_string(),
            target_type: "vpc".to_string(),
            min_per_source: 1,
        }],
        scope_node_type: None,
    };

    let report = engine.evaluate(&model, &proj, Timestamp::at(1_780_000_000));
    assert!(!report.is_complete());
    assert_eq!(report.gaps.len(), 1);
    // 1 of 2 ec2 nodes violate → fulfillment = 0.5
    assert!((value_of(report.gaps[0].fulfillment) - 0.5).abs() < 0.001);
    assert_eq!(report.gaps[0].affected_nodes.len(), 1);
    assert_eq!(report.gaps[0].affected_nodes[0], ec2_b);
}

#[test]
fn type_ratio_met() {
    let mut proj = Projection::new();
    // 3 data assets, 2 backup policies → ratio = 2/3 = 0.67
    for _ in 0..3 {
        create_node(&mut proj, "data_asset");
    }
    for _ in 0..2 {
        create_node(&mut proj, "backup_policy");
    }

    let engine = CoverageEngine::new();
    let model = CoverageModel {
        name: "test".to_string(),
        expectations: vec![CoverageExpectation::TypeRatio {
            numerator_type: "backup_policy".to_string(),
            denominator_type: "data_asset".to_string(),
            min_ratio: number(0.5),
        }],
        scope_node_type: None,
    };

    let report = engine.evaluate(&model, &proj, Timestamp::at(1_780_000_000));
    assert!(report.is_complete());
}

#[test]
fn type_ratio_not_met() {
    let mut proj = Projection::new();
    // 10 data assets, 1 backup policy → ratio = 0.1
    for _ in 0..10 {
        create_node(&mut proj, "data_asset");
    }
    create_node(&mut proj, "backup_policy");

    let engine = CoverageEngine::new();
    let model = CoverageModel {
        name: "test".to_string(),
        expectations: vec![CoverageExpectation::TypeRatio {
            numerator_type: "backup_policy".to_string(),
            denominator_type: "data_asset".to_string(),
            min_ratio: number(0.5),
        }],
        scope_node_type: None,
    };

    let report = engine.evaluate(&model, &proj, Timestamp::at(1_780_000_000));
    assert!(!report.is_complete());
    assert_eq!(report.gaps.len(), 1);
    // fulfillment = 0.1 / 0.5 = 0.2
    assert!((value_of(report.gaps[0].fulfillment) - 0.2).abs() < 0.001);
}

#[test]
fn mixed_expectations() {
    let mut proj = Projection::new();
    let ec2 = create_node(&mut proj, "ec2");
    let vpc = create_node(&mut proj, "vpc");
    create_edge(&mut proj, &ec2, &vpc, "in_vpc");
    // No RDS nodes (gap)

    let engine = CoverageEngine::new();
    let model = CoverageModel {
        name: "sentinel_aws".to_string(),
        expectations: vec![
            CoverageExpectation::MinNodeCount {
                node_type: "ec2".to_string(),
                min_count: 1,
            },
            CoverageExpectation::MinNodeCount {
                node_type: "rds".to_string(),
                min_count: 1,
            },
            CoverageExpectation::EdgeCoverage {
                source_type: "ec2".to_string(),
                edge_type: "in_vpc".to_string(),
                target_type: "vpc".to_string(),
                min_per_source: 1,
            },
        ],
        scope_node_type: None,
    };

    let report = engine.evaluate(&model, &proj, Timestamp::at(1_780_000_000));
    assert_eq!(report.total_expectations, 3);
    assert_eq!(report.met, 2);
    assert_eq!(report.gaps.len(), 1);
    // Score: 2 fully met + 0 fulfillment from the gap = 2/3 ≈ 0.667
    assert!((value_of(report.score) - 2.0 / 3.0).abs() < 0.001);
}

#[test]
fn empty_graph_coverage() {
    let proj = Projection::new();

    let engine = CoverageEngine::new();
    let model = CoverageModel {
        name: "test".to_string(),
        expectations: vec![
            CoverageExpectation::MinNodeCount {
                node_type: "ec2".to_string(),
                min_count: 5,
            },
        ],
        scope_node_type: None,
    };

    let report = engine.evaluate(&model, &proj, Timestamp::at(1_780_000_000));
    assert_eq!(value_of(report.score), 0.0);
    assert_eq!(report.gaps.len(), 1);
}

#[test]
fn empty_model_perfect_score() {
    let proj = Projection::new();

    let engine = CoverageEngine::new();
    let model = CoverageModel {
        name: "empty".to_string(),
        expectations: vec![],
        scope_node_type: None,
    };

    let report = engine.evaluate(&model, &proj, Timestamp::at(1_780_000_000));
    assert_eq!(value_of(report.score), 1.0);
    assert!(report.is_complete());
}

#[test]
fn evaluate_all() {
    let mut proj = Projection::new();
    create_node(&mut proj, "ec2");

    let mut engine = CoverageEngine::new();
    engine.add_model(CoverageModel {
        name: "model_a".to_string(),
        expectations: vec![CoverageExpectation::MinNodeCount {
            node_type: "ec2".to_string(),
            min_count: 1,
        }],
        scope_node_type: None,
    });
    engine.add_model(CoverageModel {
        name: "model_b".to_string(),
        expectations: vec![CoverageExpectation::MinNodeCount {
            node_type: "rds".to_string(),
            min_count: 1,
        }],
        scope_node_type: None,
    });

    let reports = engine.evaluate_all(&proj, Timestamp::at(1_780_000_000));
    assert_eq!(reports.len(), 2);
    assert!(reports[0].is_complete()); // ec2 exists
    assert!(!reports[1].is_complete()); // rds missing
}

#[test]
fn edge_coverage_no_source_nodes() {
    let proj = Projection::new(); // empty graph

    let engine = CoverageEngine::new();
    let model = CoverageModel {
        name: "test".to_string(),
        expectations: vec![CoverageExpectation::EdgeCoverage {
            source_type: "ec2".to_string(),
            edge_type: "in_vpc".to_string(),
            target_type: "vpc".to_string(),
            min_per_source: 1,
        }],
        scope_node_type: None,
    };

    let report = engine.evaluate(&model, &proj, Timestamp::at(1_780_000_000));
    // No source nodes → can't evaluate → not a gap
    assert!(report.is_complete());
}

#[test]
fn type_ratio_zero_denominator() {
    let proj = Projection::new();

    let engine = CoverageEngine::new();
    let model = CoverageModel {
        name: "test".to_string(),
        expectations: vec![CoverageExpectation::TypeRatio {
            numerator_type: "backup_policy".to_string(),
            denominator_type: "data_asset".to_string(),
            min_ratio: number(0.5),
        }],
        scope_node_type: None,
    };

    let report = engine.evaluate(&model, &proj, Timestamp::at(1_780_000_000));
    // No denominator → undefined → not a gap
    assert!(report.is_complete());
}

#[test]
fn only_nodes_in_the_scope_are_evaluated() {
    let mut proj = Projection::new();
    let instance = create_node(&mut proj, "ec2");
    create_node(&mut proj, "vpc");
    let model = |scope: Option<&str>| CoverageModel {
        name: "m".to_string(),
        expectations: vec![CoverageExpectation::EdgeCoverage {
            source_type: "ec2".to_string(),
            edge_type: "in_vpc".to_string(),
            target_type: "vpc".to_string(),
            min_per_source: 1,
        }],
        scope_node_type: scope.map(|s| s.to_string()),
    };
    let engine = CoverageEngine::new();
    let report = engine.evaluate(&model(Some("vpc")), &proj, Timestamp::at(1_780_000_000));
    assert_eq!(report.gaps.len(), 0);
    assert_eq!(report.met, 1);
    assert_eq!(value_of(report.score), 1.0);
    for scope in [None, Some("ec2")] {
        let report = engine.evaluate(&model(scope), &proj, Timestamp::at(1_780_000_000));
        assert_eq!(report.gaps.len(), 1);
        assert_eq!(report.gaps[0].affected_nodes, vec![instance.clone()]);
        assert_eq!(value_of(report.score), 0.0);
    }
    let counted = CoverageModel {
        name: "m".to_string(),
        expectations: vec![CoverageExpectation::MinNodeCount { node_type: "ec2".to_string(), min_count: 1 }],
        scope_node_type: Some("vpc".to_string()),
    };
    let report = engine.evaluate(&counted, &proj, Timestamp::at(1_780_000_000));
    assert_eq!(report.gaps[0].description, "Expected at least 1 'ec2' nodes, found 0");
}
