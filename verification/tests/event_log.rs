use hydra_engine::event::{Event, EventKind, Stamp};
use hydra_engine::event_log::{EventLog, EventLogConfig};
use hydra_engine::ids::{EventId, Id};
use hydra_engine::number::Number;
use hydra_engine::time::Timestamp;
use hydra_engine::value::Properties;
use std::collections::hash_map::RandomState;
use std::hash::{BuildHasher, Hasher};

fn fresh(prefix: &str) -> Id {
    Id::from_str(&format!("{}_{:016x}", prefix, RandomState::new().build_hasher().finish()))
}

fn stamp() -> Stamp {
    Stamp { id: fresh("evt"), timestamp: Timestamp::at(1_780_000_000) }
}

fn trigger(kind: EventKind) -> Event {
    Event::trigger(kind, stamp(), fresh("casc"))
}

fn reaction(kind: EventKind, parent: &Event) -> Event {
    Event::reaction(kind, parent, stamp())
}

fn number(x: f64) -> Number {
    Number::from_bits(x.to_bits())
}

fn make_trigger() -> Event {
    trigger(EventKind::NodeCreated {
        node_id: fresh("node"),
        type_id: "ec2".to_string(),
        properties: Properties::new(),
    })
}

#[test]
fn append_and_get() {
    let mut log = EventLog::new();
    let evt = make_trigger();
    let id = evt.id.clone();

    log.append(evt);
    assert_eq!(log.len(), 1);
    assert!(log.get(&id).is_some());
    assert_eq!(log.get(&id).unwrap().id, id);
}

#[test]
fn cascade_events_grouped() {
    let mut log = EventLog::new();
    let trigger = make_trigger();
    let cascade_id = trigger.cascade_id.clone();

    let reaction = reaction(
        EventKind::NodeUpdated {
            node_id: fresh("node"),
            changes: Properties::new(),
        },
        &trigger,
    );

    log.append(trigger);
    log.append(reaction);

    let cascade = log.cascade_events(&cascade_id);
    assert_eq!(cascade.len(), 2);
}

#[test]
fn causal_chain_forward() {
    let mut log = EventLog::new();

    let e0 = make_trigger();
    let e1 = reaction(
        EventKind::NodeUpdated {
            node_id: fresh("node"),
            changes: Properties::new(),
        },
        &e0,
    );
    let e2 = reaction(
        EventKind::Signal {
            name: "alert".to_string(),
            source: fresh("node"),
            payload: Properties::new(),
        },
        &e1,
    );

    let e0_id = e0.id.clone();
    let e1_id = e1.id.clone();
    let e2_id = e2.id.clone();

    log.append(e0);
    log.append(e1);
    log.append(e2);

    let chain = log.causal_chain(&e0_id);
    assert_eq!(chain.len(), 2); // e1 and e2 (not e0 itself)
    assert_eq!(chain[0].id, e1_id);
    assert_eq!(chain[1].id, e2_id);
}

#[test]
fn root_cause_backward() {
    let mut log = EventLog::new();

    let e0 = make_trigger();
    let e1 = reaction(
        EventKind::NodeUpdated {
            node_id: fresh("node"),
            changes: Properties::new(),
        },
        &e0,
    );
    let e2 = reaction(
        EventKind::Signal {
            name: "alert".to_string(),
            source: fresh("node"),
            payload: Properties::new(),
        },
        &e1,
    );

    let e0_id = e0.id.clone();
    let e2_id = e2.id.clone();

    log.append(e0);
    log.append(e1);
    log.append(e2);

    let chain = log.root_cause(&e2_id);
    assert_eq!(chain.len(), 3); // e0, e1, e2 (oldest first)
    assert_eq!(chain[0].id, e0_id);
    assert_eq!(chain[2].id, e2_id);
    assert!(chain[0].is_trigger());
}

#[test]
fn causal_chain_of_leaf_is_empty() {
    let mut log = EventLog::new();
    let evt = make_trigger();
    let id = evt.id.clone();
    log.append(evt);

    let chain = log.causal_chain(&id);
    assert!(chain.is_empty()); // No children
}

#[test]
fn root_cause_of_trigger_is_itself() {
    let mut log = EventLog::new();
    let evt = make_trigger();
    let id = evt.id.clone();
    log.append(evt);

    let chain = log.root_cause(&id);
    assert_eq!(chain.len(), 1);
    assert_eq!(chain[0].id, id);
}

#[test]
fn cascade_size() {
    let mut log = EventLog::new();
    let trigger = make_trigger();
    let cascade_id = trigger.cascade_id.clone();
    let r1 = reaction(
        EventKind::Signal {
            name: "x".to_string(),
            source: fresh("node"),
            payload: Properties::new(),
        },
        &trigger,
    );
    let r2 = reaction(
        EventKind::Signal {
            name: "y".to_string(),
            source: fresh("node"),
            payload: Properties::new(),
        },
        &trigger,
    );

    log.append(trigger);
    log.append(r1);
    log.append(r2);

    assert_eq!(log.cascade_size(&cascade_id), 3);
}

#[test]
fn iter_order() {
    let mut log = EventLog::new();
    let e0 = make_trigger();
    let e1 = make_trigger();
    let id0 = e0.id.clone();
    let id1 = e1.id.clone();

    log.append(e0);
    log.append(e1);

    let ids: Vec<_> = log.iter().into_iter().map(|e| e.id.clone()).collect();
    assert_eq!(ids[0], id0);
    assert_eq!(ids[1], id1);

    let rev_ids: Vec<_> = log.iter_rev().into_iter().map(|e| e.id.clone()).collect();
    assert_eq!(rev_ids[0], id1);
    assert_eq!(rev_ids[1], id0);
}

#[test]
fn compact_removes_events_up_to_cutoff() {
    let mut log = EventLog::new();
    let e0 = make_trigger();
    let e1 = make_trigger();
    let e2 = make_trigger();
    let e3 = make_trigger();
    let id1 = e1.id.clone();
    let id2 = e2.id.clone();
    let id3 = e3.id.clone();

    log.append(e0);
    log.append(e1);
    log.append(e2);
    log.append(e3);
    assert_eq!(log.len(), 4);

    // Compact up to e1 (removes e0 and e1)
    let removed = log.compact(&id1);
    assert_eq!(removed, 2);
    assert_eq!(log.len(), 2);

    // e2 and e3 remain, e0 and e1 are gone
    assert!(log.get(&id2).is_some());
    assert!(log.get(&id3).is_some());
    assert!(log.get(&id1).is_none());
}

#[test]
fn compact_nonexistent_event_is_noop() {
    let mut log = EventLog::new();
    log.append(make_trigger());
    let fake_id = EventId::from_str("evt_FAKE");
    let removed = log.compact(&fake_id);
    assert_eq!(removed, 0);
    assert_eq!(log.len(), 1);
}

#[test]
fn auto_compact_when_over_max() {
    let mut log = EventLog::with_config(EventLogConfig {
        max_events: 10,
        compact_fraction: number(0.5),
    });

    for _ in 0..15 {
        log.append(make_trigger());
    }
    assert_eq!(log.len(), 15);

    let removed = log.auto_compact();
    assert!(removed >= 5, "Should remove at least 5 events, removed {}", removed);
    assert!(log.len() <= 10, "Should be under max after compact, got {}", log.len());
}

#[test]
fn auto_compact_noop_when_under_max() {
    let mut log = EventLog::with_config(EventLogConfig {
        max_events: 100,
        compact_fraction: number(0.2),
    });

    for _ in 0..5 {
        log.append(make_trigger());
    }

    let removed = log.auto_compact();
    assert_eq!(removed, 0);
    assert_eq!(log.len(), 5);
}

#[test]
fn total_appended_tracks_across_compactions() {
    let mut log = EventLog::with_config(EventLogConfig {
        max_events: 50,
        compact_fraction: number(0.5),
    });

    for _ in 0..60 {
        log.append(make_trigger());
    }

    // Should have auto-compacted at least once
    log.auto_compact();
    assert!(log.total_appended() >= 60, "Total appended should be >= 60, got {}", log.total_appended());
    assert!(log.len() < 60, "In-memory count should be less than 60 after compact");
}
