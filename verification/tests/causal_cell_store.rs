use hydra_engine::causal_cell::{CausalCell, CausalCellKind};
use hydra_engine::causal_cell_store::CausalCellStore;
use hydra_engine::event::{Event, EventKind};
use hydra_engine::ids::{ActorId, Id, NodeId, TenantId};
use hydra_engine::time::Timestamp;
use hydra_engine::value::Properties;
use std::collections::hash_map::RandomState;
use std::hash::{BuildHasher, Hasher};

fn fresh(prefix: &str) -> Id {
    Id::from_str(&format!("{}_{:016x}", prefix, RandomState::new().build_hasher().finish()))
}

fn event_of(kind: EventKind) -> Event {
    Event {
        id: fresh("evt"),
        timestamp: Timestamp::at(1_780_000_000),
        kind,
        caused_by: Vec::new(),
        cascade_id: fresh("casc"),
        cascade_depth: 0,
        cascade_breadth_index: 0,
        tenant_id: None,
    }
}

fn cell_with(
    kind: CausalCellKind,
    subject: &str,
    tenant: Option<TenantId>,
) -> CausalCell {
    CausalCell {
        id: fresh("cell"),
        tenant_id: tenant,
        kind,
        subject: subject.to_string(),
        created_by: ActorId::from_str("actor_ops"),
        created_at: Timestamp::at(1_780_000_000),
        metadata: Properties::new(),
        caused_by: None,
    }
}

#[test]
fn apply_event_inserts_cell_into_store() {
    let mut store = CausalCellStore::new();
    assert_eq!(store.cell_count(), 0);
    let cell = cell_with(CausalCellKind::Reflex, "hydra.commit-rate", None);
    let cell_id = cell.id.clone();
    store
        .apply_event(&event_of(EventKind::CausalCellCreated {
            cell: cell.clone(),
        }))
        .unwrap();
    assert_eq!(store.cell_count(), 1);
    assert_eq!(store.cell(&cell_id), Some(&cell));
}

#[test]
fn apply_event_ignores_unrelated_event_kinds() {
    // Every other store follows the silent-ignore pattern.
    // Pin that the causal cell store does the same.
    let mut store = CausalCellStore::new();
    let unrelated = event_of(EventKind::Signal {
        source: NodeId::from_str("test.signal"),
        name: "noise".to_string(),
        payload: Properties::new(),
    });
    store.apply_event(&unrelated).unwrap();
    assert_eq!(store.cell_count(), 0);
}

#[test]
fn cells_with_kind_filters_correctly() {
    let mut store = CausalCellStore::new();
    let reflex_a =
        cell_with(CausalCellKind::Reflex, "hydra.commit-rate", None);
    let reflex_b =
        cell_with(CausalCellKind::Reflex, "hydra.replication", None);
    let incident =
        cell_with(CausalCellKind::Incident, "incident-1", None);
    store.insert_cell(reflex_a.clone());
    store.insert_cell(reflex_b.clone());
    store.insert_cell(incident.clone());

    let reflexes = store.cells_with_kind(&CausalCellKind::Reflex);
    assert_eq!(reflexes.len(), 2);
    let incidents = store.cells_with_kind(&CausalCellKind::Incident);
    assert_eq!(incidents.len(), 1);
    assert_eq!(incidents[0].subject, "incident-1");

    // Custom kinds index by their label — different labels are
    // distinct buckets.
    let custom_a =
        cell_with(CausalCellKind::Custom("alpha".into()), "x", None);
    let custom_b =
        cell_with(CausalCellKind::Custom("beta".into()), "y", None);
    store.insert_cell(custom_a.clone());
    store.insert_cell(custom_b.clone());
    let alpha = store
        .cells_with_kind(&CausalCellKind::Custom("alpha".into()));
    assert_eq!(alpha.len(), 1);
    assert_eq!(alpha[0].subject, "x");
}

#[test]
fn cells_for_tenant_filters_strictly() {
    let mut store = CausalCellStore::new();
    let scoped = cell_with(
        CausalCellKind::Health,
        "tenant_a.health",
        Some(TenantId::from_str("ten_a")),
    );
    let unscoped = cell_with(
        CausalCellKind::Health,
        "system.health",
        None,
    );
    store.insert_cell(scoped.clone());
    store.insert_cell(unscoped.clone());

    let for_a = store.cells_for_tenant(&TenantId::from_str("ten_a"));
    assert_eq!(for_a.len(), 1);
    assert_eq!(for_a[0].id, scoped.id);

    let for_b = store.cells_for_tenant(&TenantId::from_str("ten_b"));
    assert!(for_b.is_empty());
}

#[test]
fn insert_cell_is_idempotent_on_replay() {
    // Replay path may re-apply the same `CausalCellCreated`
    // event during recovery. Inserting the same id twice
    // must not double-count.
    let mut store = CausalCellStore::new();
    let cell = cell_with(CausalCellKind::Reflex, "x", None);
    store.insert_cell(cell.clone());
    store.insert_cell(cell.clone());
    assert_eq!(store.cell_count(), 1);
    assert_eq!(
        store.cells_with_kind(&CausalCellKind::Reflex).len(),
        1
    );
}
