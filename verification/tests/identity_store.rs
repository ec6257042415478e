use hydra_engine::error::HydraError;
use hydra_engine::event::{Event, EventKind, Stamp};
use hydra_engine::identity::{IdentityAlias, IdentityEntity, IdentityEntityKind};
use hydra_engine::identity_store::IdentityStore;
use hydra_engine::ids::{ActorId, Id, TenantId};
use hydra_engine::number::Number;
use hydra_engine::time::Timestamp;
use hydra_engine::value::Properties;
use std::collections::hash_map::RandomState;
use std::hash::{BuildHasher, Hasher};

fn fresh(prefix: &str) -> Id {
    Id::from_str(&format!("{}_{:016x}", prefix, RandomState::new().build_hasher().finish()))
}

fn stamp() -> Stamp {
    Stamp { id: fresh("evt"), timestamp: Timestamp::at(1_780_000_000) }
}

fn trigger(kind: EventKind) -> Event {
    Event::trigger(kind, stamp(), fresh("casc"))
}

fn number(x: f64) -> Number {
    Number::from_bits(x.to_bits())
}

fn actor() -> ActorId {
    ActorId::from_str("actor_ops")
}

/// Build a minimal `IdentityEntity` for tests.
fn make_entity(
    tenant_id: Option<TenantId>,
    kind: IdentityEntityKind,
    canonical_key: &str,
    aliases: Vec<IdentityAlias>,
) -> IdentityEntity {
    let now = Timestamp::at(1_780_000_000);
    IdentityEntity {
        id: fresh("entity"),
        tenant_id,
        kind,
        canonical_key: canonical_key.to_string(),
        display_name: canonical_key.to_string(),
        aliases,
        confidence: number(1.0),
        metadata: Properties::new(),
        created_by: actor(),
        created_at: now,
        updated_at: now,
        caused_by: None,
    }
}

fn snowflake_alias(ns: &str, table: &str) -> IdentityAlias {
    IdentityAlias {
        source: "snowflake".to_string(),
        namespace: Some(ns.to_string()),
        external_id: Some(format!("{ns}.{table}").to_uppercase()),
        label: format!("{ns}.{table}").to_uppercase(),
        normalized: format!("{}.{}", ns.to_lowercase(), table.to_lowercase()),
    }
}

#[test]
fn creates_and_reads_entity() {
    let mut store = IdentityStore::new();
    let tenant = TenantId::from_str("tenant_a");
    let entity = make_entity(
        Some(tenant.clone()),
        IdentityEntityKind::Dataset,
        "dataset/revenue_daily",
        vec![snowflake_alias("analytics", "revenue_daily")],
    );
    let id = entity.id.clone();
    let inserted = store.create_entity(entity).unwrap();
    assert_eq!(store.entity_count(), 1);
    assert_eq!(store.entity(&id), Some(&inserted));
}

#[test]
fn identity_store_indexes_by_kind() {
    let mut store = IdentityStore::new();
    let tenant = TenantId::from_str("tenant_a");
    let dataset = make_entity(
        Some(tenant.clone()),
        IdentityEntityKind::Dataset,
        "dataset/revenue_daily",
        vec![snowflake_alias("analytics", "revenue_daily")],
    );
    let service = make_entity(
        Some(tenant.clone()),
        IdentityEntityKind::Service,
        "service/payments_api",
        vec![],
    );
    store.create_entity(dataset.clone()).unwrap();
    store.create_entity(service.clone()).unwrap();
    let datasets = store
        .entities_with_kind(&IdentityEntityKind::Dataset);
    assert_eq!(datasets.len(), 1);
    assert_eq!(datasets[0].id, dataset.id);
    let services = store
        .entities_with_kind(&IdentityEntityKind::Service);
    assert_eq!(services.len(), 1);
    assert_eq!(services[0].id, service.id);
}

#[test]
fn indexes_by_alias() {
    let mut store = IdentityStore::new();
    let tenant = TenantId::from_str("tenant_a");
    let entity = make_entity(
        Some(tenant.clone()),
        IdentityEntityKind::Dataset,
        "dataset/revenue_daily",
        vec![snowflake_alias("analytics", "revenue_daily")],
    );
    let id = entity.id.clone();
    store.create_entity(entity).unwrap();
    let found = store
        .entity_by_alias(
            Some(&tenant),
            "snowflake",
            Some("analytics"),
            "analytics.revenue_daily",
        )
        .expect("alias resolves");
    assert_eq!(found.id, id);
}

#[test]
fn rejects_duplicate_alias_same_tenant() {
    let mut store = IdentityStore::new();
    let tenant = TenantId::from_str("tenant_a");
    let a = make_entity(
        Some(tenant.clone()),
        IdentityEntityKind::Dataset,
        "dataset/a",
        vec![snowflake_alias("analytics", "revenue_daily")],
    );
    let b = make_entity(
        Some(tenant.clone()),
        IdentityEntityKind::Dataset,
        "dataset/b",
        vec![snowflake_alias("analytics", "revenue_daily")],
    );
    store.create_entity(a).unwrap();
    match store.create_entity(b) {
        Err(HydraError::QueryError(msg)) => {
            assert!(
                msg.contains("duplicate alias"),
                "expected duplicate-alias error, got {msg}"
            );
        }
        other => panic!("expected QueryError, got {other:?}"),
    }
}

#[test]
fn allows_same_alias_under_different_tenant() {
    let mut store = IdentityStore::new();
    let tenant_a = TenantId::from_str("tenant_a");
    let tenant_b = TenantId::from_str("tenant_b");
    let a = make_entity(
        Some(tenant_a),
        IdentityEntityKind::Dataset,
        "dataset/x",
        vec![snowflake_alias("analytics", "revenue_daily")],
    );
    let b = make_entity(
        Some(tenant_b),
        IdentityEntityKind::Dataset,
        "dataset/x",
        vec![snowflake_alias("analytics", "revenue_daily")],
    );
    store.create_entity(a).unwrap();
    // Same alias triple, different tenant → different
    // index_key → no conflict.
    store.create_entity(b).unwrap();
    assert_eq!(store.entity_count(), 2);
}

#[test]
fn rejects_duplicate_canonical_key_same_tenant() {
    let mut store = IdentityStore::new();
    let tenant = TenantId::from_str("tenant_a");
    let a = make_entity(
        Some(tenant.clone()),
        IdentityEntityKind::Dataset,
        "dataset/revenue_daily",
        vec![],
    );
    let b = make_entity(
        Some(tenant),
        IdentityEntityKind::Dataset,
        "dataset/revenue_daily",
        vec![snowflake_alias("ops", "different_thing")],
    );
    store.create_entity(a).unwrap();
    match store.create_entity(b) {
        Err(HydraError::QueryError(msg)) => {
            assert!(
                msg.contains("duplicate canonical_key"),
                "expected duplicate-canonical-key error, got {msg}"
            );
        }
        other => panic!("expected QueryError, got {other:?}"),
    }
}

#[test]
fn entity_by_alias_none_tenant_strict_isolation() {
    // A system (`None`-tenanted) entity
    // must NOT be visible to a tenanted alias query. The
    // index sentinels guarantee distinct slots; this pin
    // catches any future refactor that "unifies" them.
    let mut store = IdentityStore::new();
    let system = make_entity(
        None,
        IdentityEntityKind::Source,
        "source/snowflake_prod",
        vec![IdentityAlias {
            source: "snowflake".to_string(),
            namespace: None,
            external_id: None,
            label: "snowflake-prod".to_string(),
            normalized: "snowflake-prod".to_string(),
        }],
    );
    store.create_entity(system).unwrap();
    let tenant = TenantId::from_str("tenant_a");
    // Tenanted query → none.
    assert!(store
        .entity_by_alias(
            Some(&tenant),
            "snowflake",
            None,
            "snowflake-prod",
        )
        .is_none());
    // None query → finds it.
    assert!(store
        .entity_by_alias(None, "snowflake", None, "snowflake-prod",)
        .is_some());
}

#[test]
fn apply_event_replays_entity() {
    // `apply_event` is the replay path. Direct ingestion
    // via `apply_event` (bypassing `create_entity`) must
    // produce the same indexed state.
    let mut store = IdentityStore::new();
    let entity = make_entity(
        Some(TenantId::from_str("tenant_a")),
        IdentityEntityKind::Dataset,
        "dataset/revenue_daily",
        vec![snowflake_alias("analytics", "revenue_daily")],
    );
    let id = entity.id.clone();
    let event = trigger(EventKind::IdentityEntityCreated {
        entity,
    });
    store.apply_event(&event).unwrap();
    assert_eq!(store.entity_count(), 1);
    assert!(store.entity(&id).is_some());
}

#[test]
fn rejects_invalid_alias_sentinel() {
    // `IdentityAlias::validate` is invoked inside
    // `create_entity` so a caller can't smuggle the
    // `__system__` sentinel as a source name.
    let mut store = IdentityStore::new();
    let tenant = TenantId::from_str("tenant_a");
    let entity = make_entity(
        Some(tenant),
        IdentityEntityKind::Dataset,
        "dataset/x",
        vec![IdentityAlias {
            source: "__system__".to_string(),
            namespace: None,
            external_id: None,
            label: "x".to_string(),
            normalized: "x".to_string(),
        }],
    );
    match store.create_entity(entity) {
        Err(HydraError::QueryError(msg)) => {
            assert!(msg.contains("reserved sentinel"), "msg: {msg}");
        }
        other => panic!("expected QueryError, got {other:?}"),
    }
}
