use hydra_engine::error::HydraError;
use hydra_engine::event::{Event, EventKind, Stamp};
use hydra_engine::identity::{IdentityAlias, IdentityEntity, IdentityEntityKind, IdentityLink, IdentityLinkKind};
use hydra_engine::identity_link_store::IdentityLinkStore;
use hydra_engine::identity_store::IdentityStore;
use hydra_engine::ids::{ActorId, Id, IdentityEntityId, TenantId};
use hydra_engine::number::Number;
use hydra_engine::time::Timestamp;
use hydra_engine::value::Properties;
use std::collections::hash_map::RandomState;
use std::hash::{BuildHasher, Hasher};

fn fresh(prefix: &str) -> Id {
    Id::from_str(&format!("{}_{:016x}", prefix, RandomState::new().build_hasher().finish()))
}

fn stamp() -> Stamp {
    Stamp { id: fresh("evt"), timestamp: Timestamp::at(1_780_000_000) }
}

fn trigger(kind: EventKind) -> Event {
    Event::trigger(kind, stamp(), fresh("casc"))
}

fn number(x: f64) -> Number {
    Number::from_bits(x.to_bits())
}

fn make_entity(
    tenant: Option<TenantId>,
    canonical_key: &str,
) -> IdentityEntity {
    let now = Timestamp::at(1_780_000_000);
    IdentityEntity {
        id: fresh("entity"),
        tenant_id: tenant,
        kind: IdentityEntityKind::Dataset,
        canonical_key: canonical_key.to_string(),
        display_name: canonical_key.to_string(),
        aliases: vec![IdentityAlias {
            source: "snowflake".to_string(),
            namespace: Some("analytics".to_string()),
            external_id: Some(canonical_key.to_string()),
            label: canonical_key.to_string(),
            normalized: canonical_key.to_string(),
        }],
        confidence: number(0.9),
        metadata: Properties::new(),
        created_by: ActorId::from_str("actor_ops"),
        created_at: now,
        updated_at: now,
        caused_by: None,
    }
}

fn make_link(
    tenant: Option<TenantId>,
    kind: IdentityLinkKind,
    from: &IdentityEntityId,
    to: &IdentityEntityId,
) -> IdentityLink {
    let now = Timestamp::at(1_780_000_000);
    IdentityLink {
        id: fresh("link"),
        tenant_id: tenant,
        kind,
        from_entity_id: from.clone(),
        to_entity_id: to.clone(),
        confidence: number(0.9),
        evidence_ids: vec![],
        claim_ids: vec![],
        cell_ids: vec![],
        metadata: Properties::new(),
        created_by: ActorId::from_str("actor_ops"),
        created_at: now,
        caused_by: None,
    }
}

fn seed_two_entities(
    store: &mut IdentityStore,
    tenant: Option<TenantId>,
) -> (IdentityEntityId, IdentityEntityId) {
    let a = make_entity(tenant.clone(), "dataset/a");
    let b = {
        let mut e = make_entity(tenant.clone(), "dataset/b");
        // Distinct alias so it doesn't collide with `a`'s in
        // the alias index.
        e.aliases[0].normalized = "dataset.b".to_string();
        e.aliases[0].label = "dataset.b".to_string();
        e.aliases[0].external_id = Some("dataset.b".to_string());
        e
    };
    let a_id = a.id.clone();
    let b_id = b.id.clone();
    store.create_entity(a).unwrap();
    store.create_entity(b).unwrap();
    (a_id, b_id)
}

#[test]
fn creates_and_reads_link() {
    let mut entities = IdentityStore::new();
    let tenant = TenantId::from_str("tenant_p37");
    let (a, b) = seed_two_entities(&mut entities, Some(tenant.clone()));
    let mut links = IdentityLinkStore::new();
    let link = make_link(
        Some(tenant.clone()),
        IdentityLinkKind::DependsOn,
        &a,
        &b,
    );
    let id = link.id.clone();
    let stored = links.create_link(link, &entities).unwrap();
    assert_eq!(stored.id, id);
    assert_eq!(links.link_count(), 1);
    assert_eq!(links.link(&id).map(|l| &l.id), Some(&id));
}

#[test]
fn identity_link_store_indexes_by_kind() {
    let mut entities = IdentityStore::new();
    let tenant = TenantId::from_str("tenant_p37");
    let (a, b) = seed_two_entities(&mut entities, Some(tenant.clone()));
    let mut links = IdentityLinkStore::new();
    links
        .create_link(
            make_link(
                Some(tenant.clone()),
                IdentityLinkKind::DependsOn,
                &a,
                &b,
            ),
            &entities,
        )
        .unwrap();
    links
        .create_link(
            make_link(
                Some(tenant),
                IdentityLinkKind::OwnedBy,
                &b,
                &a,
            ),
            &entities,
        )
        .unwrap();
    let depends = links.links_with_kind(&IdentityLinkKind::DependsOn);
    assert_eq!(depends.len(), 1);
    let owned = links.links_with_kind(&IdentityLinkKind::OwnedBy);
    assert_eq!(owned.len(), 1);
    let same_as = links.links_with_kind(&IdentityLinkKind::SameAs);
    assert!(same_as.is_empty());
}

#[test]
fn indexes_by_from_and_by_to() {
    let mut entities = IdentityStore::new();
    let tenant = TenantId::from_str("tenant_p37");
    let (a, b) = seed_two_entities(&mut entities, Some(tenant.clone()));
    let mut links = IdentityLinkStore::new();
    links
        .create_link(
            make_link(
                Some(tenant),
                IdentityLinkKind::DependsOn,
                &a,
                &b,
            ),
            &entities,
        )
        .unwrap();
    assert_eq!(links.links_from(&a).len(), 1);
    assert_eq!(links.links_to(&b).len(), 1);
    // No outgoing from `b`, no incoming to `a`.
    assert!(links.links_from(&b).is_empty());
    assert!(links.links_to(&a).is_empty());
    // Union surface covers both endpoints.
    assert_eq!(links.links_for_entity(&a).len(), 1);
    assert_eq!(links.links_for_entity(&b).len(), 1);
}

#[test]
fn rejects_self_link() {
    let mut entities = IdentityStore::new();
    let tenant = TenantId::from_str("tenant_p37");
    let (a, _b) = seed_two_entities(&mut entities, Some(tenant.clone()));
    let mut links = IdentityLinkStore::new();
    let bad = make_link(
        Some(tenant),
        IdentityLinkKind::SameAs,
        &a,
        &a,
    );
    let err = links.create_link(bad, &entities).unwrap_err();
    match err {
        HydraError::QueryError(msg) => {
            assert!(
                msg.contains("self-link rejected"),
                "expected self-link rejection, got: {msg}"
            );
        }
        other => panic!("expected QueryError, got: {other:?}"),
    }
    assert_eq!(links.link_count(), 0);
}

#[test]
fn rejects_duplicate_pair_kind() {
    let mut entities = IdentityStore::new();
    let tenant = TenantId::from_str("tenant_p37");
    let (a, b) = seed_two_entities(&mut entities, Some(tenant.clone()));
    let mut links = IdentityLinkStore::new();
    links
        .create_link(
            make_link(
                Some(tenant.clone()),
                IdentityLinkKind::DependsOn,
                &a,
                &b,
            ),
            &entities,
        )
        .unwrap();
    let dup = make_link(
        Some(tenant),
        IdentityLinkKind::DependsOn,
        &a,
        &b,
    );
    let err = links.create_link(dup, &entities).unwrap_err();
    match err {
        HydraError::QueryError(msg) => {
            assert!(msg.contains("duplicate link"), "got: {msg}");
        }
        other => panic!("expected QueryError, got: {other:?}"),
    }
    assert_eq!(links.link_count(), 1);
}

#[test]
fn allows_same_pair_different_kinds() {
    // DependsOn(A,B) and OwnedBy(A,B) are distinct edges —
    // the duplicate-prevention key is per-kind.
    let mut entities = IdentityStore::new();
    let tenant = TenantId::from_str("tenant_p37");
    let (a, b) = seed_two_entities(&mut entities, Some(tenant.clone()));
    let mut links = IdentityLinkStore::new();
    links
        .create_link(
            make_link(
                Some(tenant.clone()),
                IdentityLinkKind::DependsOn,
                &a,
                &b,
            ),
            &entities,
        )
        .unwrap();
    links
        .create_link(
            make_link(
                Some(tenant),
                IdentityLinkKind::OwnedBy,
                &a,
                &b,
            ),
            &entities,
        )
        .unwrap();
    assert_eq!(links.link_count(), 2);
}

#[test]
fn mixed_tenant_link_rejected_indistinguishably() {
    // All three failure modes — wrong-tenant
    // entity, Some/None mismatch, and genuine miss — surface
    // as the SAME `"unknown identity entity: {id}"` error.
    // This prevents cross-tenant existence enumeration.
    let mut entities = IdentityStore::new();
    let tenant_a = TenantId::from_str("tenant_a");
    let tenant_b = TenantId::from_str("tenant_b");
    let (a_in_a, _) =
        seed_two_entities(&mut entities, Some(tenant_a.clone()));

    // Direction 1: link in tenant_b references entity in
    // tenant_a — wrong tenant on the `from` side.
    let mut links = IdentityLinkStore::new();
    let phantom_to = fresh("entity");
    let cross = make_link(
        Some(tenant_b.clone()),
        IdentityLinkKind::DependsOn,
        &a_in_a,
        &phantom_to,
    );
    let err = links.create_link(cross, &entities).unwrap_err();
    match err {
        HydraError::QueryError(msg) => {
            assert!(
                msg.contains("unknown identity entity"),
                "wrong-tenant must surface as unknown identity \
                 entity (no cross-tenant leak), got: {msg}"
            );
        }
        other => panic!("expected QueryError, got: {other:?}"),
    }

    // Direction 2: Some/None mismatch — link.tenant_id is
    // None but entity is in tenant_a. Same indistinguishable
    // error.
    let phantom_to_2 = fresh("entity");
    let cross2 = make_link(
        None,
        IdentityLinkKind::DependsOn,
        &a_in_a,
        &phantom_to_2,
    );
    let err2 = links.create_link(cross2, &entities).unwrap_err();
    match err2 {
        HydraError::QueryError(msg) => {
            assert!(msg.contains("unknown identity entity"));
        }
        other => panic!("expected QueryError, got: {other:?}"),
    }

    // Direction 3: genuine miss — entity id never created.
    // Same error string.
    let ghost = fresh("entity");
    let phantom_to_3 = fresh("entity");
    let cross3 = make_link(
        Some(tenant_a),
        IdentityLinkKind::DependsOn,
        &ghost,
        &phantom_to_3,
    );
    let err3 = links.create_link(cross3, &entities).unwrap_err();
    match err3 {
        HydraError::QueryError(msg) => {
            assert!(msg.contains("unknown identity entity"));
        }
        other => panic!("expected QueryError, got: {other:?}"),
    }

    assert_eq!(links.link_count(), 0);
}

#[test]
fn none_tenanted_link_between_none_entities_allowed() {
    // None + None + None is a valid configuration for
    // system-wide assertions about None-tenanted entities.
    let mut entities = IdentityStore::new();
    let (a, b) = seed_two_entities(&mut entities, None);
    let mut links = IdentityLinkStore::new();
    let link = make_link(
        None,
        IdentityLinkKind::SameAs,
        &a,
        &b,
    );
    let stored = links.create_link(link, &entities).unwrap();
    assert!(stored.tenant_id.is_none());
    // No tenant sees None-tenanted links.
    assert!(links.links_for_tenant(&TenantId::from_str("tenant_p37")).is_empty());
    assert!(links.links_for_tenant(&TenantId::from_str("")).is_empty());
}

#[test]
fn apply_event_replays_link() {
    // Replay path skips validation; inserts directly.
    let mut links = IdentityLinkStore::new();
    let tenant = TenantId::from_str("tenant_p37");
    let a = fresh("entity");
    let b = fresh("entity");
    let link = make_link(
        Some(tenant),
        IdentityLinkKind::DependsOn,
        &a,
        &b,
    );
    let event = trigger(EventKind::IdentityLinkCreated {
        link: link.clone(),
    });
    links.apply_event(&event).unwrap();
    assert_eq!(links.link_count(), 1);
    assert!(links.link(&link.id).is_some());
}
