use hydra_engine::epistemic::{Claim, ClaimKind, ClaimObject, ClaimStatus, ClaimSubject, Evidence, EvidencePayload, EvidenceSource};
use hydra_engine::epistemic_store::EpistemicStore;
use hydra_engine::event::{Event, EventKind};
use hydra_engine::ids::{ActorId, EvidenceId, Id, TenantId};
use hydra_engine::number::Number;
use hydra_engine::time::Timestamp;
use hydra_engine::value::{Properties, Value};
use std::collections::hash_map::RandomState;
use std::hash::{BuildHasher, Hasher};

fn fresh(prefix: &str) -> Id {
    Id::from_str(&format!("{}_{:016x}", prefix, RandomState::new().build_hasher().finish()))
}

fn float(x: f64) -> Value {
    Value::Float(Number::from_bits(x.to_bits()))
}

fn number(x: f64) -> Number {
    Number::from_bits(x.to_bits())
}

fn actor() -> ActorId {
    ActorId::from_str("actor_argus")
}

fn tenant() -> TenantId {
    TenantId::from_str("tenant_test")
}

fn event(kind: EventKind) -> Event {
    Event {
        id: fresh("evt"),
        tenant_id: Some(tenant()),
        timestamp: Timestamp::at(1_780_000_000),
        kind,
        caused_by: vec![],
        cascade_id: fresh("casc"),
        cascade_depth: 0,
        cascade_breadth_index: 0,
    }
}

fn evidence() -> Evidence {
    let mut data = Properties::new();
    data.set("table".to_string(), Value::String("revenue_daily".to_string()));
    data.set("freshness_lag_hours".to_string(), float(7.0));
    Evidence {
        id: fresh("evidence"),
        tenant_id: Some(tenant()),
        source: EvidenceSource::Warehouse {
            system: "snowflake".to_string(),
            database: Some("analytics".to_string()),
            schema: Some("public".to_string()),
            table: Some("revenue_daily".to_string()),
        },
        payload: EvidencePayload {
            kind: "freshness_check".to_string(),
            data,
        },
        reliability: number(0.95),
        observed_at: Timestamp::at(1_780_000_000),
        recorded_at: Timestamp::at(1_780_000_000),
        caused_by: None,
    }
}

fn claim(evidence_id: EvidenceId) -> Claim {
    let now = Timestamp::at(1_780_000_000);
    Claim {
        id: fresh("claim"),
        tenant_id: Some(tenant()),
        kind: ClaimKind::AnomalyFinding,
        subject: ClaimSubject::Dataset("analytics.public.revenue_daily".to_string()),
        predicate: "is_stale".to_string(),
        object: ClaimObject::Value(Value::Bool(true)),
        confidence: number(0.91),
        status: ClaimStatus::Proposed,
        evidence_for: vec![evidence_id],
        evidence_against: vec![],
        valid_from: now,
        valid_until: None,
        created_by: actor(),
        created_at: now,
        updated_at: now,
        caused_by: None,
    }
}

#[test]
fn stores_evidence_and_claims() {
    let mut store = EpistemicStore::new();
    let evidence = evidence();
    let claim = claim(evidence.id.clone());

    store
        .apply_event(&event(EventKind::EvidenceAdded {
            evidence: evidence.clone(),
        }))
        .unwrap();
    store
        .apply_event(&event(EventKind::ClaimProposed {
            claim: claim.clone(),
        }))
        .unwrap();

    assert_eq!(store.evidence_count(), 1);
    assert_eq!(store.claim_count(), 1);
    assert_eq!(store.evidence(&evidence.id), Some(&evidence));
    assert_eq!(store.claim(&claim.id), Some(&claim));
}

#[test]
fn supports_verifies_and_operationalizes_claims() {
    let mut store = EpistemicStore::new();
    let evidence = evidence();
    let mut claim = claim(evidence.id.clone());
    claim.evidence_for.clear();
    let claim_id = claim.id.clone();
    let evidence_id = evidence.id.clone();

    store
        .apply_event(&event(EventKind::EvidenceAdded { evidence }))
        .unwrap();
    store
        .apply_event(&event(EventKind::ClaimProposed { claim }))
        .unwrap();
    assert_eq!(store.claim(&claim_id).unwrap().status, ClaimStatus::Proposed);

    store
        .apply_event(&event(EventKind::ClaimSupported {
            claim_id: claim_id.clone(),
            evidence_id: evidence_id.clone(),
        }))
        .unwrap();

    let supported = store.claim(&claim_id).unwrap();
    assert_eq!(supported.status, ClaimStatus::Supported);
    assert!(supported.evidence_for.contains(&evidence_id));

    store
        .apply_event(&event(EventKind::ClaimVerified {
            claim_id: claim_id.clone(),
            verified_by: actor(),
        }))
        .unwrap();
    assert_eq!(store.claim(&claim_id).unwrap().status, ClaimStatus::Verified);
    assert_eq!(store.verified_claims().len(), 1);

    store
        .apply_event(&event(EventKind::TopologyCommittedFromClaim {
            claim_id: claim_id.clone(),
            node_id: None,
            edge_id: None,
        }))
        .unwrap();
    assert_eq!(store.claim(&claim_id).unwrap().status, ClaimStatus::Operational);
    assert_eq!(store.operational_claims().len(), 1);
    assert_eq!(store.verified_claims().len(), 0);
}

#[test]
fn disputes_claims_with_contradicting_evidence() {
    let mut store = EpistemicStore::new();
    let supporting = evidence();
    let contradicting = Evidence {
        id: fresh("evidence"),
        ..evidence()
    };
    let claim = claim(supporting.id.clone());
    let claim_id = claim.id.clone();
    let contradicting_id = contradicting.id.clone();

    store
        .apply_event(&event(EventKind::EvidenceAdded {
            evidence: supporting,
        }))
        .unwrap();
    store
        .apply_event(&event(EventKind::EvidenceAdded {
            evidence: contradicting,
        }))
        .unwrap();
    store
        .apply_event(&event(EventKind::ClaimProposed { claim }))
        .unwrap();

    store
        .apply_event(&event(EventKind::ClaimDisputed {
            claim_id: claim_id.clone(),
            evidence_id: contradicting_id.clone(),
            reason: Some("fresh warehouse update observed".to_string()),
        }))
        .unwrap();

    let disputed = store.claim(&claim_id).unwrap();
    assert_eq!(disputed.status, ClaimStatus::Disputed);
    assert!(disputed.evidence_against.contains(&contradicting_id));
    assert_eq!(store.disputed_claims().len(), 1);
}

#[test]
fn rejects_unknown_evidence_reference() {
    let mut store = EpistemicStore::new();
    let claim = claim(fresh("evidence"));
    let claim_id = claim.id.clone();

    store
        .apply_event(&event(EventKind::ClaimProposed { claim }))
        .unwrap();

    let result = store.apply_event(&event(EventKind::ClaimSupported {
        claim_id,
        evidence_id: fresh("evidence"),
    }));
    assert!(result.is_err());
}

#[test]
fn claims_can_be_queried_by_subject_status_kind_and_evidence() {
    let mut store = EpistemicStore::new();
    let evidence = evidence();
    let evidence_id = evidence.id.clone();
    let claim = claim(evidence_id.clone());
    let subject = claim.subject.clone();
    let claim_id = claim.id.clone();

    store
        .apply_event(&event(EventKind::EvidenceAdded { evidence }))
        .unwrap();
    store
        .apply_event(&event(EventKind::ClaimProposed { claim }))
        .unwrap();

    assert_eq!(store.claims_for_subject(&subject).len(), 1);
    assert_eq!(store.claims_with_status(ClaimStatus::Proposed).len(), 1);
    assert_eq!(store.claims_with_kind(ClaimKind::AnomalyFinding).len(), 1);
    assert_eq!(store.claims_using_evidence(&evidence_id).len(), 1);
    assert_eq!(store.claims_using_evidence(&evidence_id)[0].id, claim_id);
}
