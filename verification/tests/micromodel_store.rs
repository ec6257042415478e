use hydra_engine::event::{Event, EventKind, Stamp};
use hydra_engine::ids::{ActorId, Id, MicroModelId, MicroModelRunId, NodeId};
use hydra_engine::micromodel::{MicroModelDefinition, MicroModelKind, MicroModelObservation, MicroModelPrediction, MicroModelStatus};
use hydra_engine::micromodel_store::MicroModelStore;
use hydra_engine::number::Number;
use hydra_engine::time::Timestamp;
use hydra_engine::value::Properties;
use std::collections::hash_map::RandomState;
use std::hash::{BuildHasher, Hasher};

fn fresh(prefix: &str) -> Id {
    Id::from_str(&format!("{}_{:016x}", prefix, RandomState::new().build_hasher().finish()))
}

fn stamp() -> Stamp {
    Stamp { id: fresh("evt"), timestamp: Timestamp::at(1_780_000_000) }
}

fn trigger(kind: EventKind) -> Event {
    Event::trigger(kind, stamp(), fresh("casc"))
}

fn number(x: f64) -> Number {
    Number::from_bits(x.to_bits())
}

fn actor() -> ActorId {
    ActorId::from_str("actor_micromodel_store_test")
}

fn definition(id: &str, kind: MicroModelKind) -> MicroModelDefinition {
    MicroModelDefinition {
        id: MicroModelId::from_str(id),
        kind,
        name: id.to_string(),
        version: 1,
        status: MicroModelStatus::Registered,
        input_schema: r#"[{"name":"recent_lag_commits","type":"List<Int>"}]"#.to_string(),
        output_schema: r#"[{"name":"is_anomalous","type":"Bool"}]"#.to_string(),
        created_by: actor(),
        created_at: Timestamp::at(1_780_000_000),
    }
}

fn apply(store: &mut MicroModelStore, kind: EventKind) {
    let event = trigger(kind);
    store.apply_event(&event).unwrap();
}

#[test]
fn register_model_indexes_kind_status() {
    let mut store = MicroModelStore::new();
    let def = definition("mm_lag_v0", MicroModelKind::ReplicationLagAnomaly);
    let id = def.id.clone();
    apply(
        &mut store,
        EventKind::MicroModelRegistered { model: def.clone() },
    );

    // Direct lookup hits the inserted model.
    assert_eq!(store.model(&id), Some(&def));
    assert_eq!(store.model_count(), 1);

    // Kind index resolves to the same model.
    let by_kind = store.models_by_kind(&MicroModelKind::ReplicationLagAnomaly);
    assert_eq!(by_kind.len(), 1);
    assert_eq!(by_kind[0].id, id);

    // Status index starts in Registered.
    let by_status = store.models_by_status(&MicroModelStatus::Registered);
    assert_eq!(by_status.len(), 1);
    assert_eq!(by_status[0].id, id);

    // Unknown kind / status returns empty Vec rather than None.
    assert!(store
        .models_by_kind(&MicroModelKind::AutoTuner)
        .is_empty());
    assert!(store
        .models_by_status(&MicroModelStatus::Archived)
        .is_empty());
}

#[test]
fn status_change_reindexes() {
    let mut store = MicroModelStore::new();
    let def = definition("mm_pred_v0", MicroModelKind::CommitRatePredictor);
    let id = def.id.clone();
    apply(&mut store, EventKind::MicroModelRegistered { model: def });

    // Registered → Active.
    apply(
        &mut store,
        EventKind::MicroModelStatusChanged {
            model_id: id.clone(),
            status: MicroModelStatus::Active,
            reason: None,
        },
    );

    // The embedded model's `status` is updated.
    assert_eq!(
        store.model(&id).unwrap().status,
        MicroModelStatus::Active
    );
    // Old status bucket is empty; new one carries the model.
    assert!(store
        .models_by_status(&MicroModelStatus::Registered)
        .is_empty());
    let active = store.models_by_status(&MicroModelStatus::Active);
    assert_eq!(active.len(), 1);
    assert_eq!(active[0].id, id);

    // Active → Disabled.
    apply(
        &mut store,
        EventKind::MicroModelStatusChanged {
            model_id: id.clone(),
            status: MicroModelStatus::Disabled,
            reason: Some("noisy in staging".to_string()),
        },
    );
    assert!(store
        .models_by_status(&MicroModelStatus::Active)
        .is_empty());
    assert_eq!(
        store.models_by_status(&MicroModelStatus::Disabled).len(),
        1
    );
}

#[test]
fn status_change_on_unknown_model_is_no_op() {
    // Defensive — applying a status change for a model that was
    // never registered must leave the store in a coherent state.
    let mut store = MicroModelStore::new();
    apply(
        &mut store,
        EventKind::MicroModelStatusChanged {
            model_id: MicroModelId::from_str("mm_ghost"),
            status: MicroModelStatus::Active,
            reason: None,
        },
    );
    assert_eq!(store.model_count(), 0);
    assert!(store
        .models_by_status(&MicroModelStatus::Active)
        .is_empty());
}

#[test]
fn prediction_recorded_roundtrip() {
    let mut store = MicroModelStore::new();
    let run_id = MicroModelRunId::from_str("mmrun_001");
    let prediction = MicroModelPrediction {
        model_id: MicroModelId::from_str("mm_lag_v0"),
        run_id: run_id.clone(),
        input: r#"{"recent_lag_commits": [12, 13, 14]}"#.to_string(),
        output: r#"{"is_anomalous": false}"#.to_string(),
        confidence: number(0.87),
        explanation: Some("stable trend".to_string()),
        created_at: Timestamp::at(1_780_000_000),
    };
    apply(
        &mut store,
        EventKind::MicroModelPredictionRecorded {
            prediction: prediction.clone(),
        },
    );
    assert_eq!(store.prediction(&run_id), Some(&prediction));
    assert_eq!(store.prediction_count(), 1);
}

#[test]
fn observation_recorded_roundtrip() {
    let mut store = MicroModelStore::new();
    let run_id = MicroModelRunId::from_str("mmrun_001");
    let observation = MicroModelObservation {
        run_id: run_id.clone(),
        observed_outcome: r#"{"is_anomalous": false}"#.to_string(),
        error: Some(number(0.0)),
        observed_at: Timestamp::at(1_780_000_000),
    };
    apply(
        &mut store,
        EventKind::MicroModelObservationRecorded {
            observation: observation.clone(),
        },
    );
    assert_eq!(store.observation(&run_id), Some(&observation));
    assert_eq!(store.observation_count(), 1);
}

#[test]
fn non_micromodel_events_are_ignored() {
    // Stores subscribe to the full event log;
    // non-relevant variants must be silently dropped without
    // touching state.
    let mut store = MicroModelStore::new();
    let irrelevant = trigger(EventKind::Signal {
        source: NodeId::from_str("test"),
        name: "x".to_string(),
        payload: Properties::new(),
    });
    store.apply_event(&irrelevant).unwrap();
    assert_eq!(store.model_count(), 0);
    assert_eq!(store.prediction_count(), 0);
    assert_eq!(store.observation_count(), 0);
}
