use hydra_engine::commit::{CommitBatch, CommitStatus, EncodedEvent};
use hydra_engine::commit_ledger::CommitLedger;
use hydra_engine::ids::{Id, IdempotencyKey};
use hydra_engine::value::Value;
use std::collections::hash_map::RandomState;
use std::hash::{BuildHasher, Hasher};

fn fresh(prefix: &str) -> Id {
    Id::from_str(&format!("{}_{:016x}", prefix, RandomState::new().build_hasher().finish()))
}

fn signal_event(name: &str) -> EncodedEvent {
    let id = fresh("evt");
    let encoding = format!(r#"{{"id":"{}","kind":{{"Signal":{{"name":"{}","source":"test","payload":{{}}}}}}}}"#, id.as_str(), name);
    EncodedEvent {
        id,
        cascade_id: fresh("casc"),
        cascade_depth: 0,
        cascade_breadth_index: 0,
        encoding,
    }
}

#[test]
fn commits_event_batch_with_sequence_and_hashes() {
    let mut ledger = CommitLedger::new();
    let batch = ledger
        .commit_events(fresh("commit"), vec![signal_event("first")], None)
        .unwrap();
    assert_eq!(batch.sequence, 1);
    assert!(batch.previous_hash.is_none());
    assert!(batch.commit_hash.is_some());
    assert_eq!(batch.event_records.len(), 1);
    assert_eq!(batch.status, CommitStatus::Committed);
    assert_eq!(ledger.commit_count(), 1);
    assert_eq!(ledger.head_hash(), batch.commit_hash.as_ref());
    ledger.verify_chain().unwrap();
}

#[test]
fn links_commit_hash_chain() {
    let mut ledger = CommitLedger::new();
    let first = ledger
        .commit_events(fresh("commit"), vec![signal_event("first")], None)
        .unwrap();
    let second = ledger
        .commit_events(fresh("commit"), vec![signal_event("second")], None)
        .unwrap();
    assert_eq!(first.sequence, 1);
    assert_eq!(second.sequence, 2);
    assert_eq!(second.previous_hash, first.commit_hash);
    assert_eq!(ledger.commit_count(), 2);
    ledger.verify_chain().unwrap();
}

#[test]
fn idempotency_key_returns_original_commit() {
    let mut ledger = CommitLedger::new();
    let key = IdempotencyKey::from_str("request-1");
    let first = ledger
        .commit_events(fresh("commit"), vec![signal_event("first")], Some(key.clone()))
        .unwrap();
    let second = ledger
        .commit_events(fresh("commit"), vec![signal_event("duplicate")], Some(key.clone()))
        .unwrap();
    assert_eq!(first.id, second.id);
    assert_eq!(first.commit_hash, second.commit_hash);
    assert_eq!(ledger.commit_count(), 1);
    assert_eq!(
        ledger.commit_for_idempotency_key(&key).unwrap().id,
        first.id
    );
    ledger.verify_chain().unwrap();
}

#[test]
fn rejects_empty_event_batch() {
    let mut ledger = CommitLedger::new();
    let result = ledger.commit_events(fresh("commit"), Vec::new(), None);
    assert!(result.is_err());
}

#[test]
fn records_are_index_friendly() {
    let mut ledger = CommitLedger::new();
    let batch = ledger
        .commit_events(fresh("commit"), vec![signal_event("first"), signal_event("second")], None)
        .unwrap();
    let record = ledger.latest_record().unwrap();
    assert_eq!(record.id, batch.id);
    assert_eq!(record.sequence, 1);
    assert_eq!(record.event_count, 2);
    assert_eq!(record.commit_hash, batch.commit_hash.unwrap());
    assert!(record.first_event_id.is_some());
    assert!(record.last_event_id.is_some());
}

#[test]
fn record_lookup_by_commit_id() {
    let mut ledger = CommitLedger::new();
    let batch = ledger
        .commit_events(fresh("commit"), vec![signal_event("first")], None)
        .unwrap();
    assert_eq!(ledger.batch(&batch.id).unwrap().id, batch.id);
    assert_eq!(ledger.record(&batch.id).unwrap().id, batch.id);
}

#[test]
fn next_sequence_reports_next_commit_number() {
    let mut ledger = CommitLedger::new();
    assert_eq!(ledger.next_sequence(), 1);
    ledger
        .commit_events(fresh("commit"), vec![signal_event("first")], None)
        .unwrap();
    assert_eq!(ledger.next_sequence(), 2);
}

#[test]
fn commit_ledger_unused_import_guard() {
    let _ = Value::Bool(true);
}

#[test]
fn loads_committed_batches_and_verifies_chain() {
    let mut original = CommitLedger::new();
    let first = original
        .commit_events(fresh("commit"), vec![signal_event("first")],
            Some(IdempotencyKey::from_str("first-key")),
        )
        .unwrap();
    let second = original
        .commit_events(fresh("commit"), vec![signal_event("second")],
            Some(IdempotencyKey::from_str("second-key")),
        )
        .unwrap();

    let mut recovered = CommitLedger::new();
    recovered
        .load_committed_batches(vec![first.clone(), second.clone()])
        .unwrap();

    assert_eq!(recovered.commit_count(), 2);
    assert_eq!(recovered.latest_record().unwrap().sequence, 2);
    assert_eq!(recovered.head_hash(), second.commit_hash.as_ref());
    assert_eq!(
        recovered
            .commit_for_idempotency_key(&IdempotencyKey::from_str("first-key"))
            .unwrap()
            .id,
        first.id
    );
    recovered.verify_chain().unwrap();
}

#[test]
fn rejects_pending_batch_during_recovery() {
    let event = signal_event("pending");
    let batch = CommitBatch::new(fresh("commit"), vec![event]);
    let mut ledger = CommitLedger::new();
    let result = ledger.load_committed_batch(batch);
    assert!(result.is_err());
}

#[test]
fn rejects_duplicate_commit_id_during_recovery() {
    let mut original = CommitLedger::new();
    let batch = original
        .commit_events(fresh("commit"), vec![signal_event("first")], None)
        .unwrap();
    let mut recovered = CommitLedger::new();
    recovered.load_committed_batch(batch.clone()).unwrap();
    let result = recovered.load_committed_batch(batch);
    assert!(result.is_err());
}

#[test]
fn rejects_duplicate_idempotency_key_during_recovery() {
    let mut original = CommitLedger::new();
    let first = original
        .commit_events(fresh("commit"), vec![signal_event("first")],
            Some(IdempotencyKey::from_str("same-key")),
        )
        .unwrap();
    let mut second = original
        .commit_events(fresh("commit"), vec![signal_event("second")],
            Some(IdempotencyKey::from_str("other-key")),
        )
        .unwrap();
    second.idempotency_key = Some(IdempotencyKey::from_str("same-key"));
    let mut recovered = CommitLedger::new();
    recovered.load_committed_batch(first).unwrap();
    let result = recovered.load_committed_batch(second);
    assert!(result.is_err());
}

#[test]
fn batches_in_sequence_returns_ordered_batches() {
    let mut ledger = CommitLedger::new();
    let first = ledger
        .commit_events(fresh("commit"), vec![signal_event("first")], None)
        .unwrap();
    let second = ledger
        .commit_events(fresh("commit"), vec![signal_event("second")], None)
        .unwrap();
    let batches = ledger.batches_in_sequence();
    assert_eq!(batches.len(), 2);
    assert_eq!(batches[0].id, first.id);
    assert_eq!(batches[1].id, second.id);
}
