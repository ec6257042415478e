//! Committed batches of events.

use crate::ids::{clone_opt_id, opt_text, CascadeId, CommitHash, CommitId, EventHash, EventId, IdempotencyKey, TenantId};
use vstd::prelude::*;

verus! {

/// Whether a batch has been committed.
#[derive(Debug, Clone, Copy, PartialEq, Eq, Structural, Hash)]
pub enum CommitStatus {
    Pending,
    Committed,
}

/// What a ledger keeps of an event: where it stands in its cascade, and its encoded form.
#[derive(Debug, PartialEq)]
pub struct EncodedEvent {
    pub id: EventId,
    pub cascade_id: CascadeId,
    pub cascade_depth: u32,
    pub cascade_breadth_index: u32,
    pub encoding: String,
}

/// What an encoded event stands for.
pub struct EncodedEventModel {
    pub id: Seq<char>,
    pub cascade_id: Seq<char>,
    pub cascade_depth: u32,
    pub cascade_breadth_index: u32,
    pub encoding: Seq<char>,
}

impl View for EncodedEvent {
    type V = EncodedEventModel;

    open spec fn view(&self) -> EncodedEventModel {
        EncodedEventModel {
            id: self.id@,
            cascade_id: self.cascade_id@,
            cascade_depth: self.cascade_depth,
            cascade_breadth_index: self.cascade_breadth_index,
            encoding: self.encoding@,
        }
    }
}

impl Clone for EncodedEvent {
    fn clone(&self) -> (r: Self)
        ensures
            r@ == self@,
    {
        EncodedEvent {
            id: self.id.clone(),
            cascade_id: self.cascade_id.clone(),
            cascade_depth: self.cascade_depth,
            cascade_breadth_index: self.cascade_breadth_index,
            encoding: self.encoding.clone(),
        }
    }
}

/// What a list of encoded events stands for.
pub open spec fn encoded_event_models(items: Seq<EncodedEvent>) -> Seq<EncodedEventModel> {
    items.map_values(|item: EncodedEvent| item@)
}

/// Copies a list of encoded events.
pub fn clone_encoded_events(items: &Vec<EncodedEvent>) -> (r: Vec<EncodedEvent>)
    ensures
        encoded_event_models(r@) == encoded_event_models(items@),
{
    let mut r: Vec<EncodedEvent> = Vec::new();
    let mut i: usize = 0;
    while i < items.len()
        invariant
            i <= items@.len(),
            r@.len() == i,
            forall|j: int| 0 <= j < i ==> (#[trigger] r@[j])@ == items@[j]@,
        decreases items@.len() - i,
    {
        r.push(items[i].clone());
        i += 1;
    }
    assert(encoded_event_models(r@) =~= encoded_event_models(items@));
    r
}

/// What a commit says of an event.
#[derive(Debug, PartialEq)]
pub struct EventCommitRecord {
    pub event_id: EventId,
    pub event_hash: EventHash,
    pub cascade_id: CascadeId,
    pub cascade_depth: u32,
    pub cascade_breadth_index: u32,
}

/// What the commit of an event stands for.
pub struct EventCommitRecordModel {
    pub event_id: Seq<char>,
    pub event_hash: Seq<char>,
    pub cascade_id: Seq<char>,
    pub cascade_depth: u32,
    pub cascade_breadth_index: u32,
}

impl View for EventCommitRecord {
    type V = EventCommitRecordModel;

    open spec fn view(&self) -> EventCommitRecordModel {
        EventCommitRecordModel {
            event_id: self.event_id@,
            event_hash: self.event_hash@,
            cascade_id: self.cascade_id@,
            cascade_depth: self.cascade_depth,
            cascade_breadth_index: self.cascade_breadth_index,
        }
    }
}

impl Clone for EventCommitRecord {
    fn clone(&self) -> (r: Self)
        ensures
            r@ == self@,
    {
        EventCommitRecord {
            event_id: self.event_id.clone(),
            event_hash: self.event_hash.clone(),
            cascade_id: self.cascade_id.clone(),
            cascade_depth: self.cascade_depth,
            cascade_breadth_index: self.cascade_breadth_index,
        }
    }
}

/// What a list of event records stands for.
pub open spec fn event_commit_record_models(items: Seq<EventCommitRecord>) -> Seq<EventCommitRecordModel> {
    items.map_values(|item: EventCommitRecord| item@)
}

/// Copies a list of event records.
pub fn clone_event_commit_records(items: &Vec<EventCommitRecord>) -> (r: Vec<EventCommitRecord>)
    ensures
        event_commit_record_models(r@) == event_commit_record_models(items@),
{
    let mut r: Vec<EventCommitRecord> = Vec::new();
    let mut i: usize = 0;
    while i < items.len()
        invariant
            i <= items@.len(),
            r@.len() == i,
            forall|j: int| 0 <= j < i ==> (#[trigger] r@[j])@ == items@[j]@,
        decreases items@.len() - i,
    {
        r.push(items[i].clone());
        i += 1;
    }
    assert(event_commit_record_models(r@) =~= event_commit_record_models(items@));
    r
}

/// A note on a batch: a name, and a rendered value.
#[derive(Debug, PartialEq)]
pub struct MetadataEntry {
    pub key: String,
    pub value: String,
}

/// What a note stands for.
pub struct MetadataEntryModel {
    pub key: Seq<char>,
    pub value: Seq<char>,
}

impl View for MetadataEntry {
    type V = MetadataEntryModel;

    open spec fn view(&self) -> MetadataEntryModel {
        MetadataEntryModel {
            key: self.key@,
            value: self.value@,
        }
    }
}

impl Clone for MetadataEntry {
    fn clone(&self) -> (r: Self)
        ensures
            r@ == self@,
    {
        MetadataEntry {
            key: self.key.clone(),
            value: self.value.clone(),
        }
    }
}

/// What a list of notes stands for.
pub open spec fn metadata_entry_models(items: Seq<MetadataEntry>) -> Seq<MetadataEntryModel> {
    items.map_values(|item: MetadataEntry| item@)
}

/// Copies a list of notes.
pub fn clone_metadata(items: &Vec<MetadataEntry>) -> (r: Vec<MetadataEntry>)
    ensures
        metadata_entry_models(r@) == metadata_entry_models(items@),
{
    let mut r: Vec<MetadataEntry> = Vec::new();
    let mut i: usize = 0;
    while i < items.len()
        invariant
            i <= items@.len(),
            r@.len() == i,
            forall|j: int| 0 <= j < i ==> (#[trigger] r@[j])@ == items@[j]@,
        decreases items@.len() - i,
    {
        r.push(items[i].clone());
        i += 1;
    }
    assert(metadata_entry_models(r@) =~= metadata_entry_models(items@));
    r
}

/// Events committed together.
#[derive(Debug, PartialEq)]
pub struct CommitBatch {
    pub id: CommitId,
    pub tenant_id: Option<TenantId>,
    pub sequence: u64,
    pub previous_hash: Option<CommitHash>,
    pub commit_hash: Option<CommitHash>,
    pub idempotency_key: Option<IdempotencyKey>,
    pub events: Vec<EncodedEvent>,
    pub event_records: Vec<EventCommitRecord>,
    pub status: CommitStatus,
    pub metadata: Vec<MetadataEntry>,
}

/// What a batch stands for.
pub struct CommitBatchModel {
    pub id: Seq<char>,
    pub tenant_id: Option<Seq<char>>,
    pub sequence: u64,
    pub previous_hash: Option<Seq<char>>,
    pub commit_hash: Option<Seq<char>>,
    pub idempotency_key: Option<Seq<char>>,
    pub events: Seq<EncodedEventModel>,
    pub event_records: Seq<EventCommitRecordModel>,
    pub status: CommitStatus,
    pub metadata: Seq<MetadataEntryModel>,
}

impl View for CommitBatch {
    type V = CommitBatchModel;

    open spec fn view(&self) -> CommitBatchModel {
        CommitBatchModel {
            id: self.id@,
            tenant_id: opt_text(self.tenant_id),
            sequence: self.sequence,
            previous_hash: opt_text(self.previous_hash),
            commit_hash: opt_text(self.commit_hash),
            idempotency_key: opt_text(self.idempotency_key),
            events: encoded_event_models(self.events@),
            event_records: event_commit_record_models(self.event_records@),
            status: self.status,
            metadata: metadata_entry_models(self.metadata@),
        }
    }
}

impl Clone for CommitBatch {
    fn clone(&self) -> (r: Self)
        ensures
            r@ == self@,
    {
        CommitBatch {
            id: self.id.clone(),
            tenant_id: clone_opt_id(&self.tenant_id),
            sequence: self.sequence,
            previous_hash: clone_opt_id(&self.previous_hash),
            commit_hash: clone_opt_id(&self.commit_hash),
            idempotency_key: clone_opt_id(&self.idempotency_key),
            events: clone_encoded_events(&self.events),
            event_records: clone_event_commit_records(&self.event_records),
            status: self.status,
            metadata: clone_metadata(&self.metadata),
        }
    }
}

/// The ledger's line on a batch.
#[derive(Debug, PartialEq)]
pub struct CommitRecord {
    pub id: CommitId,
    pub sequence: u64,
    pub previous_hash: Option<CommitHash>,
    pub commit_hash: CommitHash,
    pub event_count: usize,
    pub first_event_id: Option<EventId>,
    pub last_event_id: Option<EventId>,
}

/// What a line of the ledger stands for.
pub struct CommitRecordModel {
    pub id: Seq<char>,
    pub sequence: u64,
    pub previous_hash: Option<Seq<char>>,
    pub commit_hash: Seq<char>,
    pub event_count: usize,
    pub first_event_id: Option<Seq<char>>,
    pub last_event_id: Option<Seq<char>>,
}

impl View for CommitRecord {
    type V = CommitRecordModel;

    open spec fn view(&self) -> CommitRecordModel {
        CommitRecordModel {
            id: self.id@,
            sequence: self.sequence,
            previous_hash: opt_text(self.previous_hash),
            commit_hash: self.commit_hash@,
            event_count: self.event_count,
            first_event_id: opt_text(self.first_event_id),
            last_event_id: opt_text(self.last_event_id),
        }
    }
}

impl Clone for CommitRecord {
    fn clone(&self) -> (r: Self)
        ensures
            r@ == self@,
    {
        CommitRecord {
            id: self.id.clone(),
            sequence: self.sequence,
            previous_hash: clone_opt_id(&self.previous_hash),
            commit_hash: self.commit_hash.clone(),
            event_count: self.event_count,
            first_event_id: clone_opt_id(&self.first_event_id),
            last_event_id: clone_opt_id(&self.last_event_id),
        }
    }
}

impl CommitBatchModel {
    /// A batch that is not committed yet.
    pub open spec fn pending(id: Seq<char>, events: Seq<EncodedEventModel>) -> CommitBatchModel {
        CommitBatchModel {
            id,
            tenant_id: None,
            sequence: 0,
            previous_hash: None,
            commit_hash: None,
            idempotency_key: None,
            events,
            event_records: Seq::empty(),
            status: CommitStatus::Pending,
            metadata: Seq::empty(),
        }
    }
}

impl CommitBatch {
    /// A batch that is not committed yet.
    pub fn new(id: CommitId, events: Vec<EncodedEvent>) -> (r: Self)
        ensures
            r@ == CommitBatchModel::pending(id@, encoded_event_models(events@)),
    {
        let r = CommitBatch {
            id,
            tenant_id: None,
            sequence: 0,
            previous_hash: None,
            commit_hash: None,
            idempotency_key: None,
            events,
            event_records: Vec::new(),
            status: CommitStatus::Pending,
            metadata: Vec::new(),
        };
        assert(r@.event_records =~= Seq::<EventCommitRecordModel>::empty());
        assert(r@.metadata =~= Seq::<MetadataEntryModel>::empty());
        r
    }

    /// The number of events in the batch.
    pub fn event_count(&self) -> (r: usize)
        ensures
            r == self@.events.len(),
    {
        self.events.len()
    }
}

} // verus!
