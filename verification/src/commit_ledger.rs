//! The ledger of commits: a chain of batches, each bound to the one before by its hash.

use crate::commit::{
    encoded_event_models, event_commit_record_models, metadata_entry_models, CommitBatch, CommitBatchModel, CommitRecord,
    CommitRecordModel, CommitStatus, EncodedEvent, EncodedEventModel, EventCommitRecord, EventCommitRecordModel,
    MetadataEntryModel,
};
use crate::error::{query_error, ErrorModel, HydraError};
use crate::ids::{clone_opt_id, opt_text, same_opt_id, CommitHash, CommitId, EventHash, Id, IdempotencyKey};
use crate::table::{map_views, views, Table};
use crate::text::{decimal, decimal_text};
use std::collections::hash_map::DefaultHasher;
use std::hash::Hasher;
use vstd::hash_map::StringHashMap;
use vstd::prelude::*;
use vstd::std_specs::hash::DefaultHasherAdditionalSpecFns;
use vstd::string::StringExecFns;
use vstd::utf8::encode_utf8;

verus! {

/// A sink that keeps committed batches. Storage implements it.
pub trait CommitBatchWriter: Send + Sync {
    fn append_commit(&self, batch: &CommitBatch) -> Result<(), HydraError>;
}

/// The character for a hexadecimal digit.
pub open spec fn hex_digit(d: nat) -> char {
    if d == 10 {
        'a'
    } else if d == 11 {
        'b'
    } else if d == 12 {
        'c'
    } else if d == 13 {
        'd'
    } else if d == 14 {
        'e'
    } else if d == 15 {
        'f'
    } else {
        crate::text::digit_char(d)
    }
}

/// The last `width` hexadecimal digits of a number.
pub open spec fn hex_text(n: nat, width: nat) -> Seq<char>
    decreases width,
{
    if width == 0 {
        Seq::empty()
    } else {
        hex_text(n / 16, (width - 1) as nat).push(hex_digit(n % 16))
    }
}

fn hex_char(d: u64) -> (r: &'static str)
    requires
        d < 16,
    ensures
        r@ == seq![hex_digit(d as nat)],
{
    proof {
        reveal_strlit("0");
        reveal_strlit("1");
        reveal_strlit("2");
        reveal_strlit("3");
        reveal_strlit("4");
        reveal_strlit("5");
        reveal_strlit("6");
        reveal_strlit("7");
        reveal_strlit("8");
        reveal_strlit("9");
        reveal_strlit("a");
        reveal_strlit("b");
        reveal_strlit("c");
        reveal_strlit("d");
        reveal_strlit("e");
        reveal_strlit("f");
    }
    let r = match d {
        0 => "0",
        1 => "1",
        2 => "2",
        3 => "3",
        4 => "4",
        5 => "5",
        6 => "6",
        7 => "7",
        8 => "8",
        9 => "9",
        10 => "a",
        11 => "b",
        12 => "c",
        13 => "d",
        14 => "e",
        _ => "f",
    };
    assert(r@ =~= seq![hex_digit(d as nat)]);
    r
}

/// The last `width` hexadecimal digits of a number.
pub fn hex(n: u64, width: u32) -> (r: String)
    ensures
        r@ == hex_text(n as nat, width as nat),
    decreases width,
{
    if width == 0 {
        String::new()
    } else {
        let mut r = hex(n / 16, width - 1);
        let ghost before = r@;
        r.append(hex_char(n % 16));
        assert(r@ =~= before.push(hex_digit((n % 16) as nat)));
        r
    }
}

/// The hash of a text under the default hasher: its bytes, and the byte that ends a text.
pub open spec fn text_hash(text: Seq<char>) -> u64 {
    DefaultHasher::spec_finish(seq![encode_utf8(text), seq![0xffu8]])
}

/// The digest of a text.
pub open spec fn digest(text: Seq<char>) -> Seq<char> {
    "engine-v0:"@ + hex_text(text_hash(text) as nat, 16)
}

/// The digest of a text. It guards against accidents, not against intent.
pub fn engine_digest_v0(input: &str) -> (r: String)
    ensures
        r@ == digest(input@),
{
    let mut hasher = DefaultHasher::new();
    hasher.write(input.as_bytes());
    let mut end: Vec<u8> = Vec::new();
    end.push(0xff);
    hasher.write(end.as_slice());
    proof {
        assert(end@ =~= seq![0xffu8]);
        assert(hasher@ =~= seq![encode_utf8(input@), seq![0xffu8]]);
    }
    let mut r = "engine-v0:".to_owned();
    r.append(hex(hasher.finish(), 16).as_str());
    r
}

/// How a character stands in a JSON string.
pub open spec fn json_char(c: char) -> Seq<char> {
    if c == '"' {
        seq!['\\', '"']
    } else if c == '\\' {
        seq!['\\', '\\']
    } else if c as int == 8 {
        seq!['\\', 'b']
    } else if c as int == 9 {
        seq!['\\', 't']
    } else if c as int == 10 {
        seq!['\\', 'n']
    } else if c as int == 12 {
        seq!['\\', 'f']
    } else if c as int == 13 {
        seq!['\\', 'r']
    } else if (c as int) < 32 {
        seq!['\\', 'u', '0', '0'] + hex_text(c as nat, 2)
    } else {
        seq![c]
    }
}

/// How characters stand in a JSON string, one after the other.
pub open spec fn json_chars(text: Seq<char>) -> Seq<char>
    decreases text.len(),
{
    if text.len() == 0 {
        Seq::empty()
    } else {
        json_chars(text.drop_last()) + json_char(text.last())
    }
}

/// The text as a JSON string.
pub open spec fn json_text(text: Seq<char>) -> Seq<char> {
    seq!['"'] + json_chars(text) + seq!['"']
}

/// Calls `serde_json::to_string` on a string. Claims that it succeeds, since writing a
/// string into memory cannot fail, and that the result is the text in quotes: quotes,
/// backslashes and control characters are escaped, with a letter where there is one for
/// them and else by their two hexadecimal digits, and all else stands as it is.
#[verifier::external_body]
fn json_string(text: &str) -> (r: String)
    ensures
        r@ == json_text(text@),
{
    serde_json::to_string(text).unwrap()
}

/// The optional text as a JSON string, or `null`.
pub open spec fn json_optional(text: Option<Seq<char>>) -> Seq<char> {
    match text {
        Some(t) => json_text(t),
        None => "null"@,
    }
}

fn append_optional(r: &mut String, id: &Option<Id>)
    ensures
        final(r)@ == old(r)@ + json_optional(opt_text(*id)),
{
    match id {
        Some(x) => r.append(json_string(x.as_str()).as_str()),
        None => r.append("null"),
    }
}

/// The JSON object for the commit of an event.
pub open spec fn event_material(record: EventCommitRecordModel) -> Seq<char> {
    "{\"event_id\":"@ + json_text(record.event_id) + ",\"event_hash\":"@ + json_text(record.event_hash)
        + ",\"cascade_id\":"@ + json_text(record.cascade_id) + ",\"cascade_depth\":"@ + decimal_text(
        record.cascade_depth as nat,
    ) + ",\"cascade_breadth_index\":"@ + decimal_text(record.cascade_breadth_index as nat) + "}"@
}

/// The JSON objects for the commits of events, with commas between them.
pub open spec fn events_material(records: Seq<EventCommitRecordModel>) -> Seq<char>
    decreases records.len(),
{
    if records.len() == 0 {
        Seq::empty()
    } else if records.len() == 1 {
        event_material(records[0])
    } else {
        events_material(records.drop_last()) + ","@ + event_material(records.last())
    }
}

/// The JSON pair for a note.
pub open spec fn note_material(entry: MetadataEntryModel) -> Seq<char> {
    "["@ + json_text(entry.key) + ","@ + json_text(entry.value) + "]"@
}

/// The JSON pairs for notes, with commas between them.
pub open spec fn notes_material(entries: Seq<MetadataEntryModel>) -> Seq<char>
    decreases entries.len(),
{
    if entries.len() == 0 {
        Seq::empty()
    } else if entries.len() == 1 {
        note_material(entries[0])
    } else {
        notes_material(entries.drop_last()) + ","@ + note_material(entries.last())
    }
}

/// The JSON object that the hash of a batch is taken of. It leaves out the hash itself,
/// the status, and the events, which stand in it by their hashes.
pub open spec fn commit_material(batch: CommitBatchModel) -> Seq<char> {
    "{\"id\":"@ + json_text(batch.id) + ",\"tenant_id\":"@ + json_optional(batch.tenant_id) + ",\"sequence\":"@
        + decimal_text(batch.sequence as nat) + ",\"previous_hash\":"@ + json_optional(batch.previous_hash)
        + ",\"idempotency_key\":"@ + json_optional(batch.idempotency_key) + ",\"event_records\":["@ + events_material(
        batch.event_records,
    ) + "],\"metadata\":["@ + notes_material(batch.metadata) + "]}"@
}

/// The hash of a batch.
pub open spec fn commit_hash_of(batch: CommitBatchModel) -> Seq<char> {
    digest(commit_material(batch))
}

/// The commit of an event.
pub open spec fn record_of_event(event: EncodedEventModel) -> EventCommitRecordModel {
    EventCommitRecordModel {
        event_id: event.id,
        event_hash: digest(event.encoding),
        cascade_id: event.cascade_id,
        cascade_depth: event.cascade_depth,
        cascade_breadth_index: event.cascade_breadth_index,
    }
}

fn append_event(r: &mut String, record: &EventCommitRecord)
    ensures
        final(r)@ == old(r)@ + event_material(record@),
{
    let mut part = "{\"event_id\":".to_owned();
    part.append(json_string(record.event_id.as_str()).as_str());
    part.append(",\"event_hash\":");
    part.append(json_string(record.event_hash.as_str()).as_str());
    part.append(",\"cascade_id\":");
    part.append(json_string(record.cascade_id.as_str()).as_str());
    part.append(",\"cascade_depth\":");
    part.append(decimal(record.cascade_depth as u64).as_str());
    part.append(",\"cascade_breadth_index\":");
    part.append(decimal(record.cascade_breadth_index as u64).as_str());
    part.append("}");
    r.append(part.as_str());
}

fn show_events(records: &Vec<EventCommitRecord>) -> (r: String)
    ensures
        r@ == events_material(event_commit_record_models(records@)),
{
    let ghost models = event_commit_record_models(records@);
    let mut r = String::new();
    let mut i: usize = 0;
    assert(models.take(0) =~= Seq::<EventCommitRecordModel>::empty());
    while i < records.len()
        invariant
            i <= records@.len(),
            models == event_commit_record_models(records@),
            r@ == events_material(models.take(i as int)),
        decreases records@.len() - i,
    {
        proof {
            assert(models.take(i + 1).drop_last() =~= models.take(i as int));
            assert(models.take(i + 1).last() == records@[i as int]@);
        }
        if i > 0 {
            r.append(",");
        }
        append_event(&mut r, &records[i]);
        proof {
            if i == 0 {
                assert(r@ =~= event_material(records@[0]@));
            }
        }
        i += 1;
    }
    assert(models.take(records@.len() as int) =~= models);
    r
}

fn show_notes(batch: &CommitBatch) -> (r: String)
    ensures
        r@ == notes_material(batch@.metadata),
{
    let ghost models = batch@.metadata;
    let mut r = String::new();
    let mut i: usize = 0;
    assert(models.take(0) =~= Seq::<MetadataEntryModel>::empty());
    while i < batch.metadata.len()
        invariant
            i <= batch.metadata@.len(),
            models == metadata_entry_models(batch.metadata@),
            r@ == notes_material(models.take(i as int)),
        decreases batch.metadata@.len() - i,
    {
        proof {
            assert(models.take(i + 1).drop_last() =~= models.take(i as int));
            assert(models.take(i + 1).last() == batch.metadata@[i as int]@);
        }
        if i > 0 {
            r.append(",");
        }
        let mut part = "[".to_owned();
        part.append(json_string(batch.metadata[i].key.as_str()).as_str());
        part.append(",");
        part.append(json_string(batch.metadata[i].value.as_str()).as_str());
        part.append("]");
        r.append(part.as_str());
        proof {
            if i == 0 {
                assert(r@ =~= note_material(batch.metadata@[0]@));
            }
        }
        i += 1;
    }
    assert(models.take(batch.metadata@.len() as int) =~= models);
    r
}

/// The hash of an event, given by its encoded form.
pub fn hash_event(event: &EncodedEvent) -> (r: EventHash)
    ensures
        r@ == digest(event@.encoding),
{
    Id { text: engine_digest_v0(event.encoding.as_str()) }
}

/// The hash of a batch.
pub fn hash_commit_material(batch: &CommitBatch) -> (r: CommitHash)
    ensures
        r@ == commit_hash_of(batch@),
{
    let mut material = "{\"id\":".to_owned();
    material.append(json_string(batch.id.as_str()).as_str());
    material.append(",\"tenant_id\":");
    append_optional(&mut material, &batch.tenant_id);
    material.append(",\"sequence\":");
    material.append(decimal(batch.sequence).as_str());
    material.append(",\"previous_hash\":");
    append_optional(&mut material, &batch.previous_hash);
    material.append(",\"idempotency_key\":");
    append_optional(&mut material, &batch.idempotency_key);
    material.append(",\"event_records\":[");
    material.append(show_events(&batch.event_records).as_str());
    material.append("],\"metadata\":[");
    material.append(show_notes(batch).as_str());
    material.append("]}");
    Id { text: engine_digest_v0(material.as_str()) }
}

/// What a ledger stands for.
pub struct LedgerModel {
    /// The greatest sequence number so far.
    pub last_sequence: nat,
    pub head_hash: Option<Seq<char>>,
    pub records: Seq<CommitRecordModel>,
    pub batches: Map<Seq<char>, CommitBatchModel>,
    /// The batch that each idempotency key led to.
    pub keys: Map<Seq<char>, Seq<char>>,
}

/// The commits of events.
pub open spec fn records_of_events(events: Seq<EncodedEventModel>) -> Seq<EventCommitRecordModel> {
    events.map_values(|e: EncodedEventModel| record_of_event(e))
}

/// The line of the ledger on a batch with a hash.
pub open spec fn record_of_batch(batch: CommitBatchModel) -> CommitRecordModel {
    CommitRecordModel {
        id: batch.id,
        sequence: batch.sequence,
        previous_hash: batch.previous_hash,
        commit_hash: batch.commit_hash->0,
        event_count: batch.events.len() as usize,
        first_event_id: if batch.events.len() > 0 {
            Some(batch.events[0].id)
        } else {
            None
        },
        last_event_id: if batch.events.len() > 0 {
            Some(batch.events.last().id)
        } else {
            None
        },
    }
}

impl LedgerModel {
    /// A ledger without commits.
    pub open spec fn empty() -> LedgerModel {
        LedgerModel {
            last_sequence: 0,
            head_hash: None,
            records: Seq::empty(),
            batches: Map::empty(),
            keys: Map::empty(),
        }
    }

    /// The batch that a commit makes: next in sequence, bound to the head of the chain,
    /// with the hash of all it says.
    pub open spec fn new_batch(
        self,
        id: Seq<char>,
        events: Seq<EncodedEventModel>,
        key: Option<Seq<char>>,
    ) -> CommitBatchModel {
        let batch = CommitBatchModel {
            sequence: (self.last_sequence + 1) as u64,
            previous_hash: self.head_hash,
            idempotency_key: key,
            event_records: records_of_events(events),
            status: CommitStatus::Committed,
            ..CommitBatchModel::pending(id, events)
        };
        CommitBatchModel { commit_hash: Some(commit_hash_of(batch)), ..batch }
    }

    /// The ledger with a batch at the end of the chain.
    pub open spec fn with_batch(self, batch: CommitBatchModel) -> LedgerModel {
        LedgerModel {
            last_sequence: if batch.sequence > self.last_sequence {
                batch.sequence as nat
            } else {
                self.last_sequence
            },
            head_hash: batch.commit_hash,
            records: self.records.push(record_of_batch(batch)),
            batches: self.batches.insert(batch.id, batch),
            keys: match batch.idempotency_key {
                Some(key) => self.keys.insert(key, batch.id),
                None => self.keys,
            },
        }
    }

    /// The batch that an idempotency key led to before.
    pub open spec fn known_commit(self, key: Option<Seq<char>>) -> Option<CommitBatchModel> {
        match key {
            Some(k) => if self.keys.contains_key(k) && self.batches.contains_key(self.keys[k]) {
                Some(self.batches[self.keys[k]])
            } else {
                None
            },
            None => None,
        }
    }

    /// Why a committed batch is not loaded, if it is not.
    pub open spec fn load_refusal(self, batch: CommitBatchModel) -> Option<ErrorModel> {
        if batch.status != CommitStatus::Committed {
            Some(
                ErrorModel::QueryError(
                    "cannot load non-committed batch "@ + batch.id + " with status "@ + status_text(batch.status),
                ),
            )
        } else if batch.commit_hash is None {
            Some(ErrorModel::QueryError("cannot load committed batch "@ + batch.id + " without commit_hash"@))
        } else if self.batches.contains_key(batch.id) {
            Some(ErrorModel::QueryError("duplicate commit id during recovery: "@ + batch.id))
        } else if batch.idempotency_key is Some && self.keys.contains_key(batch.idempotency_key->0) {
            Some(
                ErrorModel::QueryError(
                    "duplicate idempotency key during recovery: "@ + batch.idempotency_key->0,
                ),
            )
        } else {
            None
        }
    }

    /// The ledger after batches were loaded in order, up to the first that is refused.
    pub open spec fn loaded(self, batches: Seq<CommitBatchModel>) -> (LedgerModel, Option<ErrorModel>)
        decreases batches.len(),
    {
        if batches.len() == 0 {
            (self, None)
        } else if self.load_refusal(batches[0]) is Some {
            (self, self.load_refusal(batches[0]))
        } else {
            self.with_batch(batches[0]).loaded(batches.skip(1))
        }
    }

    /// What is wrong with a line of the ledger, given the hash before it, if anything is.
    pub open spec fn line_fault(self, i: int, previous: Option<Seq<char>>) -> Option<Seq<char>> {
        let record = self.records[i];
        if record.sequence != i + 1 {
            Some(
                "commit sequence mismatch at index "@ + decimal_text(i as nat) + ": expected "@ + decimal_text(
                    (i + 1) as nat,
                ) + ", got "@ + decimal_text(record.sequence as nat),
            )
        } else if record.previous_hash != previous {
            Some("commit previous_hash mismatch at sequence "@ + decimal_text(record.sequence as nat))
        } else if !self.batches.contains_key(record.id) {
            Some("missing commit batch for record "@ + record.id)
        } else {
            let batch = self.batches[record.id];
            if batch.status != CommitStatus::Committed {
                Some("commit batch "@ + batch.id + " is not committed"@)
            } else if batch.events.len() != record.event_count {
                Some("event count mismatch for commit "@ + batch.id)
            } else if batch.commit_hash != Some(record.commit_hash) {
                Some("commit hash mismatch for commit "@ + batch.id)
            } else if commit_hash_of(batch) != record.commit_hash {
                Some("recomputed commit hash mismatch for commit "@ + batch.id)
            } else {
                None
            }
        }
    }

    /// The hash that the line before leaves.
    pub open spec fn hash_before(self, i: int) -> Option<Seq<char>> {
        if i == 0 {
            None
        } else {
            Some(self.records[i - 1].commit_hash)
        }
    }

    /// The first fault of the chain from a line on, if there is one: of a line, or that the
    /// head is not the hash of the last line.
    pub open spec fn chain_fault(self, i: int) -> Option<Seq<char>>
        decreases self.records.len() - i,
    {
        if 0 <= i < self.records.len() {
            if self.line_fault(i, self.hash_before(i)) is Some {
                self.line_fault(i, self.hash_before(i))
            } else {
                self.chain_fault(i + 1)
            }
        } else if self.head_hash != self.hash_before(self.records.len() as int) {
            Some("ledger head_hash does not match last record"@)
        } else {
            None
        }
    }
}

/// The name of a status.
pub open spec fn status_text(status: CommitStatus) -> Seq<char> {
    match status {
        CommitStatus::Pending => "Pending"@,
        CommitStatus::Committed => "Committed"@,
    }
}

/// The ledger of commits.
pub struct CommitLedger {
    /// The greatest sequence number so far.
    pub next_sequence: u64,
    pub head_hash: Option<CommitHash>,
    pub records: Vec<CommitRecord>,
    pub batches_by_id: Table<CommitBatch>,
    pub idempotency_index: StringHashMap<CommitId>,
}

impl View for CommitLedger {
    type V = LedgerModel;

    open spec fn view(&self) -> LedgerModel {
        LedgerModel {
            last_sequence: self.next_sequence as nat,
            head_hash: opt_text(self.head_hash),
            records: self.records@.map_values(|r: CommitRecord| r@),
            batches: map_views(self.batches_by_id@),
            keys: map_views(self.idempotency_index@),
        }
    }
}

impl Default for CommitLedger {
    fn default() -> (r: Self)
        ensures
            r.inv(),
            r@ == LedgerModel::empty(),
    {
        CommitLedger::new()
    }
}

impl CommitLedger {
    /// The table of batches is well formed, every batch stands under its own identifier,
    /// and every idempotency key leads to a batch that is known.
    pub open spec fn inv(&self) -> bool {
        &&& self.batches_by_id.wf()
        &&& forall|t: Seq<char>| #[trigger] self@.batches.contains_key(t) ==> self@.batches[t].id == t
        &&& forall|k: Seq<char>| #[trigger] self@.keys.contains_key(k) ==> self@.batches.contains_key(self@.keys[k])
    }

    /// A ledger without commits.
    pub fn new() -> (r: Self)
        ensures
            r.inv(),
            r@ == LedgerModel::empty(),
    {
        let r = CommitLedger {
            next_sequence: 0,
            head_hash: None,
            records: Vec::new(),
            batches_by_id: Table::new(),
            idempotency_index: StringHashMap::new(),
        };
        assert(r@.records =~= Seq::<CommitRecordModel>::empty());
        assert(r@.batches =~= Map::<Seq<char>, CommitBatchModel>::empty());
        assert(r@.keys =~= Map::<Seq<char>, Seq<char>>::empty());
        r
    }

    /// The sequence number that the next commit gets.
    pub fn next_sequence(&self) -> (r: u64)
        requires
            self@.last_sequence < u64::MAX,
        ensures
            r == self@.last_sequence + 1,
    {
        self.next_sequence + 1
    }

    /// The hash of the last commit.
    pub fn head_hash(&self) -> (r: Option<&CommitHash>)
        ensures
            match r {
                Some(h) => self@.head_hash == Some(h@),
                None => self@.head_hash is None,
            },
    {
        match &self.head_hash {
            Some(h) => Some(h),
            None => None,
        }
    }

    /// The number of commits.
    pub fn commit_count(&self) -> (r: usize)
        ensures
            r == self@.records.len(),
    {
        self.records.len()
    }

    /// The lines of the ledger, in order.
    pub fn records(&self) -> (r: &Vec<CommitRecord>)
        ensures
            r@.map_values(|x: CommitRecord| x@) == self@.records,
    {
        &self.records
    }

    /// The last line of the ledger.
    pub fn latest_record(&self) -> (r: Option<&CommitRecord>)
        ensures
            match r {
                Some(x) => self@.records.len() > 0 && x@ == self@.records.last(),
                None => self@.records.len() == 0,
            },
    {
        if self.records.len() == 0 {
            None
        } else {
            Some(&self.records[self.records.len() - 1])
        }
    }

    /// The batch with the identifier.
    pub fn batch(&self, id: &CommitId) -> (r: Option<&CommitBatch>)
        requires
            self.inv(),
        ensures
            match r {
                Some(x) => self@.batches.contains_key(id@) && x@ == self@.batches[id@],
                None => !self@.batches.contains_key(id@),
            },
    {
        self.batches_by_id.get(id)
    }

    /// The first line of the ledger on the batch with the identifier.
    pub fn record(&self, id: &CommitId) -> (r: Option<&CommitRecord>)
        ensures
            match r {
                Some(x) => exists|i: int|
                    0 <= i < self@.records.len() && x@ == #[trigger] self@.records[i] && x@.id == id@ && forall|j: int|
                        0 <= j < i ==> (#[trigger] self@.records[j]).id != id@,
                None => forall|i: int| 0 <= i < self@.records.len() ==> (#[trigger] self@.records[i]).id != id@,
            },
    {
        let mut i: usize = 0;
        while i < self.records.len()
            invariant
                i <= self.records@.len(),
                forall|j: int| 0 <= j < i ==> (#[trigger] self@.records[j]).id != id@,
            decreases self.records@.len() - i,
        {
            assert(self@.records[i as int] == self.records@[i as int]@);
            if self.records[i].id.same(id) {
                return Some(&self.records[i]);
            }
            i += 1;
        }
        None
    }

    /// The batch that an idempotency key led to.
    pub fn commit_for_idempotency_key(&self, key: &IdempotencyKey) -> (r: Option<&CommitBatch>)
        requires
            self.inv(),
        ensures
            match r {
                Some(x) => self@.known_commit(Some(key@)) == Some(x@),
                None => self@.known_commit(Some(key@)) is None,
            },
            r is Some <==> self@.keys.contains_key(key@),
    {
        match self.idempotency_index.get(key.as_str()) {
            Some(id) => {
                assert(self@.keys.contains_key(key@));
                self.batch(id)
            },
            None => None,
        }
    }

    fn add_batch(&mut self, batch: CommitBatch)
        requires
            old(self).inv(),
            batch@.commit_hash is Some,
        ensures
            final(self).inv(),
            final(self)@ == old(self)@.with_batch(batch@),
    {
        let ghost before = self@;
        let ghost stored = batch@;
        let n: usize = batch.events.len();
        let hash: CommitHash = match &batch.commit_hash {
            Some(h) => h.clone(),
            None => Id::from_str(""),
        };
        let first = if n > 0 {
            Some(batch.events[0].id.clone())
        } else {
            None
        };
        let last = if n > 0 {
            Some(batch.events[n - 1].id.clone())
        } else {
            None
        };
        let record = CommitRecord {
            id: batch.id.clone(),
            sequence: batch.sequence,
            previous_hash: clone_opt_id(&batch.previous_hash),
            commit_hash: hash,
            event_count: n,
            first_event_id: first,
            last_event_id: last,
        };
        assert(record@ == record_of_batch(stored));
        let ghost line = record@;
        if let Some(key) = &batch.idempotency_key {
            self.idempotency_index.insert(key.text.clone(), batch.id.clone());
        }
        if batch.sequence > self.next_sequence {
            self.next_sequence = batch.sequence;
        }
        self.head_hash = clone_opt_id(&batch.commit_hash);
        self.records.push(record);
        let id = batch.id.clone();
        self.batches_by_id.insert(id, batch);
        proof {
            assert(self@.records =~= before.records.push(line));
            assert(self@.batches =~= before.batches.insert(stored.id, stored));
            assert(self@.keys =~= before.with_batch(stored).keys);
        }
    }

    /// Commits events as one batch, under the given new identifier. A batch without events
    /// is refused; where the idempotency key has been used, the batch committed then is
    /// returned and nothing changes.
    pub fn commit_events(
        &mut self,
        id: CommitId,
        events: Vec<EncodedEvent>,
        idempotency_key: Option<IdempotencyKey>,
    ) -> (r: Result<CommitBatch, HydraError>)
        requires
            old(self).inv(),
            events@.len() > 0 && old(self)@.known_commit(opt_text(idempotency_key)) is None
                ==> old(self)@.last_sequence < u64::MAX,
        ensures
            final(self).inv(),
            ({
                let key = opt_text(idempotency_key);
                if events@.len() == 0 {
                    &&& r is Err
                    &&& r->Err_0@ == ErrorModel::QueryError("cannot commit an empty event batch"@)
                    &&& final(self)@ == old(self)@
                } else if old(self)@.known_commit(key) is Some {
                    &&& r is Ok
                    &&& r->Ok_0@ == old(self)@.known_commit(key)->0
                    &&& final(self)@ == old(self)@
                } else {
                    let batch = old(self)@.new_batch(id@, encoded_event_models(events@), key);
                    &&& r is Ok
                    &&& r->Ok_0@ == batch
                    &&& final(self)@ == old(self)@.with_batch(batch)
                }
            }),
    {
        if events.len() == 0 {
            return Err(HydraError::QueryError("cannot commit an empty event batch".to_owned()));
        }
        if let Some(key) = &idempotency_key {
            if let Some(existing) = self.commit_for_idempotency_key(key) {
                return Ok(existing.clone());
            }
        }
        let ghost before = self@;
        let ghost models = encoded_event_models(events@);
        let mut event_records: Vec<EventCommitRecord> = Vec::new();
        let mut i: usize = 0;
        while i < events.len()
            invariant
                i <= events@.len(),
                event_records@.len() == i,
                forall|j: int| 0 <= j < i ==> (#[trigger] event_records@[j])@ == record_of_event(events@[j]@),
            decreases events@.len() - i,
        {
            event_records.push(
                EventCommitRecord {
                    event_id: events[i].id.clone(),
                    event_hash: hash_event(&events[i]),
                    cascade_id: events[i].cascade_id.clone(),
                    cascade_depth: events[i].cascade_depth,
                    cascade_breadth_index: events[i].cascade_breadth_index,
                },
            );
            i += 1;
        }
        assert(event_commit_record_models(event_records@) =~= records_of_events(models));
        let sequence = self.next_sequence();
        let mut batch = CommitBatch::new(id, events);
        batch.sequence = sequence;
        batch.previous_hash = clone_opt_id(&self.head_hash);
        batch.idempotency_key = idempotency_key;
        batch.event_records = event_records;
        batch.status = CommitStatus::Committed;
        let hash = hash_commit_material(&batch);
        batch.commit_hash = Some(hash);
        assert(batch@ == before.new_batch(id@, models, opt_text(idempotency_key)));
        let copy = batch.clone();
        self.add_batch(batch);
        Ok(copy)
    }

    /// Loads a batch that was committed before, at the end of the chain. A batch that is
    /// not committed, has no hash, or whose identifier or idempotency key is known is
    /// refused and changes nothing. Whether the chain holds is left to its verification.
    pub fn load_committed_batch(&mut self, batch: CommitBatch) -> (r: Result<(), HydraError>)
        requires
            old(self).inv(),
        ensures
            final(self).inv(),
            match old(self)@.load_refusal(batch@) {
                Some(e) => r is Err && r->Err_0@ == e && final(self)@ == old(self)@,
                None => r is Ok && final(self)@ == old(self)@.with_batch(batch@),
            },
    {
        if batch.status != CommitStatus::Committed {
            let mut message = "cannot load non-committed batch ".to_owned();
            message.append(batch.id.as_str());
            message.append(" with status ");
            match batch.status {
                CommitStatus::Pending => message.append("Pending"),
                CommitStatus::Committed => message.append("Committed"),
            }
            return Err(HydraError::QueryError(message));
        }
        if batch.commit_hash.is_none() {
            let mut message = "cannot load committed batch ".to_owned();
            message.append(batch.id.as_str());
            message.append(" without commit_hash");
            return Err(HydraError::QueryError(message));
        }
        if self.batches_by_id.contains(&batch.id) {
            return Err(query_error("duplicate commit id during recovery: ", batch.id.as_str()));
        }
        if let Some(key) = &batch.idempotency_key {
            if self.idempotency_index.contains_key(key.as_str()) {
                return Err(query_error("duplicate idempotency key during recovery: ", key.as_str()));
            }
        }
        self.add_batch(batch);
        Ok(())
    }

    /// Loads batches in order, up to the first that is refused, and then verifies the
    /// chain.
    pub fn load_committed_batches(&mut self, batches: Vec<CommitBatch>) -> (r: Result<(), HydraError>)
        requires
            old(self).inv(),
        ensures
            final(self).inv(),
            ({
                let models = batches@.map_values(|b: CommitBatch| b@);
                let (end, refusal) = old(self)@.loaded(models);
                &&& final(self)@ == end
                &&& match refusal {
                    Some(e) => r is Err && r->Err_0@ == e,
                    None => match end.chain_fault(0) {
                        Some(message) => r is Err && r->Err_0@ == ErrorModel::QueryError(message),
                        None => r is Ok,
                    },
                }
            }),
    {
        let ghost before = self@;
        let ghost models = batches@.map_values(|b: CommitBatch| b@);
        let ghost all = batches@;
        let mut source = batches;
        let mut reversed: Vec<CommitBatch> = Vec::new();
        assert(all.take(source@.len() as int) =~= all);
        while source.len() > 0
            invariant
                source@.len() + reversed@.len() == all.len(),
                source@ == all.take(source@.len() as int),
                forall|i: int| 0 <= i < reversed@.len() ==> #[trigger] reversed@[i] == all[all.len() - 1 - i],
            decreases source@.len(),
        {
            let ghost m = source@.len() as int;
            let batch = source.pop().unwrap();
            assert(all.take(m).subrange(0, m - 1) =~= all.take(m - 1));
            reversed.push(batch);
        }
        assert(models.skip(0) =~= models);
        while reversed.len() > 0
            invariant
                self.inv(),
                before == old(self)@,
                all == batches@,
                models == batches@.map_values(|b: CommitBatch| b@),
                reversed@.len() <= all.len(),
                forall|i: int| 0 <= i < reversed@.len() ==> #[trigger] reversed@[i] == all[all.len() - 1 - i],
                before.loaded(models) == self@.loaded(models.skip(all.len() - reversed@.len())),
            decreases reversed@.len(),
        {
            let ghost done = all.len() - reversed@.len();
            let batch = reversed.pop().unwrap();
            proof {
                assert(batch == all[done]);
                assert(models.skip(done)[0] == batch@);
                assert(models.skip(done).skip(1) =~= models.skip(done + 1));
            }
            match self.load_committed_batch(batch) {
                Ok(_) => {},
                Err(e) => {
                    return Err(e);
                },
            }
        }
        self.verify_chain()
    }

    /// All batches, by sequence number.
    pub fn batches_in_sequence(&self) -> (r: Vec<&CommitBatch>)
        requires
            self.inv(),
        ensures
            exists|ids: Seq<Seq<char>>| #[trigger] in_sequence(views(r@), self@.batches, ids),
    {
        let mut r: Vec<&CommitBatch> = Vec::new();
        let ghost mut ids: Seq<Seq<char>> = Seq::empty();
        let mut i: usize = 0;
        while i < self.batches_by_id.entries.len()
            invariant
                self.inv(),
                i <= self.batches_by_id.entries@.len(),
                ids.len() == r@.len(),
                ids.no_duplicates(),
                forall|t: Seq<char>| #[trigger]
                    ids.contains(t) <==> exists|k: int| 0 <= k < i && (#[trigger] self.batches_by_id.entries@[k]).id@ == t,
                forall|j: int| 0 <= j < r@.len() ==> (#[trigger] r@[j])@ == self@.batches[ids[j]],
                forall|j: int, k: int| 0 <= j < k < r@.len() ==> (#[trigger] r@[j]).sequence <= (#[trigger] r@[k]).sequence,
            decreases self.batches_by_id.entries@.len() - i,
        {
            let batch = &self.batches_by_id.entries[i].value;
            let mut p: usize = r.len();
            while p > 0 && r[p - 1].sequence > batch.sequence
                invariant
                    p <= r@.len(),
                    forall|k: int| p <= k < r@.len() ==> (#[trigger] r@[k]).sequence > batch.sequence,
                decreases p,
            {
                p -= 1;
            }
            let ghost before = r@;
            let ghost old_ids = ids;
            r.insert(p, batch);
            proof {
                let t = self.batches_by_id.entries@[i as int].id@;
                ids = ids.insert(p as int, t);
                assert(self.batches_by_id.slots@.contains_key(t));
                assert(self.batches_by_id.slots@[t] == i);
                if old_ids.contains(t) {
                    let k = choose|k: int| 0 <= k < i && (#[trigger] self.batches_by_id.entries@[k]).id@ == t;
                    assert(self.batches_by_id.slots@[self.batches_by_id.entries@[k].id@] == k);
                }
                assert forall|u: Seq<char>| #[trigger] ids.contains(u) <==> old_ids.contains(u) || u == t by {
                    if old_ids.contains(u) {
                        let x = old_ids.index_of(u);
                        if x < p {
                            assert(ids[x] == u);
                        } else {
                            assert(ids[x + 1] == u);
                        }
                    }
                    assert(ids[p as int] == t);
                    if ids.contains(u) && u != t {
                        let x = ids.index_of(u);
                        if x < p {
                            assert(old_ids[x] == u);
                        } else {
                            assert(old_ids[x - 1] == u);
                        }
                    }
                }
                assert forall|j: int, k: int| 0 <= j < k < ids.len() implies ids[j] != ids[k] by {
                    let j0 = if j < p { j } else { j - 1 };
                    let k0 = if k < p { k } else { k - 1 };
                    if j != p && k != p {
                        assert(old_ids[j0] != old_ids[k0]);
                    } else if j == p {
                        assert(old_ids.contains(old_ids[k0]));
                    } else {
                        assert(old_ids.contains(old_ids[j0]));
                    }
                }
                assert forall|u: Seq<char>| #[trigger] ids.contains(u) <==> exists|k: int|
                    0 <= k < i + 1 && (#[trigger] self.batches_by_id.entries@[k]).id@ == u by {
                    if old_ids.contains(u) {
                        let k = choose|k: int| 0 <= k < i && (#[trigger] self.batches_by_id.entries@[k]).id@ == u;
                        assert(self.batches_by_id.entries@[k].id@ == u);
                    }
                    if u == t {
                        assert(self.batches_by_id.entries@[i as int].id@ == u);
                    }
                }
                assert forall|j: int| 0 <= j < r@.len() implies (#[trigger] r@[j])@ == self@.batches[ids[j]] by {
                    let j0 = if j < p { j } else { j - 1 };
                    if j != p {
                        assert(r@[j] == before[j0]);
                        assert(ids[j] == old_ids[j0]);
                    }
                }
                assert forall|j: int, k: int| 0 <= j < k < r@.len() implies (#[trigger] r@[j]).sequence <= (
                #[trigger] r@[k]).sequence by {
                    let j0 = if j < p { j } else { j - 1 };
                    let k0 = if k < p { k } else { k - 1 };
                    if j != p && k != p {
                        assert(r@[j] == before[j0] && r@[k] == before[k0]);
                    } else if j == p {
                        assert(r@[k] == before[k0]);
                    } else {
                        assert(r@[j] == before[j0]);
                        if j0 < p - 1 {
                            assert(before[j0].sequence <= before[p - 1].sequence);
                        }
                    }
                }
            }
            i += 1;
        }
        proof {
            let table = self.batches_by_id;
            assert forall|t: Seq<char>| #[trigger] ids.contains(t) <==> self@.batches.contains_key(t) by {
                if self@.batches.contains_key(t) {
                    assert(table.slots@.contains_key(t));
                    assert(table.entries@[table.slots@[t] as int].id@ == t);
                }
                if ids.contains(t) {
                    let k = choose|k: int| 0 <= k < i && (#[trigger] table.entries@[k]).id@ == t;
                    assert(table.slots@.contains_key(table.entries@[k].id@));
                }
            }
            assert forall|j: int| 0 <= j < r@.len() implies #[trigger] views(r@)[j] == self@.batches[ids[j]] by {
                assert(r@[j]@ == self@.batches[ids[j]]);
            }
            assert forall|j: int, k: int| 0 <= j < k < ids.len() implies (#[trigger] views(r@)[j]).sequence <= (
            #[trigger] views(r@)[k]).sequence by {
                assert(r@[j].sequence <= r@[k].sequence);
            }
            assert(in_sequence(views(r@), self@.batches, ids));
        }
        r
    }

    fn fault(text: &str, id: &str, rest: &str) -> (r: Result<(), HydraError>)
        ensures
            r is Err,
            r->Err_0@ == ErrorModel::QueryError(text@ + id@ + rest@),
    {
        let mut message = text.to_owned();
        message.append(id);
        message.append(rest);
        Err(HydraError::QueryError(message))
    }

    fn check_line(&self, index: usize, previous: &Option<CommitHash>) -> (r: Result<(), HydraError>)
        requires
            self.inv(),
            index < self.records@.len(),
        ensures
            match self@.line_fault(index as int, opt_text(*previous)) {
                Some(message) => r is Err && r->Err_0@ == ErrorModel::QueryError(message),
                None => r is Ok,
            },
    {
        let record = &self.records[index];
        assert(self@.records[index as int] == record@);
        proof {
            reveal_strlit("");
        }
        assert(index < self.records.len());
        let expected: u64 = index as u64 + 1;
        if record.sequence != expected {
            let mut message = "commit sequence mismatch at index ".to_owned();
            message.append(decimal(index as u64).as_str());
            message.append(": expected ");
            message.append(decimal(expected).as_str());
            message.append(", got ");
            message.append(decimal(record.sequence).as_str());
            return Err(HydraError::QueryError(message));
        }
        if !same_opt_id(&record.previous_hash, previous) {
            return Err(
                query_error("commit previous_hash mismatch at sequence ", decimal(record.sequence).as_str()),
            );
        }
        let batch = match self.batches_by_id.get(&record.id) {
            Some(batch) => batch,
            None => {
                return Err(query_error("missing commit batch for record ", record.id.as_str()));
            },
        };
        if batch.status != CommitStatus::Committed {
            return CommitLedger::fault("commit batch ", batch.id.as_str(), " is not committed");
        }
        if batch.event_count() != record.event_count {
            return Err(query_error("event count mismatch for commit ", batch.id.as_str()));
        }
        let stored = match &batch.commit_hash {
            Some(hash) => hash.same(&record.commit_hash),
            None => false,
        };
        if !stored {
            return Err(query_error("commit hash mismatch for commit ", batch.id.as_str()));
        }
        if !hash_commit_material(batch).same(&record.commit_hash) {
            return Err(query_error("recomputed commit hash mismatch for commit ", batch.id.as_str()));
        }
        Ok(())
    }

    /// Verifies the chain: the lines are numbered from one, each is bound to the hash before
    /// it, its batch is there, committed, and has the recorded number of events and the
    /// recorded hash, which is the hash of what it says, and the head is the last hash. The
    /// first fault is reported.
    pub fn verify_chain(&self) -> (r: Result<(), HydraError>)
        requires
            self.inv(),
        ensures
            match self@.chain_fault(0) {
                Some(message) => r is Err && r->Err_0@ == ErrorModel::QueryError(message),
                None => r is Ok,
            },
    {
        let mut previous: Option<CommitHash> = None;
        let mut i: usize = 0;
        while i < self.records.len()
            invariant
                self.inv(),
                i <= self.records@.len(),
                opt_text(previous) == self@.hash_before(i as int),
                self@.chain_fault(0) == self@.chain_fault(i as int),
            decreases self.records@.len() - i,
        {
            match self.check_line(i, &previous) {
                Ok(_) => {},
                Err(e) => {
                    return Err(e);
                },
            }
            assert(self@.records[i as int] == self.records@[i as int]@);
            previous = Some(self.records[i].commit_hash.clone());
            i += 1;
        }
        if !same_opt_id(&self.head_hash, &previous) {
            return Err(HydraError::QueryError("ledger head_hash does not match last record".to_owned()));
        }
        Ok(())
    }
}

/// The list holds every batch once, under the identifiers in order, by sequence number.
pub open spec fn in_sequence(
    list: Seq<CommitBatchModel>,
    batches: Map<Seq<char>, CommitBatchModel>,
    ids: Seq<Seq<char>>,
) -> bool {
    &&& ids.no_duplicates()
    &&& forall|t: Seq<char>| #[trigger] ids.contains(t) <==> batches.contains_key(t)
    &&& list.len() == ids.len()
    &&& forall|i: int| 0 <= i < ids.len() ==> #[trigger] list[i] == batches[ids[i]]
    &&& forall|i: int, j: int| 0 <= i < j < ids.len() ==> (#[trigger] list[i]).sequence <= (#[trigger] list[j]).sequence
}

/// A request to commit events.
pub struct CommitRequest {
    pub id: Seq<char>,
    pub events: Seq<EncodedEventModel>,
    pub key: Option<Seq<char>>,
}

impl LedgerModel {
    /// Whether the request is for a new commit: it has events, its identifier is new, and
    /// its idempotency key, if it has one, is new.
    pub open spec fn is_new(self, request: CommitRequest) -> bool {
        &&& request.events.len() > 0
        &&& !self.batches.contains_key(request.id)
        &&& request.key is Some ==> !self.keys.contains_key(request.key->0)
    }

    /// The ledger after a request for a new commit.
    pub open spec fn committed(self, request: CommitRequest) -> LedgerModel {
        self.with_batch(self.new_batch(request.id, request.events, request.key))
    }

    /// The chain holds, and the lines are numbered up to the greatest sequence number.
    pub open spec fn chained(self) -> bool {
        &&& self.chain_fault(0) is None
        &&& self.last_sequence == self.records.len()
    }
}

proof fn chain_lines(ledger: LedgerModel, i: int)
    requires
        0 <= i <= ledger.records.len(),
    ensures
        ledger.chain_fault(i) is None <==> (ledger.head_hash == ledger.hash_before(ledger.records.len() as int)
            && forall|j: int|
            i <= j < ledger.records.len() ==> #[trigger] ledger.line_fault(j, ledger.hash_before(j)) is None),
    decreases ledger.records.len() - i,
{
    if i < ledger.records.len() {
        chain_lines(ledger, i + 1);
        if ledger.chain_fault(i) is None {
            assert forall|j: int| i <= j < ledger.records.len() implies #[trigger] ledger.line_fault(
                j,
                ledger.hash_before(j),
            ) is None by {
            }
        }
    }
}

/// A new commit on a chain that holds gives a chain that holds, one line longer.
pub proof fn law_commits_keep_the_chain(ledger: LedgerModel, request: CommitRequest)
    requires
        ledger.chained(),
        ledger.is_new(request),
        ledger.last_sequence < u64::MAX,
        request.events.len() <= usize::MAX,
    ensures
        ledger.committed(request).chained(),
        ledger.committed(request).records.len() == ledger.records.len() + 1,
        ledger.committed(request).records.last().previous_hash == ledger.head_hash,
{
    let next = ledger.committed(request);
    let batch = ledger.new_batch(request.id, request.events, request.key);
    let n = ledger.records.len() as int;
    chain_lines(ledger, 0);
    chain_lines(next, 0);
    assert(commit_material(batch) == commit_material(CommitBatchModel { commit_hash: None, ..batch }));
    assert(commit_hash_of(batch) == batch.commit_hash->0);
    assert forall|j: int| 0 <= j < next.records.len() implies #[trigger] next.line_fault(j, next.hash_before(j)) is None by {
        if j < n {
            assert(ledger.line_fault(j, ledger.hash_before(j)) is None);
            assert(next.records[j] == ledger.records[j]);
            assert(next.hash_before(j) == ledger.hash_before(j));
        } else {
            assert(next.hash_before(j) == ledger.hash_before(n));
        }
    }
}

/// Committing again under an idempotency key that led to a batch gives back that batch:
/// after a new commit its key leads to it.
pub proof fn law_idempotency_keys_lead_to_their_commit(ledger: LedgerModel, request: CommitRequest)
    requires
        ledger.is_new(request),
        request.key is Some,
    ensures
        ledger.known_commit(request.key) is None,
        ledger.committed(request).known_commit(request.key) == Some(
            ledger.new_batch(request.id, request.events, request.key),
        ),
{
}

/// The ledger after requests for new commits.
pub open spec fn committed_all(ledger: LedgerModel, requests: Seq<CommitRequest>) -> LedgerModel
    decreases requests.len(),
{
    if requests.len() == 0 {
        ledger
    } else {
        committed_all(ledger.committed(requests[0]), requests.skip(1))
    }
}

/// The batches that requests for new commits make.
pub open spec fn batches_made(ledger: LedgerModel, requests: Seq<CommitRequest>) -> Seq<CommitBatchModel>
    decreases requests.len(),
{
    if requests.len() == 0 {
        Seq::empty()
    } else {
        seq![ledger.new_batch(requests[0].id, requests[0].events, requests[0].key)] + batches_made(
            ledger.committed(requests[0]),
            requests.skip(1),
        )
    }
}

/// Whether every request is for a new commit when its turn comes.
pub open spec fn all_new(ledger: LedgerModel, requests: Seq<CommitRequest>) -> bool
    decreases requests.len(),
{
    requests.len() == 0 || (ledger.is_new(requests[0]) && requests[0].events.len() <= usize::MAX
        && ledger.last_sequence < u64::MAX && all_new(ledger.committed(requests[0]), requests.skip(1)))
}

/// Recovery: loading the batches that commits made, in order, gives the ledger that the
/// commits left, and its chain holds.
pub proof fn law_loading_recovers_the_ledger(ledger: LedgerModel, requests: Seq<CommitRequest>)
    requires
        ledger.chained(),
        all_new(ledger, requests),
    ensures
        ledger.loaded(batches_made(ledger, requests)) == (committed_all(ledger, requests), None::<ErrorModel>),
        committed_all(ledger, requests).chained(),
    decreases requests.len(),
{
    if requests.len() > 0 {
        let batch = ledger.new_batch(requests[0].id, requests[0].events, requests[0].key);
        let next = ledger.committed(requests[0]);
        law_commits_keep_the_chain(ledger, requests[0]);
        law_loading_recovers_the_ledger(next, requests.skip(1));
        let made = batches_made(ledger, requests);
        assert(made[0] == batch);
        assert(made.skip(1) =~= batches_made(next, requests.skip(1)));
        assert(ledger.load_refusal(batch) is None);
    }
}

/// An idempotency key keeps its batch, whatever is committed later.
pub proof fn law_keys_keep_their_commit(ledger: LedgerModel, requests: Seq<CommitRequest>, key: Seq<char>)
    requires
        all_new(ledger, requests),
        ledger.known_commit(Some(key)) is Some,
    ensures
        committed_all(ledger, requests).known_commit(Some(key)) == ledger.known_commit(Some(key)),
    decreases requests.len(),
{
    if requests.len() > 0 {
        let next = ledger.committed(requests[0]);
        assert(next.known_commit(Some(key)) == ledger.known_commit(Some(key)));
        law_keys_keep_their_commit(next, requests.skip(1), key);
    }
}

proof fn one_batch_per_request(ledger: LedgerModel, requests: Seq<CommitRequest>)
    ensures
        batches_made(ledger, requests).len() == requests.len(),
    decreases requests.len(),
{
    if requests.len() > 0 {
        one_batch_per_request(ledger.committed(requests[0]), requests.skip(1));
    }
}

/// The key of each of a number of commits leads to the batch that this commit made, also after
/// the others.
pub proof fn law_every_key_leads_to_its_commit(ledger: LedgerModel, requests: Seq<CommitRequest>, i: int)
    requires
        all_new(ledger, requests),
        0 <= i < requests.len(),
        requests[i].key is Some,
    ensures
        committed_all(ledger, requests).known_commit(requests[i].key) == Some(batches_made(ledger, requests)[i]),
    decreases requests.len(),
{
    let next = ledger.committed(requests[0]);
    if i == 0 {
        law_idempotency_keys_lead_to_their_commit(ledger, requests[0]);
        law_keys_keep_their_commit(next, requests.skip(1), requests[0].key->0);
    } else {
        assert(requests.skip(1)[i - 1] == requests[i]);
        law_every_key_leads_to_its_commit(next, requests.skip(1), i - 1);
        one_batch_per_request(next, requests.skip(1));
        assert(batches_made(ledger, requests)[i] == batches_made(next, requests.skip(1))[i - 1]);
    }
}

proof fn commits_add_up(ledger: LedgerModel, requests: Seq<CommitRequest>)
    requires
        ledger.chained(),
        all_new(ledger, requests),
    ensures
        committed_all(ledger, requests).chained(),
        committed_all(ledger, requests).records.len() == ledger.records.len() + requests.len(),
        committed_all(ledger, requests).records.take(ledger.records.len() as int) == ledger.records,
    decreases requests.len(),
{
    if requests.len() > 0 {
        let next = ledger.committed(requests[0]);
        law_commits_keep_the_chain(ledger, requests[0]);
        commits_add_up(next, requests.skip(1));
        let all = committed_all(ledger, requests).records;
        assert(all.take(ledger.records.len() as int) =~= next.records.take(ledger.records.len() as int)) by {
            assert(all.take(next.records.len() as int) == next.records);
            assert(all.take(next.records.len() as int).take(ledger.records.len() as int) =~= all.take(
                ledger.records.len() as int,
            ));
        }
        assert(next.records.take(ledger.records.len() as int) =~= ledger.records);
    } else {
        assert(ledger.records.take(ledger.records.len() as int) =~= ledger.records);
    }
}

/// A ledger that was empty before a number of commits numbers the next one behind them, links
/// it to the last hash, keeps the lines that are there, and its chain holds.
pub proof fn law_commits_are_numbered_and_linked(requests: Seq<CommitRequest>, request: CommitRequest)
    requires
        all_new(LedgerModel::empty(), requests),
        committed_all(LedgerModel::empty(), requests).is_new(request),
        request.events.len() <= usize::MAX,
        requests.len() < u64::MAX,
    ensures
        ({
            let ledger = committed_all(LedgerModel::empty(), requests);
            let batch = ledger.new_batch(request.id, request.events, request.key);
            let next = ledger.committed(request);
            &&& batch.sequence == requests.len() + 1
            &&& batch.previous_hash == ledger.head_hash
            &&& requests.len() == 0 ==> ledger.head_hash is None
            &&& batch.commit_hash is Some
            &&& next.head_hash == batch.commit_hash
            &&& next.records.len() == requests.len() + 1
            &&& next.records.last().id == batch.id
            &&& next.records.drop_last() == ledger.records
            &&& next.chained()
        }),
{
    let start = LedgerModel::empty();
    assert(start.chained());
    commits_add_up(start, requests);
    let ledger = committed_all(start, requests);
    law_commits_keep_the_chain(ledger, request);
    assert(ledger.committed(request).records.drop_last() =~= ledger.records);
}

/// Loading the same batch twice is refused the second time.
pub proof fn law_batches_load_once(ledger: LedgerModel, batch: CommitBatchModel)
    requires
        ledger.load_refusal(batch) is None,
    ensures
        ledger.with_batch(batch).load_refusal(batch) == Some(
            ErrorModel::QueryError("duplicate commit id during recovery: "@ + batch.id),
        ),
{
}

} // verus!
