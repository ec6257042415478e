//! Laws of the ledger: what a verified chain vouches for, and what commits and recovery record.

use crate::commit::{CommitBatchModel, CommitStatus};
use crate::commit_ledger::{commit_material, digest, in_sequence, CommitRequest, LedgerModel};
use vstd::prelude::*;

verus! {

/// The line at the place is right: it is numbered by its place, linked to the line before, and
/// its batch is there, committed, with as many events and the hash that the line says, which is
/// the digest of what the batch says.
pub open spec fn line_is_right(ledger: LedgerModel, i: int) -> bool {
    let record = ledger.records[i];
    let batch = ledger.batches[record.id];
    &&& record.sequence == i + 1
    &&& i == 0 ==> record.previous_hash is None
    &&& i > 0 ==> record.previous_hash == Some(ledger.records[i - 1].commit_hash)
    &&& ledger.batches.contains_key(record.id)
    &&& batch.status == CommitStatus::Committed
    &&& batch.events.len() == record.event_count
    &&& batch.commit_hash == Some(record.commit_hash)
    &&& record.commit_hash == digest(commit_material(batch))
}

proof fn faults_are_wrong_lines(ledger: LedgerModel, i: int)
    requires
        0 <= i <= ledger.records.len(),
    ensures
        ledger.chain_fault(i) is None <==> {
            &&& forall|j: int| i <= j < ledger.records.len() ==> #[trigger] line_is_right(ledger, j)
            &&& ledger.records.len() == 0 ==> ledger.head_hash is None
            &&& ledger.records.len() > 0 ==> ledger.head_hash == Some(ledger.records.last().commit_hash)
        },
    decreases ledger.records.len() - i,
{
    if i < ledger.records.len() {
        faults_are_wrong_lines(ledger, i + 1);
        assert(ledger.line_fault(i, ledger.hash_before(i)) is None <==> line_is_right(ledger, i));
        if ledger.chain_fault(i) is None {
            assert forall|j: int| i <= j < ledger.records.len() implies #[trigger] line_is_right(ledger, j) by {
                if j > i {
                    assert(line_is_right(ledger, j));
                }
            }
        }
    }
}

/// A chain is verified exactly where every line of it is right and the head is the hash of the
/// last line.
pub proof fn law_verified_chains_are_right(ledger: LedgerModel)
    ensures
        ledger.chain_fault(0) is None <==> {
            &&& forall|j: int| 0 <= j < ledger.records.len() ==> #[trigger] line_is_right(ledger, j)
            &&& ledger.records.len() == 0 ==> ledger.head_hash is None
            &&& ledger.records.len() > 0 ==> ledger.head_hash == Some(ledger.records.last().commit_hash)
        },
{
    faults_are_wrong_lines(ledger, 0);
}

/// A batch that does not say what its hash was made of is never vouched for: where the digest of
/// what the batch of a line says is another than the recorded hash, the chain is not verified.
pub proof fn law_altered_batches_break_the_chain(ledger: LedgerModel, i: int)
    requires
        0 <= i < ledger.records.len(),
        digest(commit_material(ledger.batches[ledger.records[i].id])) != ledger.records[i].commit_hash,
    ensures
        ledger.chain_fault(0) is Some,
{
    law_verified_chains_are_right(ledger);
    if ledger.chain_fault(0) is None {
        assert(line_is_right(ledger, i));
    }
}

proof fn loading_keeps_what_is_there(ledger: LedgerModel, batches: Seq<CommitBatchModel>)
    requires
        ledger.loaded(batches).1 is None,
    ensures
        ({
            let end = ledger.loaded(batches).0;
            &&& end.records.len() == ledger.records.len() + batches.len()
            &&& forall|j: int| 0 <= j < ledger.records.len() ==> #[trigger] end.records[j] == ledger.records[j]
            &&& forall|t: Seq<char>| #[trigger]
                ledger.batches.contains_key(t) ==> end.batches.contains_key(t) && end.batches[t] == ledger.batches[t]
        }),
    decreases batches.len(),
{
    if batches.len() > 0 {
        let next = ledger.with_batch(batches[0]);
        loading_keeps_what_is_there(next, batches.skip(1));
        let end = ledger.loaded(batches).0;
        assert forall|j: int| 0 <= j < ledger.records.len() implies #[trigger] end.records[j] == ledger.records[j] by {
            assert(next.records[j] == ledger.records[j]);
        }
        assert forall|t: Seq<char>| #[trigger] ledger.batches.contains_key(t) implies end.batches.contains_key(t)
            && end.batches[t] == ledger.batches[t] by {
            assert(next.batches.contains_key(t));
        }
    }
}

proof fn loaded_batches_have_lines(ledger: LedgerModel, batches: Seq<CommitBatchModel>, i: int)
    requires
        ledger.loaded(batches).1 is None,
        0 <= i < batches.len(),
    ensures
        ({
            let end = ledger.loaded(batches).0;
            let record = end.records[ledger.records.len() + i];
            &&& ledger.records.len() + i < end.records.len()
            &&& record.id == batches[i].id
            &&& record.sequence == batches[i].sequence
            &&& record.previous_hash == batches[i].previous_hash
            &&& Some(record.commit_hash) == batches[i].commit_hash
            &&& end.batches.contains_key(batches[i].id)
            &&& end.batches[batches[i].id] == batches[i]
            &&& batches[i].status == CommitStatus::Committed
            &&& batches[i].commit_hash is Some
        }),
    decreases batches.len(),
{
    let next = ledger.with_batch(batches[0]);
    if i == 0 {
        loading_keeps_what_is_there(next, batches.skip(1));
        assert(next.records[ledger.records.len() as int].id == batches[0].id);
        assert(next.batches.contains_key(batches[0].id));
    } else {
        loaded_batches_have_lines(next, batches.skip(1), i - 1);
        assert(batches.skip(1)[i - 1] == batches[i]);
    }
}

/// Recovery accepts only what is right: where batches are loaded without a refusal and the chain
/// is verified, each of them stands in the ledger as it was given, was committed, carries the
/// digest of what it says, and is numbered and linked behind the one before it.
pub proof fn law_recovery_accepts_what_is_right(ledger: LedgerModel, batches: Seq<CommitBatchModel>, i: int)
    requires
        ledger.loaded(batches).1 is None,
        ledger.loaded(batches).0.chain_fault(0) is None,
        0 <= i < batches.len(),
    ensures
        batches[i].status == CommitStatus::Committed,
        batches[i].commit_hash == Some(digest(commit_material(batches[i]))),
        batches[i].sequence == ledger.records.len() + i + 1,
        i > 0 ==> batches[i].previous_hash == batches[i - 1].commit_hash,
        ledger.loaded(batches).0.batches.contains_key(batches[i].id),
        ledger.loaded(batches).0.batches[batches[i].id] == batches[i],
        forall|j: int| 0 <= j < batches.len() && j != i ==> (#[trigger] batches[j]).id != batches[i].id,
{
    let end = ledger.loaded(batches).0;
    let n = ledger.records.len() as int;
    law_verified_chains_are_right(end);
    loaded_batches_have_lines(ledger, batches, i);
    assert(line_is_right(end, n + i));
    if i > 0 {
        loaded_batches_have_lines(ledger, batches, i - 1);
    }
    assert forall|j: int| 0 <= j < batches.len() && j != i implies (#[trigger] batches[j]).id != batches[i].id by {
        loaded_batches_have_lines(ledger, batches, j);
        assert(line_is_right(end, n + j));
        if batches[j].id == batches[i].id {
            assert(batches[j] == batches[i]);
        }
    }
}

/// A batch is refused exactly where it is not committed, has no hash, or has an identifier or an
/// idempotency key that the ledger knows. One that is taken is found under both.
pub proof fn law_known_batches_are_refused(ledger: LedgerModel, batch: CommitBatchModel)
    ensures
        ledger.load_refusal(batch) is Some <==> {
            ||| batch.status != CommitStatus::Committed
            ||| batch.commit_hash is None
            ||| ledger.batches.contains_key(batch.id)
            ||| batch.idempotency_key is Some && ledger.keys.contains_key(batch.idempotency_key->0)
        },
        ledger.load_refusal(batch) is None ==> {
            let next = ledger.with_batch(batch);
            &&& next.batches.contains_key(batch.id) && next.batches[batch.id] == batch
            &&& batch.idempotency_key is Some ==> next.known_commit(batch.idempotency_key) == Some(batch)
            &&& next.head_hash == batch.commit_hash
            &&& next.records.len() == ledger.records.len() + 1
            &&& next.records.drop_last() == ledger.records
            &&& next.last_sequence >= ledger.last_sequence && next.last_sequence >= batch.sequence
            &&& next.last_sequence == ledger.last_sequence || next.last_sequence == batch.sequence
        },
{
    if ledger.load_refusal(batch) is None {
        assert(ledger.with_batch(batch).records.drop_last() =~= ledger.records);
    }
}

/// A commit records its events: the batch holds them in order, each with its place in its cascade
/// and the digest of its encoding; its hash is the digest of all that it says, and the line of
/// the ledger names the first and the last of the events.
pub proof fn law_commits_record_their_events(ledger: LedgerModel, request: CommitRequest, i: int)
    requires
        ledger.is_new(request),
        ledger.last_sequence < u64::MAX,
        request.events.len() <= usize::MAX,
        0 <= i < request.events.len(),
    ensures
        ({
            let batch = ledger.new_batch(request.id, request.events, request.key);
            let line = ledger.committed(request).records.last();
            &&& batch.id == request.id
            &&& batch.events == request.events
            &&& batch.idempotency_key == request.key
            &&& batch.status == CommitStatus::Committed
            &&& batch.sequence == ledger.last_sequence + 1
            &&& batch.previous_hash == ledger.head_hash
            &&& batch.commit_hash == Some(digest(commit_material(batch)))
            &&& batch.event_records.len() == request.events.len()
            &&& batch.event_records[i].event_id == request.events[i].id
            &&& batch.event_records[i].event_hash == digest(request.events[i].encoding)
            &&& batch.event_records[i].cascade_id == request.events[i].cascade_id
            &&& batch.event_records[i].cascade_depth == request.events[i].cascade_depth
            &&& batch.event_records[i].cascade_breadth_index == request.events[i].cascade_breadth_index
            &&& line.id == request.id
            &&& line.sequence == ledger.last_sequence + 1
            &&& line.previous_hash == ledger.head_hash
            &&& Some(line.commit_hash) == batch.commit_hash
            &&& line.event_count == request.events.len()
            &&& line.first_event_id == Some(request.events[0].id)
            &&& line.last_event_id == Some(request.events.last().id)
            &&& ledger.committed(request).head_hash == batch.commit_hash
        }),
{
    let batch = ledger.new_batch(request.id, request.events, request.key);
    assert(commit_material(CommitBatchModel { commit_hash: None, ..batch }) == commit_material(batch));
}

/// A listing of the batches in sequence holds every batch once, and no batch stands behind one
/// with a greater number.
pub proof fn law_listings_hold_every_batch_in_order(
    list: Seq<CommitBatchModel>,
    batches: Map<Seq<char>, CommitBatchModel>,
    ids: Seq<Seq<char>>,
    t: Seq<char>,
    i: int,
    j: int,
)
    requires
        in_sequence(list, batches, ids),
        batches.contains_key(t),
        0 <= i < j < list.len(),
    ensures
        list.contains(batches[t]),
        list.len() == ids.to_set().len(),
        ids.to_set() == batches.dom(),
        list[i].sequence <= list[j].sequence,
{
    let k = ids.index_of(t);
    assert(ids.contains(t));
    assert(list[k] == batches[ids[k]]);
    ids.unique_seq_to_set();
    assert(ids.to_set() =~= batches.dom());
}

} // verus!
