//! Laws of the log: where events are found, what led to them, and what is let go.

use crate::event::EventModel;
use crate::event_log::{auto_compacted, causes, in_cascade, last_position, LogModel};
use crate::number::Number;
use vstd::prelude::*;

verus! {

/// An event is found at the last place where its identifier stands.
pub proof fn law_events_are_found_where_they_stand_last(events: Seq<EventModel>, id: Seq<char>, i: int)
    requires
        0 <= i < events.len(),
    ensures
        events[i].id == id ==> last_position(events, id) is Some && last_position(events, id)->0 >= i,
        last_position(events, id) matches Some(k) ==> 0 <= k < events.len() && events[k].id == id,
    decreases events.len(),
{
    crate::event_log::last_position_bounds(events, id);
    let fewer = events.drop_last();
    if i < fewer.len() {
        assert(fewer[i] == events[i]);
        law_events_are_found_where_they_stand_last(fewer, id, i);
    }
}

/// The events of a cascade are all that bear its identifier, in the order of the log.
pub proof fn law_cascades_are_kept_together(events: Seq<EventModel>, event: EventModel, cascade: Seq<char>, e: EventModel)
    ensures
        in_cascade(events, cascade).contains(e) <==> events.contains(e) && e.cascade_id == cascade,
        in_cascade(events.push(event), cascade) == if event.cascade_id == cascade {
            in_cascade(events, cascade).push(event)
        } else {
            in_cascade(events, cascade)
        },
{
    let of = |e: EventModel| e.cascade_id == cascade;
    events.filter_lemma(of);
    if in_cascade(events, cascade).contains(e) {
        let k = in_cascade(events, cascade).index_of(e);
        assert(of(in_cascade(events, cascade)[k]));
        events.lemma_filter_contains_rev(of, e);
    }
    if events.contains(e) && e.cascade_id == cascade {
        events.lemma_filter_contains(of, events.index_of(e));
    }
    reveal(Seq::filter);
    assert(events.push(event).drop_last() =~= events);
}

/// A chain of causes goes from each event to the first that it names as its cause, as the log
/// last knows it, until one names none, or one that is not in the log, or the limit is reached.
pub proof fn law_chains_go_from_cause_to_cause(events: Seq<EventModel>, id: Seq<char>, limit: nat, k: int)
    requires
        0 <= k < causes(events, id, limit).len(),
    ensures
        ({
            let chain = causes(events, id, limit);
            &&& chain.len() <= limit
            &&& chain[0].id == id
            &&& events.contains(chain[k])
            &&& k + 1 < chain.len() ==> chain[k].caused_by.len() > 0 && chain[k + 1].id == chain[k].caused_by[0]
            &&& k + 1 == chain.len() && chain.len() < limit ==> chain[k].caused_by.len() == 0 || last_position(
                events,
                chain[k].caused_by[0],
            ) is None
        }),
    decreases limit,
{
    crate::event_log::last_position_bounds(events, id);
    let chain = causes(events, id, limit);
    let i = last_position(events, id)->0;
    let event = events[i];
    assert(chain[0] == event);
    if event.caused_by.len() > 0 {
        let rest = causes(events, event.caused_by[0], (limit - 1) as nat);
        assert(chain =~= seq![event] + rest);
        assert(forall|j: int| 0 < j < chain.len() ==> chain[j] == #[trigger] rest[j - 1]);
        if rest.len() > 0 {
            law_chains_go_from_cause_to_cause(events, event.caused_by[0], (limit - 1) as nat, 0);
        } else if limit > 1 {
            assert(last_position(events, event.caused_by[0]) is None);
        }
        if k > 0 {
            law_chains_go_from_cause_to_cause(events, event.caused_by[0], (limit - 1) as nat, k - 1);
            assert(chain[k] == rest[k - 1]);
            if k + 1 < chain.len() {
                assert(chain[k + 1] == rest[k]);
            }
        }
    }
}

/// A log that keeps within its limit is left alone. One that does not lets go of its oldest
/// events: the part that it is told to, but at least one, and never the latest.
pub proof fn law_full_logs_let_go_of_the_oldest(log: LogModel, i: int)
    requires
        0 <= i < log.events.len(),
        forall|i: int, j: int|
            0 <= i < j < log.events.len() ==> (#[trigger] log.events[i]).id != (#[trigger] log.events[j]).id,
    ensures
        ({
            let after = auto_compacted(log);
            let n = log.events.len();
            let gone = n - after.events.len();
            let share = Number::nearest(n).product(log.config.compact_fraction).truncated();
            &&& n <= log.config.max_events ==> after == log
            &&& n > log.config.max_events && n > 1 ==> {
                &&& 1 <= gone < n
                &&& share <= 1 ==> gone == 1
                &&& 1 <= share < n ==> gone == share
                &&& share >= n - 1 ==> gone == n - 1
            }
            &&& after.events == log.events.skip(gone)
            &&& after.total_appended == log.total_appended && after.config == log.config
            &&& i < gone ==> after.forgotten.contains(log.events[i].id) && after.lost(log.events[i].id)
            &&& i >= gone ==> !after.lost(log.events[i].id)
        }),
{
    let n = log.events.len();
    let after = auto_compacted(log);
    law_events_are_found_where_they_stand_last(log.events, log.events[i].id, i);
    let at = last_position(log.events, log.events[i].id)->0;
    assert(at == i) by {
        if at > i {
            assert(log.events[i].id != log.events[at].id);
        }
    }
    if n <= log.config.max_events || n == 1 {
        assert(after == log);
        assert(log.events.skip(0) =~= log.events);
    } else {
        let share = Number::nearest(n).product(log.config.compact_fraction).truncated();
        let at_least: nat = if share < 1 {
            1
        } else {
            share
        };
        let count: nat = if at_least < n - 1 {
            at_least
        } else {
            (n - 1) as nat
        };
        let last = log.events[count - 1].id;
        law_events_are_found_where_they_stand_last(log.events, last, count - 1);
        let k = last_position(log.events, last)->0;
        assert(k == count - 1) by {
            if k > count - 1 {
                assert(log.events[count - 1].id != log.events[k].id);
            }
        }
        crate::event_log::law_compaction_keeps_the_latest(log, last, log.events[i].id);
        let dropped = log.events.take(k + 1);
        if i <= k {
            let ids = dropped.map_values(|e: EventModel| e.id);
            assert(ids[i] == log.events[i].id);
            assert(crate::event_log::identifiers(dropped).contains(log.events[i].id));
        }
    }
}

} // verus!
