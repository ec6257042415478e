//! The append-only event log, with queries along causal links.

use crate::event::{borrowed_models, event_models, Event, EventModel};
use crate::ids::{CascadeId, EventId, Id};
use crate::number::Number;
use crate::projection::counted;
use crate::table::Table;
use vstd::hash_map::StringHashMap;
use vstd::prelude::*;

verus! {

/// How much of the log is kept in memory.
#[derive(Debug, Clone, Copy, PartialEq)]
pub struct EventLogConfig {
    /// The number of events above which the log is compacted.
    pub max_events: usize,
    /// The fraction of the events that a compaction removes.
    pub compact_fraction: Number,
}

/// The bit pattern of one fifth.
pub const ONE_FIFTH: u64 = 0x3fc9_9999_9999_999a;

impl Default for EventLogConfig {
    fn default() -> (r: Self)
        ensures
            r.max_events == usize::MAX,
            r.compact_fraction.bits == ONE_FIFTH,
    {
        EventLogConfig { max_events: usize::MAX, compact_fraction: Number::from_bits(ONE_FIFTH) }
    }
}

/// What a log stands for: its events in order, how many were ever appended, and the
/// identifiers of those that compactions removed.
pub struct LogModel {
    pub events: Seq<EventModel>,
    pub total_appended: nat,
    pub config: EventLogConfig,
    pub forgotten: Set<Seq<char>>,
}

impl LogModel {
    /// Whether a compaction removed the event and it was not appended again: what it brought
    /// about is then lost.
    pub open spec fn lost(self, id: Seq<char>) -> bool {
        self.forgotten.contains(id) && last_position(self.events, id) is None
    }
}

/// The identifiers of events.
pub open spec fn identifiers(events: Seq<EventModel>) -> Set<Seq<char>> {
    events.map_values(|e: EventModel| e.id).to_set()
}

/// The position of the last event with the identifier.
pub open spec fn last_position(events: Seq<EventModel>, id: Seq<char>) -> Option<int>
    decreases events.len(),
{
    if events.len() == 0 {
        None
    } else if events.last().id == id {
        Some(events.len() - 1)
    } else {
        last_position(events.drop_last(), id)
    }
}

/// Whether the event names the identifier as a cause.
pub open spec fn caused(event: EventModel, cause: Seq<char>) -> bool {
    event.caused_by.contains(cause)
}

/// The events of a cascade, in order.
pub open spec fn in_cascade(events: Seq<EventModel>, cascade_id: Seq<char>) -> Seq<EventModel> {
    events.filter(|e: EventModel| e.cascade_id == cascade_id)
}

/// The chain from an event to its first cause, that one's first cause, and so on, as
/// far as the log knows them; at most `limit` events.
pub open spec fn causes(events: Seq<EventModel>, id: Seq<char>, limit: nat) -> Seq<EventModel>
    decreases limit,
{
    if limit == 0 {
        Seq::empty()
    } else {
        match last_position(events, id) {
            None => Seq::empty(),
            Some(i) => {
                let event = events[i];
                if event.caused_by.len() == 0 {
                    seq![event]
                } else {
                    seq![event] + causes(events, event.caused_by[0], (limit - 1) as nat)
                }
            },
        }
    }
}

/// The identifier of the root, followed by those of the events found from it.
pub open spec fn reached(root: Seq<char>, found: Seq<EventModel>) -> Seq<Seq<char>> {
    seq![root] + found.map_values(|e: EventModel| e.id)
}

/// The events found are those that the root brought about, directly or through
/// others, in breadth-first order: `by[i]` is the place among the reached identifiers
/// of the one that led to the `i`-th event, and `at[i]` its position in the log.
pub open spec fn breadth_first(
    events: Seq<EventModel>,
    root: Seq<char>,
    found: Seq<EventModel>,
    by: Seq<int>,
    at: Seq<int>,
) -> bool {
    let ids = reached(root, found);
    &&& by.len() == found.len()
    &&& at.len() == found.len()
    &&& ids.no_duplicates()
    &&& forall|i: int| 0 <= i < found.len() ==> found_at(events, ids, found, #[trigger] by[i], at[i], i)
    &&& forall|i: int, j: int|
        0 <= i < j < found.len() ==> #[trigger] by[i] < #[trigger] by[j] || (by[i] == by[j] && at[i] < at[j])
    &&& forall|p: int, k: int|
        0 <= p < events.len() && 0 <= k < ids.len() && caused(#[trigger] events[p], #[trigger] ids[k])
            ==> ids.contains(events[p].id)
}

/// The `i`-th event found stands at position `a` of the log and was brought about by
/// the identifier at place `b`; no event with the same identifier was brought about by an
/// earlier one, and none before it in the log by the same one.
pub open spec fn found_at(
    events: Seq<EventModel>,
    ids: Seq<Seq<char>>,
    found: Seq<EventModel>,
    b: int,
    a: int,
    i: int,
) -> bool {
    &&& 0 <= a < events.len()
    &&& found[i] == events[a]
    &&& 0 <= b <= i
    &&& caused(found[i], ids[b])
    &&& forall|p: int, k: int|
        0 <= p < events.len() && 0 <= k < b && (#[trigger] events[p]).id == found[i].id ==> !caused(events[p], #[trigger] ids[k])
    &&& forall|p: int| 0 <= p < a && caused(#[trigger] events[p], ids[b]) ==> events[p].id != found[i].id
}

/// The events found are all those that the root brought about, in breadth-first order.
pub open spec fn descendants(events: Seq<EventModel>, root: Seq<char>, found: Seq<EventModel>) -> bool {
    exists|by: Seq<int>, at: Seq<int>| #[trigger] breadth_first(events, root, found, by, at)
}

/// Positions listed under identifiers.
pub open spec fn positions(table: Map<Seq<char>, Vec<usize>>, id: Seq<char>) -> Seq<usize> {
    if table.contains_key(id) {
        table[id]@
    } else {
        Seq::empty()
    }
}

/// The list rises strictly and stays below the bound.
pub open spec fn rising(list: Seq<usize>, bound: int) -> bool {
    &&& forall|i: int, j: int| 0 <= i < j < list.len() ==> #[trigger] list[i] < #[trigger] list[j]
    &&& forall|i: int| 0 <= i < list.len() ==> #[trigger] list[i] < bound
}

/// The append-only log of events.
pub struct EventLog {
    pub events: Vec<Event>,
    /// The position of the last event with an identifier.
    pub index: StringHashMap<usize>,
    /// The positions of the events of a cascade.
    pub cascade_index: Table<Vec<usize>>,
    /// The positions of the events that name an identifier as a cause.
    pub children_index: Table<Vec<usize>>,
    pub config: EventLogConfig,
    pub total_appended: u64,
    /// The identifiers of the events that compactions removed.
    pub forgotten: StringHashMap<bool>,
}

impl View for EventLog {
    type V = LogModel;

    open spec fn view(&self) -> LogModel {
        LogModel {
            events: event_models(self.events@),
            total_appended: self.total_appended as nat,
            config: self.config,
            forgotten: self.forgotten@.dom(),
        }
    }
}

fn note(table: &mut Table<Vec<usize>>, id: &Id, at: usize)
    requires
        old(table).wf(),
        rising(positions(old(table)@, id@), at as int + 1),
    ensures
        final(table).wf(),
        forall|t: Seq<char>| t != id@ ==> #[trigger] positions(final(table)@, t) == positions(old(table)@, t),
        rising(positions(final(table)@, id@), at as int + 1),
        forall|p: usize| #[trigger]
            positions(final(table)@, id@).contains(p) <==> positions(old(table)@, id@).contains(p) || p == at,
{
    let ghost before = positions(table@, id@);
    match table.slot(id) {
        Some(slot) => {
            let list = &table.entries[slot].value;
            let n: usize = list.len();
            if n > 0 && list[n - 1] == at {
                assert(before[n - 1] == at);
                assert(before.contains(at));
                return;
            }
            proof {
                assert forall|i: int| 0 <= i < before.len() implies #[trigger] before[i] < at by {
                    if i < n - 1 {
                        assert(before[i] < before[n - 1]);
                    }
                }
            }
            let list = table.at_mut(slot);
            list.push(at);
            proof {
                let after = positions(table@, id@);
                assert(after == before.push(at));
                assert forall|p: usize| #[trigger] after.contains(p) <==> before.contains(p) || p == at by {
                    if before.contains(p) {
                        assert(after[before.index_of(p)] == p);
                    }
                    assert(after[before.len() as int] == at);
                }
            }
        },
        None => {
            let mut list: Vec<usize> = Vec::new();
            list.push(at);
            table.insert(id.clone(), list);
            proof {
                let after = positions(table@, id@);
                assert(after == seq![at]);
                assert(after[0] == at);
            }
        },
    }
}

fn forget(forgotten: &mut StringHashMap<bool>, events: &Vec<Event>)
    ensures
        final(forgotten)@.dom() == old(forgotten)@.dom().union(identifiers(event_models(events@))),
{
    let ghost before = forgotten@.dom();
    let ghost all = event_models(events@).map_values(|e: EventModel| e.id);
    let mut i: usize = 0;
    assert(before.union(all.take(0).to_set()) =~= before);
    while i < events.len()
        invariant
            i <= events@.len(),
            all == event_models(events@).map_values(|e: EventModel| e.id),
            forgotten@.dom() == before.union(all.take(i as int).to_set()),
        decreases events@.len() - i,
    {
        forgotten.insert(events[i].id.text.clone(), true);
        proof {
            let shorter = all.take(i as int);
            let longer = all.take(i + 1);
            assert(longer =~= shorter.push(all[i as int]));
            assert forall|t: Seq<char>| #[trigger] longer.contains(t) <==> shorter.contains(t) || t == all[i as int] by {
                if shorter.contains(t) {
                    assert(longer[shorter.index_of(t)] == t);
                }
                assert(longer[i as int] == all[i as int]);
            }
            assert(forgotten@.dom() =~= before.union(longer.to_set()));
        }
        i += 1;
    }
    assert(all.take(all.len() as int) =~= all);
}

impl EventLog {
    /// The index leads to the last event with each identifier, and the two lists of
    /// positions name exactly the events of each cascade and of each cause, in order.
    pub open spec fn inv(&self) -> bool {
        &&& self.cascade_index.wf()
        &&& self.children_index.wf()
        &&& forall|t: Seq<char>| #[trigger] self.index_holds(t)
        &&& forall|t: Seq<char>| #[trigger] self.cascade_holds(t)
        &&& forall|t: Seq<char>| #[trigger] self.children_hold(t)
    }

    pub open spec fn index_holds(&self, t: Seq<char>) -> bool {
        match last_position(self@.events, t) {
            Some(i) => self.index@.contains_key(t) && self.index@[t] == i,
            None => !self.index@.contains_key(t),
        }
    }

    pub open spec fn cascade_holds(&self, t: Seq<char>) -> bool {
        let list = positions(self.cascade_index@, t);
        &&& rising(list, self.events@.len() as int)
        &&& forall|p: usize| #[trigger]
            list.contains(p) <==> p < self.events@.len() && self@.events[p as int].cascade_id == t
    }

    pub open spec fn children_hold(&self, t: Seq<char>) -> bool {
        let list = positions(self.children_index@, t);
        &&& rising(list, self.events@.len() as int)
        &&& forall|p: usize| #[trigger]
            list.contains(p) <==> p < self.events@.len() && caused(self@.events[p as int], t)
    }

    /// An empty log without a limit.
    pub fn new() -> (r: Self)
        ensures
            r.inv(),
            r@.events == Seq::<EventModel>::empty(),
            r@.total_appended == 0,
            r@.config.max_events == usize::MAX,
            r@.config.compact_fraction.bits == ONE_FIFTH,
            r@.forgotten == Set::<Seq<char>>::empty(),
    {
        EventLog::with_config(EventLogConfig::default())
    }

    /// An empty log with the given limits.
    pub fn with_config(config: EventLogConfig) -> (r: Self)
        ensures
            r.inv(),
            r@.events == Seq::<EventModel>::empty(),
            r@.total_appended == 0,
            r@.config == config,
            r@.forgotten == Set::<Seq<char>>::empty(),
    {
        let r = EventLog {
            events: Vec::new(),
            index: StringHashMap::new(),
            cascade_index: Table::new(),
            children_index: Table::new(),
            config,
            total_appended: 0,
            forgotten: StringHashMap::new(),
        };
        assert(r@.events =~= Seq::<EventModel>::empty());
        assert(r@.forgotten =~= Set::<Seq<char>>::empty());
        r
    }

    /// Changes the limits.
    pub fn set_config(&mut self, config: EventLogConfig)
        requires
            old(self).inv(),
        ensures
            final(self).inv(),
            final(self)@ == (LogModel { config, ..old(self)@ }),
    {
        let ghost before = *self;
        self.config = config;
        proof {
            assert(self@.events == before@.events);
            assert forall|t: Seq<char>| #[trigger] self.index_holds(t) by {
                assert(before.index_holds(t));
            }
            assert forall|t: Seq<char>| #[trigger] self.cascade_holds(t) by {
                assert(before.cascade_holds(t));
            }
            assert forall|t: Seq<char>| #[trigger] self.children_hold(t) by {
                assert(before.children_hold(t));
            }
        }
    }

    /// Appends an event.
    pub fn append(&mut self, event: Event)
        requires
            old(self).inv(),
        ensures
            final(self).inv(),
            final(self)@ == (LogModel {
                events: old(self)@.events.push(event@),
                total_appended: counted(old(self)@.total_appended + 1),
                ..old(self)@
            }),
    {
        let ghost before = *self;
        let ghost model = event@;
        let at: usize = self.events.len();
        let ghost grown = before@.events.push(model);
        self.index.insert(event.id.text.clone(), at);
        proof {
            assert(before.cascade_holds(event.cascade_id@));
        }
        note(&mut self.cascade_index, &event.cascade_id, at);
        let mut i: usize = 0;
        proof {
            assert forall|t: Seq<char>| partly_noted(before, positions(self.children_index@, t), model.caused_by, 0, at, t) by {
                assert(before.children_hold(t));
            }
        }
        while i < event.caused_by.len()
            invariant
                i <= event.caused_by@.len(),
                at == before.events@.len(),
                event@ == model,
                before.inv(),
                self.children_index.wf(),
                self.events == before.events,
                self.config == before.config,
                self.total_appended == before.total_appended,
                self.forgotten == before.forgotten,
                self.index@ == before.index@.insert(model.id, at),
                self.cascade_index.wf(),
                forall|t: Seq<char>| t != model.cascade_id ==> #[trigger] positions(self.cascade_index@, t) == positions(before.cascade_index@, t),
                rising(positions(self.cascade_index@, model.cascade_id), at as int + 1),
                forall|p: usize| #[trigger]
                    positions(self.cascade_index@, model.cascade_id).contains(p) <==> positions(before.cascade_index@, model.cascade_id).contains(p) || p == at,
                forall|t: Seq<char>| #[trigger] partly_noted(before, positions(self.children_index@, t), model.caused_by, i as int, at, t),
            decreases event.caused_by@.len() - i,
        {
            let ghost c = event.caused_by@[i as int]@;
            let ghost children = self.children_index@;
            proof {
                assert(model.caused_by[i as int] == c);
                assert(partly_noted(before, positions(children, c), model.caused_by, i as int, at, c));
            }
            note(&mut self.children_index, &event.caused_by[i], at);
            proof {
                assert forall|t: Seq<char>| #[trigger] partly_noted(
                    before,
                    positions(self.children_index@, t),
                    model.caused_by,
                    i as int + 1,
                    at,
                    t,
                ) by {
                    assert(partly_noted(before, positions(children, t), model.caused_by, i as int, at, t));
                }
            }
            i += 1;
        }
        self.events.push(event);
        self.total_appended = self.total_appended.saturating_add(1);
        proof {
            assert(self@.events =~= grown);
            assert(grown.drop_last() =~= before@.events);
            assert forall|t: Seq<char>| #[trigger] self.index_holds(t) by {
                assert(before.index_holds(t));
                assert(last_position(grown, t) == if t == model.id { Some(at as int) } else { last_position(before@.events, t) });
                if t != model.id {
                    assert(self.index@.contains_key(t) == before.index@.contains_key(t));
                }
            }
            assert forall|t: Seq<char>| #[trigger] self.cascade_holds(t) by {
                assert(before.cascade_holds(t));
                let list = positions(self.cascade_index@, t);
                assert forall|p: usize| #[trigger] list.contains(p) <==> p < self.events@.len() && self@.events[p as int].cascade_id == t by {
                    if t == model.cascade_id {
                        assert(list.contains(p) <==> positions(before.cascade_index@, t).contains(p) || p == at);
                    } else {
                        assert(list == positions(before.cascade_index@, t));
                    }
                }
            }
            assert forall|t: Seq<char>| #[trigger] self.children_hold(t) by {
                assert(before.children_hold(t));
                let list = positions(self.children_index@, t);
                assert(partly_noted(before, list, model.caused_by, model.caused_by.len() as int, at, t));
                assert forall|p: usize| #[trigger] list.contains(p) <==> p < self.events@.len() && caused(self@.events[p as int], t) by {
                    if p == at {
                        if caused(model, t) {
                            let k = model.caused_by.index_of(t);
                            assert(model.caused_by[k] == t);
                        }
                    }
                }
            }
        }
    }

    /// How many events were ever appended. Those that a compaction keeps count once.
    pub fn total_appended(&self) -> (r: u64)
        ensures
            r == self@.total_appended,
    {
        self.total_appended
    }

    /// The event with the identifier; of several, the one appended last.
    pub fn get(&self, id: &EventId) -> (r: Option<&Event>)
        requires
            self.inv(),
        ensures
            match (r, last_position(self@.events, id@)) {
                (Some(e), Some(i)) => e@ == self@.events[i],
                (None, None) => true,
                _ => false,
            },
    {
        match self.index.get(id.as_str()) {
            Some(at) => {
                proof {
                    assert(self.index_holds(id@));
                    last_position_bounds(self@.events, id@);
                }
                Some(&self.events[*at])
            },
            None => {
                assert(self.index_holds(id@));
                None
            },
        }
    }

    /// The events of a cascade, in order.
    pub fn cascade_events(&self, cascade_id: &CascadeId) -> (r: Vec<&Event>)
        requires
            self.inv(),
        ensures
            borrowed_models(r@) == in_cascade(self@.events, cascade_id@),
    {
        let mut r: Vec<&Event> = Vec::new();
        assert(self.events.len() <= usize::MAX);
        if let Some(list) = self.cascade_index.get(cascade_id) {
            let ghost all = positions(self.cascade_index@, cascade_id@);
            proof {
                assert(self.cascade_holds(cascade_id@));
            }
            let mut i: usize = 0;
            while i < list.len()
                invariant
                    i <= list@.len(),
                    list@ == all,
                    r@.len() == i,
                    rising(all, self.events@.len() as int),
                    forall|j: int| 0 <= j < i ==> *(#[trigger] r@[j]) == self.events@[all[j] as int],
                decreases list@.len() - i,
            {
                r.push(&self.events[list[i]]);
                i += 1;
            }
            proof {
                filter_by_positions(self@.events, |e: EventModel| e.cascade_id == cascade_id@, all, borrowed_models(r@));
            }
        } else {
            proof {
                assert(self.cascade_holds(cascade_id@));
                let all = positions(self.cascade_index@, cascade_id@);
                filter_by_positions(self@.events, |e: EventModel| e.cascade_id == cascade_id@, all, borrowed_models(r@));
            }
        }
        r
    }

    /// The number of events of a cascade.
    pub fn cascade_size(&self, cascade_id: &CascadeId) -> (r: usize)
        requires
            self.inv(),
        ensures
            r == in_cascade(self@.events, cascade_id@).len(),
    {
        let events = self.cascade_events(cascade_id);
        assert(borrowed_models(events@).len() == events@.len());
        events.len()
    }
}

spec fn partly_noted(
    before: EventLog,
    list: Seq<usize>,
    causes: Seq<Seq<char>>,
    n: int,
    at: usize,
    t: Seq<char>,
) -> bool {
    &&& rising(list, at as int + 1)
    &&& forall|p: usize| #[trigger]
        list.contains(p) <==> (p < at && caused(before@.events[p as int], t)) || (p == at && exists|k: int|
            0 <= k < n && #[trigger] causes[k] == t)
}

/// The position found is that of the last event with the identifier, if there is any.
pub proof fn last_position_bounds(events: Seq<EventModel>, id: Seq<char>)
    ensures
        match last_position(events, id) {
            Some(i) => 0 <= i < events.len() && events[i].id == id && forall|j: int|
                i < j < events.len() ==> (#[trigger] events[j]).id != id,
            None => forall|j: int| 0 <= j < events.len() ==> (#[trigger] events[j]).id != id,
        },
    decreases events.len(),
{
    if events.len() > 0 && events.last().id != id {
        last_position_bounds(events.drop_last(), id);
        let shorter = events.drop_last();
        assert forall|j: int| 0 <= j < events.len() - 1 implies #[trigger] events[j] == shorter[j] by {
        }
    }
}

proof fn filter_by_positions(
    events: Seq<EventModel>,
    keep: spec_fn(EventModel) -> bool,
    list: Seq<usize>,
    picked: Seq<EventModel>,
)
    requires
        rising(list, events.len() as int),
        forall|p: usize| #[trigger] list.contains(p) <==> p < events.len() && keep(events[p as int]),
        events.len() <= usize::MAX,
        picked.len() == list.len(),
        forall|i: int| 0 <= i < list.len() ==> #[trigger] picked[i] == events[list[i] as int],
    ensures
        picked == events.filter(keep),
    decreases events.len(),
{
    reveal(Seq::filter);
    if events.len() == 0 {
        if list.len() > 0 {
            assert(list[0] < 0);
        }
        assert(picked =~= events.filter(keep));
    } else {
        let shorter = events.drop_last();
        let last = (events.len() - 1) as usize;
        if keep(events.last()) {
            assert(list.contains(last));
            let k = list.index_of(last);
            if k < list.len() - 1 {
                assert(list[k] < list[list.len() - 1]);
            }
            let fewer = list.drop_last();
            assert forall|p: usize| #[trigger] fewer.contains(p) <==> p < shorter.len() && keep(shorter[p as int]) by {
                if fewer.contains(p) {
                    let j = fewer.index_of(p);
                    assert(list[j] == p);
                    assert(list[j] < list[k]);
                    assert(list.contains(p));
                }
                if p < shorter.len() && keep(shorter[p as int]) {
                    assert(list.contains(p));
                    let j = list.index_of(p);
                    assert(fewer[j] == p);
                }
            }
            assert forall|i: int| 0 <= i < fewer.len() implies #[trigger] fewer[i] < shorter.len() by {
                assert(list[i] < list[k]);
            }
            filter_by_positions(shorter, keep, fewer, picked.drop_last());
            assert(picked =~= picked.drop_last().push(events.last()));
        } else {
            assert forall|i: int| 0 <= i < list.len() implies #[trigger] list[i] < shorter.len() by {
                assert(list.contains(list[i]));
            }
            assert forall|p: usize| #[trigger] list.contains(p) <==> p < shorter.len() && keep(shorter[p as int]) by {
                if list.contains(p) {
                    let j = list.index_of(p);
                    assert(list[j] == p);
                }
            }
            filter_by_positions(shorter, keep, list, picked);
        }
    }
}

/// A breadth-first search under way: everything brought about by the identifiers
/// before place `head` has been found, and by the one there what stands before
/// position `edge` of the log.
spec fn searching(
    events: Seq<EventModel>,
    root: Seq<char>,
    found: Seq<EventModel>,
    by: Seq<int>,
    at: Seq<int>,
    head: int,
    edge: int,
) -> bool {
    let ids = reached(root, found);
    &&& by.len() == found.len()
    &&& at.len() == found.len()
    &&& ids.no_duplicates()
    &&& forall|i: int| 0 <= i < found.len() ==> found_at(events, ids, found, #[trigger] by[i], at[i], i)
    &&& forall|i: int, j: int|
        0 <= i < j < found.len() ==> #[trigger] by[i] < #[trigger] by[j] || (by[i] == by[j] && at[i] < at[j])
    &&& forall|i: int| 0 <= i < found.len() ==> #[trigger] by[i] < head || (by[i] == head && at[i] < edge)
    &&& forall|p: int, k: int|
        0 <= p < events.len() && 0 <= k < head && k < ids.len() && caused(#[trigger] events[p], #[trigger] ids[k])
            ==> ids.contains(events[p].id)
    &&& 0 <= head < ids.len() ==> forall|p: int|
        0 <= p < edge && p < events.len() && caused(#[trigger] events[p], ids[head]) ==> ids.contains(events[p].id)
}

proof fn search_steps_over(
    events: Seq<EventModel>,
    root: Seq<char>,
    found: Seq<EventModel>,
    by: Seq<int>,
    at: Seq<int>,
    head: int,
    edge: int,
    next: int,
)
    requires
        searching(events, root, found, by, at, head, edge),
        edge <= next,
        0 <= head < reached(root, found).len(),
        forall|p: int|
            edge <= p < next && p < events.len() && caused(#[trigger] events[p], reached(root, found)[head])
                ==> reached(root, found).contains(events[p].id),
    ensures
        searching(events, root, found, by, at, head, next),
{
}

proof fn search_finds(
    events: Seq<EventModel>,
    root: Seq<char>,
    found: Seq<EventModel>,
    by: Seq<int>,
    at: Seq<int>,
    head: int,
    edge: int,
)
    requires
        searching(events, root, found, by, at, head, edge),
        0 <= edge < events.len(),
        0 <= head < reached(root, found).len(),
        caused(events[edge], reached(root, found)[head]),
        !reached(root, found).contains(events[edge].id),
    ensures
        searching(events, root, found.push(events[edge]), by.push(head), at.push(edge), head, edge + 1),
        reached(root, found.push(events[edge])) == reached(root, found).push(events[edge].id),
{
    let ids = reached(root, found);
    let found2 = found.push(events[edge]);
    let by2 = by.push(head);
    let at2 = at.push(edge);
    let ids2 = reached(root, found2);
    assert(ids2 =~= ids.push(events[edge].id));
    assert forall|t: Seq<char>| ids.contains(t) implies #[trigger] ids2.contains(t) by {
        assert(ids2[ids.index_of(t)] == t);
    }
    assert(ids2[ids.len() as int] == events[edge].id);
    assert forall|i: int, j: int| 0 <= i < j < ids2.len() implies ids2[i] != ids2[j] by {
        if j == ids.len() {
            assert(ids.contains(ids[i]));
        } else {
            assert(ids[i] != ids[j]);
        }
    }
    assert forall|i: int| 0 <= i < found2.len() implies found_at(events, ids2, found2, #[trigger] by2[i], at2[i], i) by {
        if i < found.len() {
            assert(found_at(events, ids, found, by[i], at[i], i));
            assert(ids2[by[i]] == ids[by[i]]);
            assert forall|p: int, k: int| 0 <= p < events.len() && 0 <= k < by[i] && (#[trigger] events[p]).id
                == found2[i].id implies !caused(events[p], #[trigger] ids2[k]) by {
                assert(ids2[k] == ids[k]);
            }
        } else {
            assert(ids2[head] == ids[head]);
            assert forall|p: int, k: int| 0 <= p < events.len() && 0 <= k < head && (#[trigger] events[p]).id
                == found2[i].id implies !caused(events[p], #[trigger] ids2[k]) by {
                assert(ids2[k] == ids[k]);
                if caused(events[p], ids[k]) {
                    assert(ids.contains(events[p].id));
                }
            }
            assert forall|p: int| 0 <= p < edge && caused(#[trigger] events[p], ids2[head]) implies events[p].id
                != found2[i].id by {
                assert(ids.contains(events[p].id));
            }
        }
    }
    assert forall|i: int, j: int| 0 <= i < j < found2.len() implies #[trigger] by2[i] < #[trigger] by2[j] || (by2[i]
        == by2[j] && at2[i] < at2[j]) by {
        if j < found.len() {
            assert(by[i] < by[j] || (by[i] == by[j] && at[i] < at[j]));
        } else {
            assert(by[i] < head || (by[i] == head && at[i] < edge));
        }
    }
    assert forall|i: int| 0 <= i < found2.len() implies #[trigger] by2[i] < head || (by2[i] == head && at2[i] < edge
        + 1) by {
        if i < found.len() {
            assert(by[i] < head || (by[i] == head && at[i] < edge));
        }
    }
    assert forall|p: int, k: int| 0 <= p < events.len() && 0 <= k < head && k < ids2.len() && caused(
        #[trigger] events[p],
        #[trigger] ids2[k],
    ) implies ids2.contains(events[p].id) by {
        assert(ids2[k] == ids[k]);
        assert(ids.contains(events[p].id));
    }
    assert forall|p: int| 0 <= p < edge + 1 && p < events.len() && caused(#[trigger] events[p], ids2[head]) implies ids2.contains(
        events[p].id,
    ) by {
        assert(ids2[head] == ids[head]);
        if p < edge {
            assert(ids.contains(events[p].id));
        }
    }
}

proof fn search_is_bounded(
    events: Seq<EventModel>,
    root: Seq<char>,
    found: Seq<EventModel>,
    by: Seq<int>,
    at: Seq<int>,
    head: int,
    edge: int,
)
    requires
        searching(events, root, found, by, at, head, edge),
    ensures
        found.len() <= events.len(),
{
    let ids = reached(root, found);
    assert forall|i: int, j: int| 0 <= i < j < at.len() implies at[i] != at[j] by {
        assert(found_at(events, ids, found, by[i], at[i], i));
        assert(found_at(events, ids, found, by[j], at[j], j));
        assert(ids[i + 1] == found[i].id);
        assert(ids[j + 1] == found[j].id);
        assert(ids[i + 1] != ids[j + 1]);
    }
    at.unique_seq_to_set();
    vstd::seq_lib::seq_to_set_is_finite(at);
    let range = vstd::set_lib::set_int_range(0, events.len() as int);
    vstd::set_lib::lemma_int_range(0, events.len() as int);
    assert(at.to_set().subset_of(range)) by {
        assert forall|x: int| at.to_set().contains(x) implies range.contains(x) by {
            let i = at.index_of(x);
            assert(found_at(events, ids, found, by[i], at[i], i));
        }
    }
    vstd::set_lib::lemma_len_subset(at.to_set(), range);
}

impl EventLog {
    /// The events that the given one brought about, directly or through others, in
    /// breadth-first order. The given event is not among them. Of an event that a compaction
    /// removed nothing is known any more; one that the log never held may still be named as a
    /// cause.
    pub fn causal_chain(&self, id: &EventId) -> (r: Vec<&Event>)
        requires
            self.inv(),
        ensures
            if self@.lost(id@) {
                r@.len() == 0
            } else {
                descendants(self@.events, id@, borrowed_models(r@))
            },
    {
        let ghost events = self@.events;
        if self.forgotten.contains_key(id.as_str()) && self.get(id).is_none() {
            return Vec::new();
        }
        let mut visited: StringHashMap<bool> = StringHashMap::new();
        visited.insert(id.text.clone(), true);
        let mut r: Vec<&Event> = Vec::new();
        let ghost mut by: Seq<int> = Seq::empty();
        let ghost mut at: Seq<int> = Seq::empty();
        let mut head: usize = 0;
        let n: usize = self.events.len();
        proof {
            assert(borrowed_models(r@) =~= Seq::<EventModel>::empty());
            assert(reached(id@, borrowed_models(r@)) =~= seq![id@]);
            assert(visited@.contains_key(id@));
            assert forall|t: Seq<char>| #[trigger] visited@.contains_key(t) <==> reached(id@, borrowed_models(r@)).contains(t) by {
                assert(seq![id@][0] == id@);
            }
        }
        let mut more: bool = true;
        while more
            invariant
                self.inv(),
                events == self@.events,
                n == events.len(),
                head <= r@.len(),
                more ==> searching(events, id@, borrowed_models(r@), by, at, head as int, 0),
                !more ==> searching(events, id@, borrowed_models(r@), by, at, r@.len() as int + 1, 0),
                !more ==> head == r@.len(),
                r@.len() <= n,
                forall|t: Seq<char>| #[trigger]
                    visited@.contains_key(t) <==> reached(id@, borrowed_models(r@)).contains(t),
            decreases n - head + (if more { 1int } else { 0int }),
        {
            proof {
                search_is_bounded(events, id@, borrowed_models(r@), by, at, head as int, 0);
            }
            let ghost current = reached(id@, borrowed_models(r@))[head as int];
            let key: &EventId = if head == 0 {
                id
            } else {
                &r[head - 1].id
            };
            assert(key@ == current);
            let ghost all = positions(self.children_index@, current);
            proof {
                assert(self.children_hold(current));
            }
            let ghost mut edge: int = 0;
            if let Some(list) = self.children_index.get(key) {
                let mut j: usize = 0;
                while j < list.len()
                    invariant
                        self.inv(),
                        events == self@.events,
                        n == events.len(),
                        n <= usize::MAX,
                        j <= list@.len(),
                        list@ == all,
                        self.children_hold(current),
                        all == positions(self.children_index@, current),
                        head <= r@.len(),
                        0 <= edge <= n,
                        j > 0 ==> edge == all[j - 1] + 1,
                        j == 0 ==> edge == 0,
                        reached(id@, borrowed_models(r@))[head as int] == current,
                        searching(events, id@, borrowed_models(r@), by, at, head as int, edge),
                        forall|t: Seq<char>| #[trigger]
                            visited@.contains_key(t) <==> reached(id@, borrowed_models(r@)).contains(t),
                    decreases list@.len() - j,
                {
                    let p: usize = list[j];
                    let ghost found = borrowed_models(r@);
                    proof {
                        assert(all[j as int] < n);
                        assert(all.contains(all[j as int]));
                        assert(caused(events[p as int], current));
                        assert forall|q: int| edge <= q < p && q < events.len() && caused(
                            #[trigger] events[q],
                            current,
                        ) implies reached(id@, found).contains(events[q].id) by {
                            assert(all.contains(q as usize));
                            let k = all.index_of(q as usize);
                            if k >= j {
                                if k > j {
                                    assert(all[j as int] < all[k]);
                                }
                            } else if k < j - 1 {
                                assert(all[k] < all[j - 1]);
                            }
                        }
                        if j > 0 {
                            assert(all[j - 1] < all[j as int]);
                        }
                        search_steps_over(events, id@, found, by, at, head as int, edge, p as int);
                    }
                    let child = &self.events[p];
                    if !visited.contains_key(child.id.as_str()) {
                        visited.insert(child.id.text.clone(), true);
                        r.push(child);
                        proof {
                            assert(borrowed_models(r@) =~= found.push(events[p as int]));
                            search_finds(events, id@, found, by, at, head as int, p as int);
                            by = by.push(head as int);
                            at = at.push(p as int);
                            let ids = reached(id@, found);
                            let t = events[p as int].id;
                            assert forall|u: Seq<char>| #[trigger] visited@.contains_key(u) <==> ids.push(t).contains(u) by {
                                if ids.contains(u) {
                                    assert(ids.push(t)[ids.index_of(u)] == u);
                                }
                                assert(ids.push(t)[ids.len() as int] == t);
                            }
                        }
                    } else {
                        proof {
                            search_steps_over(events, id@, found, by, at, head as int, p as int, p as int + 1);
                        }
                    }
                    proof {
                        edge = p as int + 1;
                    }
                    j += 1;
                }
            }
            proof {
                let found = borrowed_models(r@);
                assert forall|q: int| edge <= q < n && q < events.len() && caused(#[trigger] events[q], current) implies reached(
                    id@,
                    found,
                ).contains(events[q].id) by {
                    assert(self.events.len() <= usize::MAX);
                    assert(all.contains(q as usize));
                    let k = all.index_of(q as usize);
                    if k < all.len() - 1 {
                        assert(all[k] < all[all.len() - 1]);
                    }
                }
                search_steps_over(events, id@, found, by, at, head as int, edge, n as int);
                assert(searching(events, id@, found, by, at, head as int + 1, 0));
                search_is_bounded(events, id@, found, by, at, head as int, n as int);
            }
            if head < r.len() {
                head += 1;
            } else {
                more = false;
            }
        }
        assert(breadth_first(events, id@, borrowed_models(r@), by, at));
        r
    }

    /// The chain from the first cause to the given event, oldest first. Of several
    /// causes of an event the first is followed, as far as the log knows it; a chain
    /// that runs in a circle ends at the length of the log.
    pub fn root_cause(&self, id: &EventId) -> (r: Vec<&Event>)
        requires
            self.inv(),
        ensures
            borrowed_models(r@) == causes(self@.events, id@, self@.events.len()).reverse(),
    {
        let ghost events = self@.events;
        let n: usize = self.events.len();
        let mut chain: Vec<&Event> = Vec::new();
        let mut current: EventId = id.clone();
        let mut steps: usize = 0;
        let mut ended: bool = false;
        assert(borrowed_models(chain@) =~= Seq::<EventModel>::empty());
        assert(borrowed_models(chain@) + causes(events, current@, n as nat) =~= causes(events, id@, n as nat));
        while steps < n && !ended
            invariant
                self.inv(),
                events == self@.events,
                n == events.len(),
                steps <= n,
                !ended ==> borrowed_models(chain@) + causes(events, current@, (n - steps) as nat) == causes(
                    events,
                    id@,
                    n as nat,
                ),
                ended ==> borrowed_models(chain@) == causes(events, id@, n as nat),
            decreases n - steps + (if ended { 0int } else { 1int }),
        {
            let ghost before = borrowed_models(chain@);
            match self.get(&current) {
                None => {
                    ended = true;
                    assert(before + Seq::<EventModel>::empty() =~= before);
                },
                Some(event) => {
                    chain.push(event);
                    assert(borrowed_models(chain@) =~= before.push(event@));
                    assert(before.push(event@) =~= before + seq![event@]);
                    if event.caused_by.len() == 0 {
                        ended = true;
                    } else {
                        current = event.caused_by[0].clone();
                        steps += 1;
                        assert(event@.caused_by[0] == current@);
                        assert((before + seq![event@]) + causes(events, current@, (n - steps) as nat) =~= before + (
                        seq![event@] + causes(events, current@, (n - steps) as nat)));
                    }
                },
            }
        }
        assert(borrowed_models(chain@) + Seq::<EventModel>::empty() =~= borrowed_models(chain@));
        let mut r: Vec<&Event> = Vec::new();
        let ghost whole = borrowed_models(chain@);
        let mut i: usize = chain.len();
        while i > 0
            invariant
                i <= chain@.len(),
                r@.len() == chain@.len() - i,
                forall|j: int| 0 <= j < r@.len() ==> #[trigger] r@[j] == chain@[chain@.len() - 1 - j],
            decreases i,
        {
            i -= 1;
            r.push(chain[i]);
        }
        assert(borrowed_models(r@) =~= whole.reverse());
        r
    }

    /// The number of events in the log.
    pub fn len(&self) -> (r: usize)
        ensures
            r == self@.events.len(),
    {
        self.events.len()
    }

    /// Whether the log holds no events.
    pub fn is_empty(&self) -> (r: bool)
        ensures
            r == (self@.events.len() == 0),
    {
        self.events.len() == 0
    }

    /// The events in order.
    pub fn iter(&self) -> (r: Vec<&Event>)
        ensures
            borrowed_models(r@) == self@.events,
    {
        let mut r: Vec<&Event> = Vec::new();
        let mut i: usize = 0;
        while i < self.events.len()
            invariant
                i <= self.events@.len(),
                r@.len() == i,
                forall|j: int| 0 <= j < i ==> *(#[trigger] r@[j]) == self.events@[j],
            decreases self.events@.len() - i,
        {
            r.push(&self.events[i]);
            i += 1;
        }
        assert(borrowed_models(r@) =~= self@.events);
        r
    }

    /// The events in order, most recent first.
    pub fn iter_rev(&self) -> (r: Vec<&Event>)
        ensures
            borrowed_models(r@) == self@.events.reverse(),
    {
        let mut r: Vec<&Event> = Vec::new();
        let mut i: usize = self.events.len();
        while i > 0
            invariant
                i <= self.events@.len(),
                r@.len() == self.events@.len() - i,
                forall|j: int| 0 <= j < r@.len() ==> *(#[trigger] r@[j]) == self.events@[self.events@.len() - 1 - j],
            decreases i,
        {
            i -= 1;
            r.push(&self.events[i]);
        }
        assert(borrowed_models(r@) =~= self@.events.reverse());
        r
    }

    /// Removes the given event and all before it; says how many were removed. Where the log
    /// does not hold the event, nothing is removed.
    pub fn compact(&mut self, up_to_inclusive: &EventId) -> (r: usize)
        requires
            old(self).inv(),
        ensures
            final(self).inv(),
            final(self)@ == compacted(old(self)@, up_to_inclusive@),
            r == old(self)@.events.len() - final(self)@.events.len(),
    {
        let ghost before = self@;
        proof {
            assert(self.index_holds(up_to_inclusive@));
            last_position_bounds(self@.events, up_to_inclusive@);
        }
        let cutoff: usize = match self.index.get(up_to_inclusive.as_str()) {
            Some(at) => *at,
            None => {
                return 0;
            },
        };
        assert(cutoff < self.events.len());
        let total: u64 = self.total_appended;
        let kept: Vec<Event> = self.events.split_off(cutoff + 1);
        let removed: usize = self.events.len();
        let ghost rest = event_models(kept@);
        assert(rest =~= before.events.skip(cutoff + 1));
        assert(event_models(self.events@) =~= before.events.take(cutoff + 1));
        forget(&mut self.forgotten, &self.events);
        let ghost forgotten = self@.forgotten;
        self.events.clear();
        self.index.clear();
        self.cascade_index = Table::new();
        self.children_index = Table::new();
        let mut reversed: Vec<Event> = Vec::new();
        let mut source: Vec<Event> = kept;
        let ghost all = source@;
        assert(all.take(source@.len() as int) =~= all);
        while source.len() > 0
            invariant
                source@.len() + reversed@.len() == all.len(),
                source@ == all.take(source@.len() as int),
                forall|i: int| 0 <= i < reversed@.len() ==> #[trigger] reversed@[i] == all[all.len() - 1 - i],
            decreases source@.len(),
        {
            let ghost m = source@.len() as int;
            let event = source.pop().unwrap();
            assert(all.take(m).subrange(0, m - 1) =~= all.take(m - 1));
            reversed.push(event);
        }
        proof {
            assert(self@.events =~= Seq::<EventModel>::empty());
            assert forall|t: Seq<char>| #[trigger] self.cascade_holds(t) by {
            }
            assert forall|t: Seq<char>| #[trigger] self.children_hold(t) by {
            }
            assert(rest.take(0) =~= Seq::<EventModel>::empty());
        }
        while reversed.len() > 0
            invariant
                self.inv(),
                reversed@.len() <= all.len(),
                rest == event_models(all),
                all.len() <= before.events.len(),
                forall|i: int| 0 <= i < reversed@.len() ==> #[trigger] reversed@[i] == all[all.len() - 1 - i],
                self@.events == rest.take(all.len() - reversed@.len()),
                self@.config == before.config,
                self@.forgotten == forgotten,
            decreases reversed@.len(),
        {
            let ghost done = all.len() - reversed@.len();
            let event = reversed.pop().unwrap();
            self.append(event);
            assert(rest.take(done + 1) =~= rest.take(done).push(rest[done]));
        }
        assert(rest.take(all.len() as int) =~= rest);
        let ghost whole = *self;
        self.total_appended = total;
        proof {
            assert forall|t: Seq<char>| #[trigger] self.index_holds(t) by {
                assert(whole.index_holds(t));
            }
            assert forall|t: Seq<char>| #[trigger] self.cascade_holds(t) by {
                assert(whole.cascade_holds(t));
            }
            assert forall|t: Seq<char>| #[trigger] self.children_hold(t) by {
                assert(whole.children_hold(t));
            }
        }
        removed
    }

    /// Compacts a log that holds more events than its limit: the configured fraction of the
    /// events is removed, at least one, and at least one is kept. Says how many events were
    /// removed.
    pub fn auto_compact(&mut self) -> (r: usize)
        requires
            old(self).inv(),
        ensures
            final(self).inv(),
            final(self)@ == auto_compacted(old(self)@),
            r == old(self)@.events.len() - final(self)@.events.len(),
    {
        if self.events.len() <= self.config.max_events {
            return 0;
        }
        let share: u64 = Number::from_nat(self.events.len() as u64).times(self.config.compact_fraction).truncate();
        let share: usize = if share > usize::MAX as u64 {
            usize::MAX
        } else {
            share as usize
        };
        let at_least: usize = if share < 1 {
            1
        } else {
            share
        };
        let count: usize = if at_least < self.events.len() - 1 {
            at_least
        } else {
            self.events.len() - 1
        };
        if count == 0 {
            return 0;
        }
        let cutoff = self.events[count - 1].id.clone();
        self.compact(&cutoff)
    }
}

/// The log without the given event and those before it, if it holds the event.
pub open spec fn compacted(log: LogModel, id: Seq<char>) -> LogModel {
    match last_position(log.events, id) {
        None => log,
        Some(i) => LogModel {
            events: log.events.skip(i + 1),
            forgotten: log.forgotten.union(identifiers(log.events.take(i + 1))),
            ..log
        },
    }
}

/// The log after compaction to its limit: unchanged while it is within the limit, else
/// without the configured fraction of its oldest events, at least one and not all of them.
pub open spec fn auto_compacted(log: LogModel) -> LogModel {
    if log.events.len() <= log.config.max_events {
        log
    } else {
        let share = Number::nearest(log.events.len()).product(log.config.compact_fraction).truncated();
        let at_least: nat = if share < 1 {
            1
        } else {
            share
        };
        let count: nat = if at_least < log.events.len() - 1 {
            at_least
        } else {
            (log.events.len() - 1) as nat
        };
        if count == 0 {
            log
        } else {
            compacted(log, log.events[count - 1].id)
        }
    }
}

impl Default for EventLog {
    fn default() -> (r: Self)
        ensures
            r.inv(),
            r@.events == Seq::<EventModel>::empty(),
            r@.total_appended == 0,
            r@.config.max_events == usize::MAX,
            r@.config.compact_fraction.bits == ONE_FIFTH,
            r@.forgotten == Set::<Seq<char>>::empty(),
    {
        EventLog::new()
    }
}

/// The events that one brought about do not depend on the way they are found: both
/// lists of descendants are the same.
pub proof fn law_descendants_are_unique(
    events: Seq<EventModel>,
    root: Seq<char>,
    one: Seq<EventModel>,
    other: Seq<EventModel>,
)
    requires
        descendants(events, root, one),
        descendants(events, root, other),
    ensures
        one == other,
{
    let (by1, at1): (Seq<int>, Seq<int>) = choose|by: Seq<int>, at: Seq<int>| #[trigger]
        breadth_first(events, root, one, by, at);
    let (by2, at2): (Seq<int>, Seq<int>) = choose|by: Seq<int>, at: Seq<int>| #[trigger]
        breadth_first(events, root, other, by, at);
    common_prefix(events, root, one, by1, at1, other, by2, at2, one.len());
    common_prefix(events, root, other, by2, at2, one, by1, at1, other.len());
    assert(one =~= other);
}

proof fn common_prefix(
    events: Seq<EventModel>,
    root: Seq<char>,
    one: Seq<EventModel>,
    by1: Seq<int>,
    at1: Seq<int>,
    other: Seq<EventModel>,
    by2: Seq<int>,
    at2: Seq<int>,
    n: nat,
)
    requires
        breadth_first(events, root, one, by1, at1),
        breadth_first(events, root, other, by2, at2),
        n <= one.len(),
    ensures
        n <= other.len(),
        forall|i: int| 0 <= i < n ==> by1[i] == by2[i] && at1[i] == at2[i] && #[trigger] one[i] == other[i],
    decreases n,
{
    if n > 0 {
        let m = n - 1;
        common_prefix(events, root, one, by1, at1, other, by2, at2, m as nat);
        let ids1 = reached(root, one);
        let ids2 = reached(root, other);
        assert forall|k: int| 0 <= k <= m implies #[trigger] ids1[k] == ids2[k] by {
            if k > 0 {
                assert(one[k - 1] == other[k - 1]);
            }
        }
        assert(found_at(events, ids1, one, by1[m], at1[m], m));
        // What the first list finds next, the second finds too, and no later.
        assert(caused(events[at1[m]], ids2[by1[m]]));
        assert(ids2.contains(events[at1[m]].id));
        let x = ids2.index_of(events[at1[m]].id);
        assert(ids1[m + 1] == one[m].id);
        if x <= m {
            assert(ids1[x] == ids2[x]);
            assert(ids1[x] != ids1[m + 1]);
        }
        assert(x > m);
        let j = x - 1;
        assert(ids2[x] == other[j].id);
        assert(m < other.len());
        assert(found_at(events, ids2, other, by2[m], at2[m], m));
        assert(found_at(events, ids2, other, by2[j], at2[j], j));
        // And what the second finds next, the first finds, and no later.
        assert(caused(events[at2[m]], ids1[by2[m]]));
        assert(ids1.contains(events[at2[m]].id));
        let y = ids1.index_of(events[at2[m]].id);
        assert(ids2[m + 1] == other[m].id);
        if y <= m {
            assert(ids1[y] == ids2[y]);
            assert(ids2[y] != ids2[m + 1]);
        }
        let k = y - 1;
        assert(ids1[y] == one[k].id);
        assert(found_at(events, ids1, one, by1[k], at1[k], k));
        // The place that led to it is the same, since it is the earliest.
        if j > m {
            assert(by2[m] < by2[j] || (by2[m] == by2[j] && at2[m] < at2[j]));
        }
        if k > m {
            assert(by1[m] < by1[k] || (by1[m] == by1[k] && at1[m] < at1[k]));
        }
        earliest_cause(events, root, other, by2, at2, j, at1[m], by1[m]);
        earliest_cause(events, root, one, by1, at1, k, at2[m], by2[m]);
    }
}

/// An event that an identifier reached brought about was found from it or from an
/// earlier one, at its position or before.
proof fn earliest_cause(
    events: Seq<EventModel>,
    root: Seq<char>,
    found: Seq<EventModel>,
    by: Seq<int>,
    at: Seq<int>,
    j: int,
    p: int,
    b: int,
)
    requires
        breadth_first(events, root, found, by, at),
        0 <= j < found.len(),
        0 <= p < events.len(),
        events[p].id == found[j].id,
        0 <= b < reached(root, found).len(),
        caused(events[p], reached(root, found)[b]),
    ensures
        by[j] < b || (by[j] == b && at[j] <= p),
{
    let ids = reached(root, found);
    assert(found_at(events, ids, found, by[j], at[j], j));
    if b < by[j] {
        assert(!caused(events[p], ids[b]));
    }
}

/// The identifiers that the chain of causes goes through.
spec fn cause_ids(events: Seq<EventModel>, id: Seq<char>, limit: nat) -> Seq<Seq<char>>
    decreases limit,
{
    if limit == 0 {
        Seq::empty()
    } else {
        match last_position(events, id) {
            None => Seq::empty(),
            Some(i) => {
                let event = events[i];
                if event.caused_by.len() == 0 {
                    seq![id]
                } else {
                    seq![id] + cause_ids(events, event.caused_by[0], (limit - 1) as nat)
                }
            },
        }
    }
}

proof fn chain_is_stable(events: Seq<EventModel>, id: Seq<char>, limit: nat, more: nat)
    requires
        causes(events, id, limit).len() < limit <= more,
    ensures
        causes(events, id, more) == causes(events, id, limit),
    decreases limit,
{
    if let Some(i) = last_position(events, id) {
        if events[i].caused_by.len() > 0 {
            chain_is_stable(events, events[i].caused_by[0], (limit - 1) as nat, (more - 1) as nat);
        }
    }
}

proof fn chain_from(events: Seq<EventModel>, id: Seq<char>, limit: nat, i: nat)
    requires
        i < causes(events, id, limit).len(),
    ensures
        cause_ids(events, id, limit).len() == causes(events, id, limit).len() <= limit,
        last_position(events, cause_ids(events, id, limit)[i as int]) is Some,
        causes(events, cause_ids(events, id, limit)[i as int], (limit - i) as nat).len() == causes(
            events,
            id,
            limit,
        ).len() - i,
    decreases limit,
{
    let at = last_position(events, id)->0;
    let event = events[at];
    if event.caused_by.len() > 0 {
        let rest = causes(events, event.caused_by[0], (limit - 1) as nat);
        if rest.len() > 0 {
            chain_from(
                events,
                event.caused_by[0],
                (limit - 1) as nat,
                if i > 0 {
                    (i - 1) as nat
                } else {
                    0
                },
            );
        } else {
            assert(cause_ids(events, event.caused_by[0], (limit - 1) as nat).len() == 0);
        }
    }
}

proof fn same_start_same_chain(events: Seq<EventModel>, one: Seq<char>, other: Seq<char>, limit: nat)
    requires
        last_position(events, one) == last_position(events, other),
    ensures
        causes(events, one, limit) == causes(events, other, limit),
{
}

/// A chain of causes that comes to an end is followed to its end: it goes through no event
/// twice, so the length of the log is enough.
pub proof fn law_causes_are_followed_to_the_end(events: Seq<EventModel>, id: Seq<char>, limit: nat)
    requires
        causes(events, id, limit).len() < limit,
    ensures
        causes(events, id, events.len()) == causes(events, id, limit),
{
    let chain = causes(events, id, limit);
    let ids = cause_ids(events, id, limit);
    let k = chain.len();
    if limit <= events.len() {
        chain_is_stable(events, id, limit, events.len());
    } else {
        let places = Seq::new(k, |i: int| last_position(events, ids[i])->0);
        assert forall|i: int| 0 <= i < k implies 0 <= #[trigger] places[i] < events.len() by {
            chain_from(events, id, limit, i as nat);
            last_position_bounds(events, ids[i]);
        }
        assert forall|i: int, j: int| 0 <= i < j < k implies places[i] != places[j] by {
            chain_from(events, id, limit, i as nat);
            chain_from(events, id, limit, j as nat);
            if places[i] == places[j] {
                same_start_same_chain(events, ids[i], ids[j], (limit - i) as nat);
                chain_is_stable(events, ids[j], (limit - j) as nat, (limit - i) as nat);
            }
        }
        assert(places.no_duplicates());
        places.unique_seq_to_set();
        let all = vstd::set_lib::set_int_range(0, events.len() as int);
        vstd::set_lib::lemma_int_range(0, events.len() as int);
        assert forall|p: int| places.to_set().contains(p) implies all.contains(p) by {
            let i = places.index_of(p);
            assert(places[i] == p);
        }
        vstd::set_lib::lemma_len_subset(places.to_set(), all);
        assert(k <= events.len());
        shorter_limit(events, id, limit, events.len());
    }
}

proof fn shorter_limit(events: Seq<EventModel>, id: Seq<char>, limit: nat, enough: nat)
    requires
        causes(events, id, limit).len() <= enough <= limit,
    ensures
        causes(events, id, enough) == causes(events, id, limit),
    decreases limit,
{
    if enough == 0 {
        assert(causes(events, id, limit) =~= causes(events, id, 0));
    } else if let Some(i) = last_position(events, id) {
        if events[i].caused_by.len() > 0 {
            shorter_limit(events, events[i].caused_by[0], (limit - 1) as nat, (enough - 1) as nat);
        }
    }
}

/// The chain of causes of an event starts with the event; a trigger has no other cause than
/// itself.
pub proof fn law_chains_start_with_the_event(events: Seq<EventModel>, id: Seq<char>, i: int)
    requires
        last_position(events, id) == Some(i),
    ensures
        causes(events, id, events.len()).len() > 0,
        causes(events, id, events.len())[0] == events[i],
        events[i].caused_by.len() == 0 ==> causes(events, id, events.len()) == seq![events[i]],
{
    last_position_bounds(events, id);
}

/// An appended event is found under its identifier, and the others are found as before.
pub proof fn law_appended_events_are_found(events: Seq<EventModel>, event: EventModel, other: Seq<char>)
    ensures
        last_position(events.push(event), event.id) == Some(events.len() as int),
        other != event.id ==> last_position(events.push(event), other) == last_position(events, other),
{
    assert(events.push(event).drop_last() =~= events);
}

/// Compaction keeps the latest events as they are and in their order. An event that is removed
/// is not found any more, and what it brought about is lost; one that is kept is found as
/// before, and of others nothing more is lost.
pub proof fn law_compaction_keeps_the_latest(log: LogModel, id: Seq<char>, other: Seq<char>)
    ensures
        compacted(log, id).events.len() <= log.events.len(),
        compacted(log, id).events == log.events.skip(log.events.len() - compacted(log, id).events.len()),
        compacted(log, id).total_appended == log.total_appended,
        last_position(compacted(log, id).events, id) is None,
        match (last_position(log.events, id), last_position(log.events, other)) {
            (Some(i), Some(j)) => last_position(compacted(log, id).events, other) == if j <= i {
                None
            } else {
                Some(j - (i + 1))
            },
            (Some(_), None) => last_position(compacted(log, id).events, other) is None,
            _ => true,
        },
        compacted(log, id).lost(other) == (log.lost(other) || match (
            last_position(log.events, id),
            last_position(log.events, other),
        ) {
            (Some(i), Some(j)) => j <= i,
            _ => false,
        }),
{
    match last_position(log.events, id) {
        None => {
            assert(log.events.skip(0) =~= log.events);
        },
        Some(i) => {
            last_position_bounds(log.events, id);
            position_behind(log.events, id, i + 1);
            position_behind(log.events, other, i + 1);
            last_position_bounds(log.events, other);
            let removed = log.events.take(i + 1);
            let ids = removed.map_values(|e: EventModel| e.id);
            if ids.contains(other) {
                assert(log.events[ids.index_of(other)].id == other);
            }
            if let Some(j) = last_position(log.events, other) {
                if j <= i {
                    assert(ids[j] == other);
                }
            }
        },
    }
}

proof fn position_behind(events: Seq<EventModel>, id: Seq<char>, n: int)
    requires
        0 <= n <= events.len(),
    ensures
        last_position(events.skip(n), id) == match last_position(events, id) {
            Some(j) => if j < n {
                None
            } else {
                Some(j - n)
            },
            None => None,
        },
    decreases events.len(),
{
    let rest = events.skip(n);
    last_position_bounds(events, id);
    if rest.len() > 0 {
        assert(rest.last() == events.last());
        assert(rest.drop_last() =~= events.drop_last().skip(n));
        position_behind(events.drop_last(), id, n);
    }
}

} // verus!
