//! Subscriptions: which events they ask for, and in what order they are served.

use crate::event::{Event, EventKind, EventModel};
use crate::ids::{texts, SubscriptionId};
use crate::projection::{GraphModel, Projection};
use crate::text::str_same;
use vstd::prelude::*;

verus! {

/// Which events a subscription asks for.
#[derive(Debug, PartialEq)]
pub enum EventFilter {
    Any,
    NodeCreated,
    NodeUpdated,
    NodeDeleted,
    /// The creation of a node of the type.
    NodeType(String),
    /// A signal of the name.
    SignalName(String),
    /// An event whose kind has the name.
    EventKindName(String),
    /// What all the filters ask for.
    And(Vec<EventFilter>),
}

/// What a filter stands for.
pub enum FilterModel {
    Any,
    NodeCreated,
    NodeUpdated,
    NodeDeleted,
    NodeType(Seq<char>),
    SignalName(Seq<char>),
    EventKindName(Seq<char>),
    And(Seq<FilterModel>),
}

/// What the filter stands for.
pub open spec fn filter_model(filter: EventFilter) -> FilterModel
    decreases filter,
{
    match filter {
        EventFilter::Any => FilterModel::Any,
        EventFilter::NodeCreated => FilterModel::NodeCreated,
        EventFilter::NodeUpdated => FilterModel::NodeUpdated,
        EventFilter::NodeDeleted => FilterModel::NodeDeleted,
        EventFilter::NodeType(name) => FilterModel::NodeType(name@),
        EventFilter::SignalName(name) => FilterModel::SignalName(name@),
        EventFilter::EventKindName(name) => FilterModel::EventKindName(name@),
        EventFilter::And(parts) => FilterModel::And(
            Seq::new(
                parts@.len(),
                |i: int|
                    if 0 <= i < parts@.len() {
                        filter_model(parts@[i])
                    } else {
                        arbitrary()
                    },
            ),
        ),
    }
}

impl View for EventFilter {
    type V = FilterModel;

    open spec fn view(&self) -> FilterModel {
        filter_model(*self)
    }
}

/// What an optional filter stands for.
pub open spec fn opt_filter(filter: Option<EventFilter>) -> Option<FilterModel> {
    match filter {
        Some(f) => Some(f@),
        None => None,
    }
}

/// Whether a filter asks for events of a kind.
pub open spec fn passes(filter: FilterModel, kind: EventKind) -> bool
    decreases filter,
{
    match filter {
        FilterModel::Any => true,
        FilterModel::NodeCreated => kind is NodeCreated,
        FilterModel::NodeUpdated => kind is NodeUpdated,
        FilterModel::NodeDeleted => kind is NodeDeleted,
        FilterModel::NodeType(name) => match kind {
            EventKind::NodeCreated { type_id, .. } => type_id@ == name,
            _ => false,
        },
        FilterModel::SignalName(name) => match kind {
            EventKind::Signal { name: own, .. } => own@ == name,
            _ => false,
        },
        FilterModel::EventKindName(name) => kind.name() == name,
        FilterModel::And(parts) => forall|i: int| 0 <= i < parts.len() ==> passes(#[trigger] parts[i], kind),
    }
}

/// Copies a filter.
pub fn clone_filter(filter: &EventFilter) -> (r: EventFilter)
    ensures
        r@ == filter@,
    decreases filter,
{
    match filter {
        EventFilter::Any => EventFilter::Any,
        EventFilter::NodeCreated => EventFilter::NodeCreated,
        EventFilter::NodeUpdated => EventFilter::NodeUpdated,
        EventFilter::NodeDeleted => EventFilter::NodeDeleted,
        EventFilter::NodeType(name) => EventFilter::NodeType(name.clone()),
        EventFilter::SignalName(name) => EventFilter::SignalName(name.clone()),
        EventFilter::EventKindName(name) => EventFilter::EventKindName(name.clone()),
        EventFilter::And(parts) => {
            let mut copies: Vec<EventFilter> = Vec::new();
            let mut i: usize = 0;
            while i < parts.len()
                invariant
                    i <= parts@.len(),
                    copies@.len() == i,
                    *filter == EventFilter::And(*parts),
                    forall|j: int| 0 <= j < i ==> (#[trigger] copies@[j])@ == parts@[j]@,
                decreases parts@.len() - i,
            {
                assert(decreases_to!(*filter => filter->And_0));
                let copy = clone_filter(&parts[i]);
                copies.push(copy);
                i += 1;
            }
            let r = EventFilter::And(copies);
            assert(r@->And_0 =~= filter@->And_0);
            r
        },
    }
}

impl Clone for EventFilter {
    fn clone(&self) -> (r: Self)
        ensures
            r@ == self@,
    {
        clone_filter(self)
    }
}

impl EventFilter {
    /// Whether the filter asks for the event.
    pub fn matches(&self, event: &Event) -> (r: bool)
        ensures
            r == passes(self@, event.kind),
        decreases self,
    {
        match self {
            EventFilter::Any => true,
            EventFilter::NodeCreated => match &event.kind {
                EventKind::NodeCreated { .. } => true,
                _ => false,
            },
            EventFilter::NodeUpdated => match &event.kind {
                EventKind::NodeUpdated { .. } => true,
                _ => false,
            },
            EventFilter::NodeDeleted => match &event.kind {
                EventKind::NodeDeleted { .. } => true,
                _ => false,
            },
            EventFilter::NodeType(name) => match &event.kind {
                EventKind::NodeCreated { type_id, .. } => str_same(type_id.as_str(), name.as_str()),
                _ => false,
            },
            EventFilter::SignalName(name) => match &event.kind {
                EventKind::Signal { name: own, .. } => str_same(own.as_str(), name.as_str()),
                _ => false,
            },
            EventFilter::EventKindName(name) => str_same(event.kind.kind_name(), name.as_str()),
            EventFilter::And(parts) => {
                let mut i: usize = 0;
                while i < parts.len()
                    invariant
                        i <= parts@.len(),
                        *self == EventFilter::And(*parts),
                        forall|j: int| 0 <= j < i ==> passes((#[trigger] parts@[j])@, event.kind),
                    decreases parts@.len() - i,
                {
                    assert(decreases_to!(*self => self->And_0));
                    assert(self@->And_0[i as int] == parts@[i as int]@);
                    if !parts[i].matches(event) {
                        return false;
                    }
                    i += 1;
                }
                assert forall|j: int| 0 <= j < parts@.len() implies passes(#[trigger] self@->And_0[j], event.kind) by {
                    assert(self@->And_0[j] == parts@[j]@);
                }
                true
            },
        }
    }
}

/// A standing request for events.
#[derive(Debug, PartialEq)]
pub struct Subscription {
    pub id: SubscriptionId,
    pub name: String,
    pub filter: EventFilter,
    pub priority: i32,
}

/// What a subscription stands for.
pub struct SubscriptionModel {
    pub id: Seq<char>,
    pub name: Seq<char>,
    pub filter: FilterModel,
    pub priority: i32,
}

impl View for Subscription {
    type V = SubscriptionModel;

    open spec fn view(&self) -> SubscriptionModel {
        SubscriptionModel { id: self.id@, name: self.name@, filter: self.filter@, priority: self.priority }
    }
}

impl Subscription {
    /// A subscription to what the filter asks for.
    pub fn new(id: SubscriptionId, name: &str, filter: EventFilter, priority: i32) -> (r: Self)
        ensures
            r@ == (SubscriptionModel { id: id@, name: name@, filter: filter@, priority }),
    {
        Subscription { id, name: name.to_owned(), filter, priority }
    }
}

/// The subscriptions, those of higher priority first; of those with the same priority,
/// the one registered earlier first.
#[derive(Debug)]
pub struct SubscriptionRegistry {
    subscriptions: Vec<Subscription>,
}

/// What a list of subscriptions stands for.
pub open spec fn subscription_models(list: Seq<Subscription>) -> Seq<SubscriptionModel> {
    list.map_values(|s: Subscription| s@)
}

/// What a list of borrowed subscriptions stands for.
pub open spec fn borrowed_subscriptions(list: Seq<&Subscription>) -> Seq<SubscriptionModel> {
    list.map_values(|s: &Subscription| s@)
}

/// Where a subscription of the priority belongs: behind the last one that is not of lower
/// priority.
pub open spec fn place(list: Seq<SubscriptionModel>, priority: i32) -> int
    decreases list.len(),
{
    if list.len() == 0 {
        0
    } else if list.last().priority < priority {
        place(list.drop_last(), priority)
    } else {
        list.len() as int
    }
}

proof fn place_bounds(list: Seq<SubscriptionModel>, priority: i32)
    ensures
        0 <= place(list, priority) <= list.len(),
        forall|i: int| place(list, priority) <= i < list.len() ==> (#[trigger] list[i]).priority < priority,
        place(list, priority) > 0 ==> list[place(list, priority) - 1].priority >= priority,
    decreases list.len(),
{
    if list.len() > 0 && list.last().priority < priority {
        let rest = list.drop_last();
        place_bounds(rest, priority);
        assert forall|i: int| place(list, priority) <= i < list.len() implies (#[trigger] list[i]).priority
            < priority by {
            if i < rest.len() {
                assert(rest[i] == list[i]);
            }
        }
    }
}

/// The place of the first subscription with the identifier.
pub open spec fn subscription_at(list: Seq<SubscriptionModel>, id: Seq<char>) -> Option<int>
    decreases list.len(),
{
    if list.len() == 0 {
        None
    } else {
        match subscription_at(list.drop_last(), id) {
            Some(i) => Some(i),
            None => if list.last().id == id {
                Some(list.len() - 1)
            } else {
                None
            },
        }
    }
}

/// The subscriptions that ask for events of a kind, in order.
pub open spec fn asking(list: Seq<SubscriptionModel>, kind: EventKind) -> Seq<SubscriptionModel>
    decreases list.len(),
{
    if list.len() == 0 {
        Seq::empty()
    } else if passes(list.last().filter, kind) {
        asking(list.drop_last(), kind).push(list.last())
    } else {
        asking(list.drop_last(), kind)
    }
}

/// Higher priorities stand first.
pub open spec fn ranked(list: Seq<SubscriptionModel>) -> bool {
    forall|i: int, j: int| 0 <= i < j < list.len() ==> (#[trigger] list[i]).priority >= (#[trigger] list[j]).priority
}

impl View for SubscriptionRegistry {
    type V = Seq<SubscriptionModel>;

    closed spec fn view(&self) -> Seq<SubscriptionModel> {
        subscription_models(self.subscriptions@)
    }
}

proof fn subscription_at_bounds(list: Seq<SubscriptionModel>, id: Seq<char>)
    ensures
        match subscription_at(list, id) {
            Some(i) => 0 <= i < list.len() && list[i].id == id,
            None => true,
        },
    decreases list.len(),
{
    if list.len() > 0 {
        subscription_at_bounds(list.drop_last(), id);
    }
}

proof fn first_stays_first(list: Seq<SubscriptionModel>, id: Seq<char>, n: int)
    requires
        0 <= n <= list.len(),
        subscription_at(list.take(n), id) is Some,
    ensures
        subscription_at(list, id) == subscription_at(list.take(n), id),
    decreases list.len() - n,
{
    if n < list.len() {
        assert(list.take(n + 1).drop_last() =~= list.take(n));
        first_stays_first(list, id, n + 1);
    } else {
        assert(list.take(n) =~= list);
    }
}

impl SubscriptionRegistry {
    /// A registry without subscriptions.
    pub fn new() -> (r: Self)
        ensures
            r@ == Seq::<SubscriptionModel>::empty(),
    {
        let r = SubscriptionRegistry { subscriptions: Vec::new() };
        assert(r@ =~= Seq::<SubscriptionModel>::empty());
        r
    }

    /// Adds a subscription at its place.
    pub fn register(&mut self, subscription: Subscription)
        ensures
            final(self)@ == old(self)@.insert(place(old(self)@, subscription@.priority), subscription@),
    {
        let ghost before = self@;
        let ghost added = subscription@;
        let mut at: usize = self.subscriptions.len();
        assert(before.take(at as int) =~= before);
        while at > 0 && self.subscriptions[at - 1].priority < subscription.priority
            invariant
                at <= self.subscriptions@.len(),
                before == self@,
                before.len() == self.subscriptions@.len(),
                place(before, subscription.priority) == place(before.take(at as int), subscription.priority),
            decreases at,
        {
            assert(before.take(at as int).drop_last() =~= before.take(at - 1));
            assert(before.take(at as int).last() == self.subscriptions@[at - 1]@);
            at -= 1;
        }
        if at > 0 {
            assert(before.take(at as int).last() == self.subscriptions@[at - 1]@);
        }
        self.subscriptions.insert(at, subscription);
        assert(self@ =~= before.insert(at as int, added));
    }

    fn position(&self, id: &SubscriptionId) -> (r: Option<usize>)
        ensures
            match r {
                Some(i) => subscription_at(self@, id@) == Some(i as int) && i < self.subscriptions@.len(),
                None => subscription_at(self@, id@) is None,
            },
    {
        let mut i: usize = 0;
        assert(self@.take(0) =~= Seq::<SubscriptionModel>::empty());
        while i < self.subscriptions.len()
            invariant
                i <= self.subscriptions@.len(),
                subscription_at(self@.take(i as int), id@) is None,
            decreases self.subscriptions@.len() - i,
        {
            proof {
                assert(self@.take(i + 1).drop_last() =~= self@.take(i as int));
                assert(self@.take(i + 1).last() == self.subscriptions@[i as int]@);
            }
            if self.subscriptions[i].id.same(id) {
                proof {
                    first_stays_first(self@, id@, i + 1);
                }
                return Some(i);
            }
            i += 1;
        }
        assert(self@.take(self@.len() as int) =~= self@);
        None
    }

    /// The subscription with the identifier.
    pub fn get(&self, id: &SubscriptionId) -> (r: Option<&Subscription>)
        ensures
            match (r, subscription_at(self@, id@)) {
                (Some(s), Some(i)) => s@ == self@[i],
                (None, None) => true,
                _ => false,
            },
    {
        match self.position(id) {
            Some(i) => Some(&self.subscriptions[i]),
            None => None,
        }
    }

    /// Replaces the filter of the subscription with the identifier, if there is one.
    pub fn set_filter(&mut self, id: &SubscriptionId, filter: EventFilter) -> (r: bool)
        ensures
            r == (subscription_at(old(self)@, id@) is Some),
            final(self)@ == refiltered(old(self)@, id@, filter@),
    {
        let ghost before = self@;
        match self.position(id) {
            Some(i) => {
                let ghost new = filter@;
                self.subscriptions[i].filter = filter;
                assert(self@ =~= before.update(i as int, (SubscriptionModel { filter: new, ..before[i as int] })));
                true
            },
            None => false,
        }
    }

    /// The subscriptions that ask for the event, those of higher priority first.
    pub fn matching_subscriptions(&self, event: &Event) -> (r: Vec<&Subscription>)
        ensures
            borrowed_subscriptions(r@) == asking(self@, event.kind),
    {
        let mut r: Vec<&Subscription> = Vec::new();
        let mut i: usize = 0;
        assert(self@.take(0) =~= Seq::<SubscriptionModel>::empty());
        assert(borrowed_subscriptions(r@) =~= Seq::<SubscriptionModel>::empty());
        while i < self.subscriptions.len()
            invariant
                i <= self.subscriptions@.len(),
                borrowed_subscriptions(r@) == asking(self@.take(i as int), event.kind),
            decreases self.subscriptions@.len() - i,
        {
            proof {
                assert(self@.take(i + 1).drop_last() =~= self@.take(i as int));
                assert(self@.take(i + 1).last() == self.subscriptions@[i as int]@);
            }
            if self.subscriptions[i].filter.matches(event) {
                let ghost before = borrowed_subscriptions(r@);
                r.push(&self.subscriptions[i]);
                assert(borrowed_subscriptions(r@) =~= before.push(self.subscriptions@[i as int]@));
            }
            i += 1;
        }
        assert(self@.take(self@.len() as int) =~= self@);
        r
    }
}

/// The lists one after the other.
pub open spec fn gathered(batches: Seq<Vec<EventKind>>) -> Seq<EventKind>
    decreases batches.len(),
{
    if batches.len() == 0 {
        Seq::empty()
    } else {
        gathered(batches.drop_last()) + batches.last()@
    }
}

/// For each kind of the lists one after the other, the subscription whose list it is from.
pub open spec fn credited(subscriptions: Seq<SubscriptionModel>, batches: Seq<Vec<EventKind>>) -> Seq<Seq<char>>
    decreases batches.len(),
{
    if batches.len() == 0 {
        Seq::empty()
    } else {
        let last = batches.len() - 1;
        credited(subscriptions, batches.drop_last()) + Seq::new(
            batches[last]@.len(),
            |i: int| subscriptions[last].id,
        )
    }
}

pub proof fn credited_length(subscriptions: Seq<SubscriptionModel>, batches: Seq<Vec<EventKind>>)
    ensures
        credited(subscriptions, batches).len() == gathered(batches).len(),
    decreases batches.len(),
{
    if batches.len() > 0 {
        credited_length(subscriptions, batches.drop_last());
    }
}

/// The handler gave the lists for the subscriptions, in order.
pub open spec fn served<H: Fn(&Subscription, &Event, &Projection) -> Vec<EventKind>>(
    handle: H,
    subscriptions: Seq<&Subscription>,
    event: &Event,
    graph: &Projection,
    batches: Seq<Vec<EventKind>>,
) -> bool {
    &&& batches.len() == subscriptions.len()
    &&& forall|i: int|
        0 <= i < batches.len() ==> call_ensures(handle, (subscriptions[i], event, graph), #[trigger] batches[i])
}

/// The kinds are what the handler gave for the event and the graph, for one subscription that
/// asks for the event after the other; each kind is credited to its subscription.
pub open spec fn answered<H: Fn(&Subscription, &Event, &Projection) -> Vec<EventKind>>(
    list: Seq<SubscriptionModel>,
    handle: H,
    event: EventModel,
    graph: GraphModel,
    kinds: Seq<EventKind>,
    by: Seq<Seq<char>>,
) -> bool {
    exists|subscriptions: Seq<&Subscription>, e: &Event, p: &Projection, batches: Seq<Vec<EventKind>>|
        {
            &&& #[trigger] served(handle, subscriptions, e, p, batches)
            &&& e@ == event
            &&& p@ == graph
            &&& borrowed_subscriptions(subscriptions) == asking(list, event.kind)
            &&& kinds == gathered(batches)
            &&& by == credited(asking(list, event.kind), batches)
        }
}

impl SubscriptionRegistry {
    /// What an event brings about: what the handler gives for each subscription that asks for
    /// it, those of higher priority first, and for each kind the subscription it is from.
    pub fn reactions<H: Fn(&Subscription, &Event, &Projection) -> Vec<EventKind>>(
        &self,
        event: &Event,
        graph: &Projection,
        handle: &H,
    ) -> (r: (Vec<EventKind>, Vec<SubscriptionId>))
        requires
            forall|s: &Subscription, e: &Event, g: &Projection| #[trigger] call_requires(*handle, (s, e, g)),
        ensures
            answered(self@, *handle, event@, graph@, r.0@, texts(r.1@)),
            r.0@.len() == r.1@.len(),
    {
        let matching = self.matching_subscriptions(event);
        let ghost asked = asking(self@, event.kind);
        let mut kinds: Vec<EventKind> = Vec::new();
        let mut by: Vec<SubscriptionId> = Vec::new();
        let ghost mut batches: Seq<Vec<EventKind>> = Seq::empty();
        let mut i: usize = 0;
        assert(texts(by@) =~= Seq::<Seq<char>>::empty());
        while i < matching.len()
            invariant
                forall|s: &Subscription, e: &Event, g: &Projection| #[trigger] call_requires(*handle, (s, e, g)),
                i <= matching@.len(),
                borrowed_subscriptions(matching@) == asked,
                batches.len() == i,
                forall|j: int|
                    0 <= j < i ==> call_ensures(*handle, (matching@[j], event, graph), #[trigger] batches[j]),
                kinds@ == gathered(batches),
                texts(by@) == credited(asked, batches),
            decreases matching@.len() - i,
        {
            let mut given = handle(matching[i], event, graph);
            let ghost batch = given;
            let ghost before = batches;
            let ghost credits = texts(by@);
            let n: usize = given.len();
            let mut k: usize = 0;
            assert(credits + Seq::<Seq<char>>::new(0, |x: int| matching@[i as int].id@) =~= credits);
            while k < n
                invariant
                    i < matching@.len(),
                    k <= n,
                    texts(by@) == credits + Seq::new(k as nat, |x: int| matching@[i as int].id@),
                decreases n - k,
            {
                let ghost earlier = texts(by@);
                by.push(matching[i].id.clone());
                proof {
                    assert(texts(by@) =~= earlier.push(matching@[i as int].id@));
                    assert(texts(by@) =~= credits + Seq::new((k + 1) as nat, |x: int| matching@[i as int].id@));
                }
                k += 1;
            }
            kinds.append(&mut given);
            proof {
                batches = batches.push(batch);
                assert(batches.drop_last() =~= before);
                assert(borrowed_subscriptions(matching@)[i as int] == matching@[i as int]@);
                assert(texts(by@) =~= credited(asked, batches));
            }
            i += 1;
        }
        proof {
            assert(served(*handle, matching@, event, graph, batches));
            credited_length(asked, batches);
        }
        (kinds, by)
    }
}

impl Default for SubscriptionRegistry {
    fn default() -> (r: Self)
        ensures
            r@ == Seq::<SubscriptionModel>::empty(),
    {
        SubscriptionRegistry::new()
    }
}

/// The subscriptions after the filter of the one with the identifier is replaced.
pub open spec fn refiltered(list: Seq<SubscriptionModel>, id: Seq<char>, filter: FilterModel) -> Seq<SubscriptionModel> {
    match subscription_at(list, id) {
        Some(i) => list.update(i, (SubscriptionModel { filter, ..list[i] })),
        None => list,
    }
}

/// Registration keeps higher priorities first.
pub proof fn law_registration_keeps_the_ranking(list: Seq<SubscriptionModel>, added: SubscriptionModel)
    requires
        ranked(list),
    ensures
        ranked(list.insert(place(list, added.priority), added)),
{
    place_bounds(list, added.priority);
    let k = place(list, added.priority);
    let r = list.insert(k, added);
    assert forall|i: int, j: int| 0 <= i < j < r.len() implies (#[trigger] r[i]).priority >= (#[trigger] r[j]).priority by {
        if i < k && k <= j && k > 0 {
            assert(list[i].priority >= list[k - 1].priority) by {
                if i < k - 1 {
                    assert(list[i].priority >= list[k - 1].priority);
                }
            }
            if j > k {
                assert(list[i].priority >= list[j - 1].priority);
            }
        }
        if i == k {
            assert(list[j - 1].priority < added.priority);
        }
        if i > k {
            assert(list[i - 1].priority >= list[j - 1].priority);
        }
        if j < k {
            assert(list[i].priority >= list[j].priority);
        }
    }
}

/// The subscriptions that ask for an event come out with higher priorities first.
pub proof fn law_matches_keep_the_ranking(list: Seq<SubscriptionModel>, kind: EventKind)
    requires
        ranked(list),
    ensures
        ranked(asking(list, kind)),
        forall|s: SubscriptionModel| #[trigger]
            asking(list, kind).contains(s) <==> list.contains(s) && passes(s.filter, kind),
    decreases list.len(),
{
    if list.len() > 0 {
        let rest = list.drop_last();
        let before = asking(rest, kind);
        assert(ranked(rest)) by {
            assert forall|i: int, j: int| 0 <= i < j < rest.len() implies (#[trigger] rest[i]).priority
                >= (#[trigger] rest[j]).priority by {
                assert(list[i].priority >= list[j].priority);
            }
        }
        law_matches_keep_the_ranking(rest, kind);
        let all = asking(list, kind);
        assert forall|s: SubscriptionModel| #[trigger] all.contains(s) <==> list.contains(s) && passes(s.filter, kind) by {
            if all.contains(s) {
                let i = all.index_of(s);
                if i < before.len() {
                    assert(before[i] == s);
                    assert(before.contains(s));
                    let j = rest.index_of(s);
                    assert(list[j] == s);
                } else {
                    assert(list[list.len() - 1] == s);
                }
            }
            if list.contains(s) && passes(s.filter, kind) {
                let i = list.index_of(s);
                if i < rest.len() {
                    assert(rest[i] == s);
                    assert(before.contains(s));
                    let j = before.index_of(s);
                    assert(all[j] == s);
                } else {
                    assert(all[all.len() - 1] == s);
                }
            }
        }
        assert forall|i: int, j: int| 0 <= i < j < all.len() implies (#[trigger] all[i]).priority >= (#[trigger] all[j]).priority by {
            if j < before.len() {
                assert(before[i].priority >= before[j].priority);
            } else {
                assert(before.contains(before[i]));
                let m = rest.index_of(before[i]);
                assert(list[m].priority >= list[list.len() - 1].priority);
            }
        }
    }
}

} // verus!
