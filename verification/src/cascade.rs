//! The cascade engine: events bring about further events, breadth first, within limits.

use crate::action_store::{ActionStore, ActionStoreModel};
use crate::epistemic_store::{EpistemicModel, EpistemicStore};
use crate::error::{ErrorModel, HydraError};
use crate::event::{event_models, Event, EventKind, EventModel, Stamp};
use crate::ids::{opt_text, texts, CascadeId, SubscriptionId};
use crate::outcome_agent::{is_outcome_reaction, OutcomeAgent};
use crate::policy_agent::{is_policy_reaction, PolicyAgent, PolicyMint};
use crate::policy_engine::PolicyEngine;
use crate::policy_store::{PolicyStore, PolicyStoreModel};
use crate::projection::{GraphModel, Projection};
use crate::registry::{
    answered, asking, borrowed_subscriptions, credited, gathered, served, Subscription, SubscriptionModel, SubscriptionRegistry,
};
use vstd::prelude::*;

verus! {

/// The limits of a cascade.
#[derive(Debug, Clone, Copy, PartialEq, Eq, Structural)]
pub struct CascadeConfig {
    /// The greatest depth of an event.
    pub max_depth: u32,
    /// The greatest number of events.
    pub max_events: usize,
}

impl Default for CascadeConfig {
    fn default() -> (r: Self)
        ensures
            r.max_depth == 50,
            r.max_events == 10_000,
    {
        CascadeConfig { max_depth: 50, max_events: 10_000 }
    }
}

/// What a cascade came to.
#[derive(Debug)]
pub struct CascadeResult {
    /// The events processed, the trigger first, in order.
    pub events: Vec<Event>,
    /// How many of them changed the graph.
    pub mutations: usize,
    /// The greatest depth among them.
    pub max_depth_reached: u32,
    /// Whether a limit ended the cascade.
    pub truncated: bool,
    /// For each of the events the subscription whose reaction it is, where it is one. The
    /// list is empty where this is not known.
    pub produced_by: Vec<Option<SubscriptionId>>,
}

/// The subscriptions that events are reactions of.
pub open spec fn producers(list: Seq<Option<SubscriptionId>>) -> Seq<Option<Seq<char>>> {
    list.map_values(|id: Option<SubscriptionId>| opt_text(id))
}

/// The greatest depth among events.
pub open spec fn greatest_depth(events: Seq<EventModel>) -> nat
    decreases events.len(),
{
    if events.len() == 0 {
        0
    } else {
        let before = greatest_depth(events.drop_last());
        if events.last().cascade_depth > before {
            events.last().cascade_depth
        } else {
            before
        }
    }
}

impl CascadeResult {
    /// The result for events that were committed before. How many of them changed the
    /// graph is not known any more and counts as none; nor is it known which subscriptions
    /// they are reactions of.
    pub fn from_committed_events(events: Vec<Event>) -> (r: Self)
        ensures
            r.events == events,
            r.mutations == 0,
            r.max_depth_reached == greatest_depth(event_models(events@)),
            !r.truncated,
            r.produced_by@.len() == 0,
    {
        let mut deepest: u32 = 0;
        let mut i: usize = 0;
        let ghost models = event_models(events@);
        assert(models.take(0) =~= Seq::<EventModel>::empty());
        while i < events.len()
            invariant
                i <= events@.len(),
                models == event_models(events@),
                deepest == greatest_depth(models.take(i as int)),
            decreases events@.len() - i,
        {
            proof {
                assert(models.take(i + 1).drop_last() =~= models.take(i as int));
                assert(models.take(i + 1).last() == events@[i as int]@);
            }
            if events[i].cascade_depth > deepest {
                deepest = events[i].cascade_depth;
            }
            i += 1;
        }
        assert(models.take(events@.len() as int) =~= models);
        CascadeResult { events, mutations: 0, max_depth_reached: deepest, truncated: false, produced_by: Vec::new() }
    }
}

/// Something that an event brings about, with the identifier and the time it gets, and the
/// subscription that it comes from, where it comes from one.
pub struct Reaction {
    pub kind: EventKind,
    pub stamp: Stamp,
    pub by: Option<Seq<char>>,
}

/// The events that one brings about.
pub open spec fn reaction_events(parent: EventModel, reactions: Seq<Reaction>) -> Seq<EventModel> {
    Seq::new(
        reactions.len(),
        |i: int| parent.causing(reactions[i].kind, reactions[i].stamp, (i as u32) as nat),
    )
}

/// The subscriptions that reactions come from.
pub open spec fn reaction_producers(reactions: Seq<Reaction>) -> Seq<Option<Seq<char>>> {
    Seq::new(reactions.len(), |i: int| reactions[i].by)
}

/// The stores that events are applied to.
pub struct Stores {
    pub graph: GraphModel,
    pub beliefs: EpistemicModel,
    pub actions: ActionStoreModel,
    pub policies: PolicyStoreModel,
}

/// A cascade under way: the events that wait, those processed, and what they have done. Of
/// each event the subscription is known that it comes from, where it comes from one.
pub struct CascadeState<S> {
    pub waiting: Seq<EventModel>,
    pub waiting_by: Seq<Option<Seq<char>>>,
    pub done: Seq<EventModel>,
    pub done_by: Seq<Option<Seq<char>>>,
    pub stores: S,
    pub mutations: nat,
    pub deepest: nat,
}

impl<S> CascadeState<S> {
    /// The cascade before its first event.
    pub open spec fn start(trigger: EventModel, stores: S) -> CascadeState<S> {
        CascadeState {
            waiting: seq![trigger],
            waiting_by: seq![None],
            done: Seq::empty(),
            done_by: Seq::empty(),
            stores,
            mutations: 0,
            deepest: 0,
        }
    }

    /// Whether an event waits, and the limits let it be processed.
    pub open spec fn goes_on(self, config: CascadeConfig) -> bool {
        &&& self.waiting.len() > 0
        &&& self.waiting[0].cascade_depth <= config.max_depth
        &&& self.done.len() < config.max_events
    }

    /// The cascade after its next event was applied, with what it brought about waiting
    /// behind the others.
    pub open spec fn advanced(self, stores: S, changed: bool, reactions: Seq<Reaction>) -> CascadeState<S> {
        let event = self.waiting[0];
        CascadeState {
            waiting: self.waiting.skip(1) + reaction_events(event, reactions),
            waiting_by: self.waiting_by.skip(1) + reaction_producers(reactions),
            done: self.done.push(event),
            done_by: self.done_by.push(self.waiting_by[0]),
            stores,
            mutations: if changed {
                self.mutations + 1
            } else {
                self.mutations
            },
            deepest: if event.cascade_depth > self.deepest {
                event.cascade_depth
            } else {
                self.deepest
            },
        }
    }
}

/// Whether an event changes the graph.
pub open spec fn changes_graph(graph: GraphModel, kind: EventKind) -> bool {
    match graph.outcome(kind) {
        Ok((_, changed)) => changed,
        Err(_) => false,
    }
}

/// The cascade on a graph, after the reactions of one event after another.
pub open spec fn graph_run(start: CascadeState<GraphModel>, batches: Seq<Seq<Reaction>>) -> CascadeState<GraphModel>
    decreases batches.len(),
{
    if batches.len() == 0 {
        start
    } else {
        let before = graph_run(start, batches.drop_last());
        let kind = before.waiting[0].kind;
        before.advanced(before.stores.after(kind), changes_graph(before.stores, kind), batches.last())
    }
}

/// Why an event is refused, by whichever store refuses it first.
pub open spec fn stores_refusal(stores: Stores, event: EventModel) -> Option<ErrorModel> {
    if stores.graph.outcome(event.kind) is Err {
        Some(stores.graph.outcome(event.kind)->Err_0)
    } else if stores.beliefs.after(event) is Err {
        Some(stores.beliefs.after(event)->Err_0)
    } else if stores.actions.after(event) is Err {
        Some(stores.actions.after(event)->Err_0)
    } else if stores.policies.after(event) is Err {
        Some(stores.policies.after(event)->Err_0)
    } else {
        None
    }
}

/// The stores after an event: each takes it in turn, up to the first that refuses it. The
/// graph counts an event that it refuses.
pub open spec fn stores_after(stores: Stores, event: EventModel) -> Stores {
    let one = Stores { graph: stores.graph.after(event.kind), ..stores };
    if stores.graph.outcome(event.kind) is Err || stores.beliefs.after(event) is Err {
        one
    } else {
        let two = Stores { beliefs: stores.beliefs.after(event)->Ok_0, ..one };
        if stores.actions.after(event) is Err {
            two
        } else {
            let three = Stores { actions: stores.actions.after(event)->Ok_0, ..two };
            if stores.policies.after(event) is Err {
                three
            } else {
                Stores { policies: stores.policies.after(event)->Ok_0, ..three }
            }
        }
    }
}

/// The cascade on all stores, after the reactions of one event after another.
pub open spec fn stores_run(start: CascadeState<Stores>, batches: Seq<Seq<Reaction>>) -> CascadeState<Stores>
    decreases batches.len(),
{
    if batches.len() == 0 {
        start
    } else {
        let before = stores_run(start, batches.drop_last());
        let event = before.waiting[0];
        before.advanced(
            stores_after(before.stores, event),
            changes_graph(before.stores.graph, event.kind),
            batches.last(),
        )
    }
}

/// The subscription at a position, if the list goes so far.
pub open spec fn producer_at(by: Seq<Seq<char>>, i: int) -> Option<Seq<char>> {
    if 0 <= i < by.len() {
        Some(by[i])
    } else {
        None
    }
}

/// The reactions are the given kinds in order, each with a stamp of the mint; the first come
/// from the given subscriptions, the others from none.
pub open spec fn stamped<M: Fn() -> Stamp>(
    reactions: Seq<Reaction>,
    kinds: Seq<EventKind>,
    by: Seq<Seq<char>>,
    mint: M,
) -> bool {
    &&& reactions.len() == kinds.len()
    &&& forall|i: int|
        0 <= i < kinds.len() ==> (#[trigger] reactions[i]).kind == kinds[i] && reactions[i].by == producer_at(by, i)
            && call_ensures(mint, (), reactions[i].stamp)
}

/// The reactions are what the handler gave for the event, once it was applied.
pub open spec fn handled<H: Fn(&Subscription, &Event, &Projection) -> Vec<EventKind>, M: Fn() -> Stamp>(
    subscriptions: Seq<SubscriptionModel>,
    handle: H,
    mint: M,
    event: EventModel,
    graph: GraphModel,
    reactions: Seq<Reaction>,
) -> bool {
    exists|kinds: Seq<EventKind>, by: Seq<Seq<char>>| #[trigger]
        answered(subscriptions, handle, event, graph, kinds, by) && stamped(reactions, kinds, by, mint)
}

/// Every batch of reactions was given by the handler, for an event that was within the
/// limits and accepted.
pub open spec fn graph_history<H: Fn(&Subscription, &Event, &Projection) -> Vec<EventKind>, M: Fn() -> Stamp>(
    config: CascadeConfig,
    subscriptions: Seq<SubscriptionModel>,
    handle: H,
    mint: M,
    start: CascadeState<GraphModel>,
    batches: Seq<Seq<Reaction>>,
) -> bool {
    forall|k: int|
        0 <= k < batches.len() ==> graph_step(config, subscriptions, handle, mint, graph_run(start, batches.take(k)), #[trigger] batches[k])
}

/// The state goes on with an event that is accepted, and the reactions are the handler's.
pub open spec fn graph_step<H: Fn(&Subscription, &Event, &Projection) -> Vec<EventKind>, M: Fn() -> Stamp>(
    config: CascadeConfig,
    subscriptions: Seq<SubscriptionModel>,
    handle: H,
    mint: M,
    state: CascadeState<GraphModel>,
    reactions: Seq<Reaction>,
) -> bool {
    &&& state.goes_on(config)
    &&& state.stores.outcome(state.waiting[0].kind) is Ok
    &&& handled(subscriptions, handle, mint, state.waiting[0], state.stores.after(state.waiting[0].kind), reactions)
}

/// The result reports the state in which a cascade ended.
pub open spec fn reports<S>(r: CascadeResult, end: CascadeState<S>, config: CascadeConfig) -> bool {
    &&& event_models(r.events@) == end.done
    &&& producers(r.produced_by@) == end.done_by
    &&& r.mutations == end.mutations
    &&& r.max_depth_reached == end.deepest
    &&& !end.goes_on(config)
    &&& r.truncated == (end.waiting.len() > 0)
}

/// The cascade engine.
pub struct CascadeEngine {
    pub config: CascadeConfig,
}

fn wrap<M: Fn() -> Stamp>(parent: &Event, kinds: Vec<EventKind>, by: &Vec<SubscriptionId>, mint: &M) -> (r: (
    Vec<Event>,
    Vec<Option<SubscriptionId>>,
    Ghost<Seq<Reaction>>,
))
    requires
        parent.cascade_depth < u32::MAX,
        call_requires(*mint, ()),
    ensures
        stamped(r.2@, kinds@, texts(by@), *mint),
        event_models(r.0@) == reaction_events(parent@, r.2@),
        producers(r.1@) == reaction_producers(r.2@),
{
    let ghost all = kinds@;
    let mut source = kinds;
    let mut reversed: Vec<EventKind> = Vec::new();
    assert(all.take(source@.len() as int) =~= all);
    while source.len() > 0
        invariant
            source@.len() + reversed@.len() == all.len(),
            source@ == all.take(source@.len() as int),
            forall|i: int| 0 <= i < reversed@.len() ==> #[trigger] reversed@[i] == all[all.len() - 1 - i],
        decreases source@.len(),
    {
        let ghost m = source@.len() as int;
        let kind = source.pop().unwrap();
        assert(all.take(m).subrange(0, m - 1) =~= all.take(m - 1));
        reversed.push(kind);
    }
    let mut events: Vec<Event> = Vec::new();
    let mut sources: Vec<Option<SubscriptionId>> = Vec::new();
    let ghost mut reactions: Seq<Reaction> = Seq::empty();
    while reversed.len() > 0
        invariant
            parent.cascade_depth < u32::MAX,
            call_requires(*mint, ()),
            events@.len() + reversed@.len() == all.len(),
            forall|i: int| 0 <= i < reversed@.len() ==> #[trigger] reversed@[i] == all[all.len() - 1 - i],
            reactions.len() == events@.len(),
            sources@.len() == events@.len(),
            forall|i: int|
                0 <= i < reactions.len() ==> (#[trigger] reactions[i]).kind == all[i] && reactions[i].by == producer_at(
                    texts(by@),
                    i,
                ) && call_ensures(*mint, (), reactions[i].stamp),
            forall|i: int| 0 <= i < reactions.len() ==> opt_text(#[trigger] sources@[i]) == reactions[i].by,
            forall|i: int|
                0 <= i < reactions.len() ==> (#[trigger] events@[i])@ == parent@.causing(
                    reactions[i].kind,
                    reactions[i].stamp,
                    (i as u32) as nat,
                ),
        decreases reversed@.len(),
    {
        let index: usize = events.len();
        let kind = reversed.pop().unwrap();
        let stamp = mint();
        let source: Option<SubscriptionId> = if index < by.len() {
            assert(texts(by@)[index as int] == by@[index as int]@);
            Some(by[index].clone())
        } else {
            None
        };
        let ghost reaction = Reaction { kind, stamp, by: opt_text(source) };
        let mut event = Event::reaction(kind, parent, stamp);
        event.cascade_breadth_index = #[verifier::truncate] (index as u32);
        proof {
            reactions = reactions.push(reaction);
        }
        events.push(event);
        sources.push(source);
    }
    assert(event_models(events@) =~= reaction_events(parent@, reactions));
    assert(producers(sources@) =~= reaction_producers(reactions));
    (events, sources, Ghost(reactions))
}

proof fn graph_extends<H: Fn(&Subscription, &Event, &Projection) -> Vec<EventKind>, M: Fn() -> Stamp>(
    config: CascadeConfig,
    subscriptions: Seq<SubscriptionModel>,
    handle: H,
    mint: M,
    start: CascadeState<GraphModel>,
    batches: Seq<Seq<Reaction>>,
    batch: Seq<Reaction>,
)
    requires
        graph_history(config, subscriptions, handle, mint, start, batches),
        graph_step(config, subscriptions, handle, mint, graph_run(start, batches), batch),
    ensures
        graph_history(config, subscriptions, handle, mint, start, batches.push(batch)),
        ({
            let state = graph_run(start, batches);
            let kind = state.waiting[0].kind;
            graph_run(start, batches.push(batch)) == state.advanced(
                state.stores.after(kind),
                changes_graph(state.stores, kind),
                batch,
            )
        }),
{
    let next = batches.push(batch);
    assert(next.drop_last() =~= batches);
    assert forall|k: int| 0 <= k < next.len() implies graph_step(
        config,
        subscriptions,
        handle,
        mint,
        graph_run(start, next.take(k)),
        #[trigger] next[k],
    ) by {
        if k < batches.len() {
            assert(next.take(k) =~= batches.take(k));
            assert(next[k] == batches[k]);
        } else {
            assert(next.take(k) =~= batches);
        }
    }
}

/// The lists hold the events processed, up to the position, and then those that wait, and
/// where they come from; the counters are those of the state.
#[verifier::opaque]
spec fn tracks<S>(
    state: CascadeState<S>,
    events: Seq<Event>,
    sources: Seq<Option<SubscriptionId>>,
    head: int,
    mutations: int,
    deepest: int,
) -> bool {
    &&& 0 <= head <= events.len()
    &&& sources.len() == events.len()
    &&& event_models(events).take(head) == state.done
    &&& event_models(events).skip(head) == state.waiting
    &&& producers(sources).take(head) == state.done_by
    &&& producers(sources).skip(head) == state.waiting_by
    &&& mutations == state.mutations
    &&& deepest == state.deepest
    &&& mutations <= head
}

proof fn tracks_start<S>(trigger: Event, stores: S, events: Seq<Event>, sources: Seq<Option<SubscriptionId>>)
    requires
        events == seq![trigger],
        sources == seq![None::<SubscriptionId>],
    ensures
        tracks(CascadeState::start(trigger@, stores), events, sources, 0, 0, 0),
{
    reveal(tracks);
    let by = producers(sources);
    assert(by.take(0) =~= Seq::<Option<Seq<char>>>::empty());
    assert(by.skip(0) =~= seq![None::<Seq<char>>]);
    let all = event_models(events);
    assert(all.take(0) =~= Seq::<EventModel>::empty());
    assert(all.skip(0) =~= seq![trigger@]);
}

proof fn tracks_facts<S>(
    state: CascadeState<S>,
    events: Seq<Event>,
    sources: Seq<Option<SubscriptionId>>,
    head: int,
    mutations: int,
    deepest: int,
)
    requires
        tracks(state, events, sources, head, mutations, deepest),
    ensures
        0 <= head <= events.len(),
        state.done.len() == head,
        state.waiting.len() == events.len() - head,
        head < events.len() ==> state.waiting[0] == events[head]@,
        mutations == state.mutations,
        deepest == state.deepest,
        mutations <= head,
        event_models(events.take(head)) == state.done,
        sources.len() == events.len(),
        producers(sources.take(head)) == state.done_by,
{
    reveal(tracks);
    assert(producers(sources.take(head)) =~= producers(sources).take(head));
    assert(event_models(events.take(head)) =~= event_models(events).take(head));
}

proof fn tracks_advance<S>(
    state: CascadeState<S>,
    events: Seq<Event>,
    sources: Seq<Option<SubscriptionId>>,
    head: int,
    mutations: int,
    deepest: int,
    stores: S,
    changed: bool,
    reactions: Seq<Reaction>,
    longer: Seq<Event>,
    more: Seq<Option<SubscriptionId>>,
)
    requires
        tracks(state, events, sources, head, mutations, deepest),
        head < events.len(),
        event_models(longer) == event_models(events) + reaction_events(events[head]@, reactions),
        producers(more) == producers(sources) + reaction_producers(reactions),
    ensures
        tracks(
            state.advanced(stores, changed, reactions),
            longer,
            more,
            head + 1,
            if changed {
                mutations + 1
            } else {
                mutations
            },
            if events[head].cascade_depth > deepest {
                events[head].cascade_depth as int
            } else {
                deepest
            },
        ),
{
    reveal(tracks);
    let all = event_models(events);
    let fresh = reaction_events(events[head]@, reactions);
    assert(all[head] == events[head]@);
    assert(all.skip(head)[0] == all[head]);
    assert((all + fresh).take(head + 1) =~= all.take(head).push(all[head]));
    assert((all + fresh).skip(head + 1) =~= all.skip(head).skip(1) + fresh);
    assert(longer.len() == event_models(longer).len());
    assert(more.len() == producers(more).len());
    let by = producers(sources);
    let fresh_by = reaction_producers(reactions);
    assert(by.skip(head)[0] == by[head]);
    assert((by + fresh_by).take(head + 1) =~= by.take(head).push(by[head]));
    assert((by + fresh_by).skip(head + 1) =~= by.skip(head).skip(1) + fresh_by);
}

fn react_to<H: Fn(&Subscription, &Event, &Projection) -> Vec<EventKind>, M: Fn() -> Stamp>(
    events: &mut Vec<Event>,
    sources: &mut Vec<Option<SubscriptionId>>,
    head: usize,
    projection: &Projection,
    registry: &SubscriptionRegistry,
    handle: &H,
    mint: &M,
) -> (r: Ghost<Seq<Reaction>>)
    requires
        head < old(events)@.len(),
        old(events)@[head as int].cascade_depth < u32::MAX,
        forall|s: &Subscription, e: &Event, p: &Projection| #[trigger] call_requires(*handle, (s, e, p)),
        call_requires(*mint, ()),
    ensures
        handled(registry@, *handle, *mint, old(events)@[head as int]@, projection@, r@),
        event_models(final(events)@) == event_models(old(events)@) + reaction_events(old(events)@[head as int]@, r@),
        producers(final(sources)@) == producers(old(sources)@) + reaction_producers(r@),
{
    let ghost before = event_models(events@);
    let ghost before_by = producers(sources@);
    let (kinds, by) = registry.reactions(&events[head], projection, handle);
    let ghost given = kinds@;
    let (reactions, reactors, Ghost(batch)) = wrap(&events[head], kinds, &by, mint);
    let mut reactions = reactions;
    let mut reactors = reactors;
    let ghost fresh = event_models(reactions@);
    let ghost fresh_by = producers(reactors@);
    let ghost parent = events@[head as int];
    events.append(&mut reactions);
    sources.append(&mut reactors);
    proof {
        assert(answered(registry@, *handle, parent@, projection@, given, texts(by@)));
        assert(event_models(events@) =~= before + fresh);
        assert(producers(sources@) =~= before_by + fresh_by);
    }
    Ghost(batch)
}

#[verifier::opaque]
spec fn graph_in_order(projection: Projection) -> bool {
    projection.inv()
}

fn apply_to_graph(event: &Event, projection: &mut Projection) -> (r: Result<bool, HydraError>)
    requires
        graph_in_order(*old(projection)),
    ensures
        graph_in_order(*final(projection)),
        final(projection)@ == old(projection)@.after(event.kind),
        match r {
            Ok(changed) => old(projection)@.outcome(event.kind) is Ok && changed == changes_graph(
                old(projection)@,
                event.kind,
            ),
            Err(e) => old(projection)@.outcome(event.kind) is Err && e@ == old(projection)@.outcome(event.kind)->Err_0,
        },
{
    reveal(graph_in_order);
    projection.apply(event)
}

/// The step from a state, within the limits, on a graph.
#[verifier::opaque]
spec fn graph_stepped<H: Fn(&Subscription, &Event, &Projection) -> Vec<EventKind>, M: Fn() -> Stamp>(
    config: CascadeConfig,
    subscriptions: Seq<SubscriptionModel>,
    handle: H,
    mint: M,
    state: CascadeState<GraphModel>,
    batch: Seq<Reaction>,
    next: CascadeState<GraphModel>,
) -> bool {
    let kind = state.waiting[0].kind;
    &&& graph_step(config, subscriptions, handle, mint, state, batch)
    &&& next == state.advanced(state.stores.after(kind), changes_graph(state.stores, kind), batch)
}

/// The end of a cascade on a graph that refuses an event.
#[verifier::opaque]
spec fn graph_refused(
    config: CascadeConfig,
    state: CascadeState<GraphModel>,
    error: ErrorModel,
    graph: GraphModel,
) -> bool {
    &&& state.goes_on(config)
    &&& state.stores.outcome(state.waiting[0].kind) is Err
    &&& error == state.stores.outcome(state.waiting[0].kind)->Err_0
    &&& graph == state.stores.after(state.waiting[0].kind)
}

/// The parts of a cascade under way on a graph belong to the state.
#[verifier::opaque]
spec fn graph_stands(
    config: CascadeConfig,
    state: CascadeState<GraphModel>,
    events: Seq<Event>,
    sources: Seq<Option<SubscriptionId>>,
    head: int,
    mutations: int,
    deepest: int,
    projection: Projection,
) -> bool {
    &&& tracks(state, events, sources, head, mutations, deepest)
    &&& graph_in_order(projection)
    &&& projection@ == state.stores
    &&& head <= config.max_events
}

fn step_on_graph<H: Fn(&Subscription, &Event, &Projection) -> Vec<EventKind>, M: Fn() -> Stamp>(
    config: CascadeConfig,
    events: &mut Vec<Event>,
    sources: &mut Vec<Option<SubscriptionId>>,
    head: usize,
    mutations: usize,
    deepest: u32,
    projection: &mut Projection,
    registry: &SubscriptionRegistry,
    handle: &H,
    mint: &M,
    Ghost(state): Ghost<CascadeState<GraphModel>>,
) -> (r: Result<(bool, u32, Ghost<Seq<Reaction>>, Ghost<CascadeState<GraphModel>>), HydraError>)
    requires
        graph_stands(config, state, old(events)@, old(sources)@, head as int, mutations as int, deepest as int, *old(projection)),
        head < old(events)@.len(),
        state.goes_on(config),
        old(events)@[head as int].cascade_depth < u32::MAX,
        forall|s: &Subscription, e: &Event, p: &Projection| #[trigger] call_requires(*handle, (s, e, p)),
        call_requires(*mint, ()),
    ensures
        graph_in_order(*final(projection)),
        match r {
            Ok((changed, depth, batch, next)) => {
                &&& graph_stepped(config, registry@, *handle, *mint, state, batch@, next@)
                &&& graph_stands(
                    config,
                    next@,
                    final(events)@,
                    final(sources)@,
                    head + 1,
                    if changed {
                        mutations + 1
                    } else {
                        mutations as int
                    },
                    depth as int,
                    *final(projection),
                )
            },
            Err(e) => graph_refused(config, state, e@, final(projection)@),
        },
{
    reveal(graph_stands);
    let ghost before = events@;
    let ghost before_by = sources@;
    proof {
        tracks_facts(state, events@, sources@, head as int, mutations as int, deepest as int);
    }
    let depth = events[head].cascade_depth;
    let changed = match apply_to_graph(&events[head], projection) {
        Ok(changed) => changed,
        Err(e) => {
            reveal(graph_refused);
            return Err(e);
        },
    };
    let Ghost(batch) = react_to(events, sources, head, projection, registry, handle, mint);
    let ghost next = state.advanced(projection@, changed, batch);
    proof {
        reveal(graph_stepped);
        tracks_advance(
            state,
            before,
            before_by,
            head as int,
            mutations as int,
            deepest as int,
            projection@,
            changed,
            batch,
            events@,
            sources@,
        );
    }
    let deepest: u32 = if depth > deepest {
        depth
    } else {
        deepest
    };
    Ok((changed, deepest, Ghost(batch), Ghost(next)))
}

proof fn graph_stands_facts(
    config: CascadeConfig,
    state: CascadeState<GraphModel>,
    events: Seq<Event>,
    sources: Seq<Option<SubscriptionId>>,
    head: int,
    mutations: int,
    deepest: int,
    projection: Projection,
)
    requires
        graph_stands(config, state, events, sources, head, mutations, deepest, projection),
    ensures
        0 <= head <= events.len(),
        head <= config.max_events,
        state.done.len() == head,
        state.waiting.len() == events.len() - head,
        head < events.len() ==> state.waiting[0] == events[head]@,
        mutations == state.mutations,
        deepest == state.deepest,
        mutations <= head,
        event_models(events.take(head)) == state.done,
        sources.len() == events.len(),
        producers(sources.take(head)) == state.done_by,
        projection.inv(),
        projection@ == state.stores,
{
    reveal(graph_stands);
    reveal(graph_in_order);
    tracks_facts(state, events, sources, head, mutations, deepest);
}

proof fn graph_begins(
    config: CascadeConfig,
    trigger: Event,
    projection: Projection,
    events: Seq<Event>,
    sources: Seq<Option<SubscriptionId>>,
)
    requires
        events == seq![trigger],
        sources == seq![None::<SubscriptionId>],
        projection.inv(),
    ensures
        graph_stands(config, CascadeState::start(trigger@, projection@), events, sources, 0, 0, 0, projection),
{
    reveal(graph_stands);
    reveal(graph_in_order);
    tracks_start(trigger, projection@, events, sources);
}

/// The states of a cascade on a graph follow one another to the given one.
#[verifier::opaque]
spec fn graph_leads<H: Fn(&Subscription, &Event, &Projection) -> Vec<EventKind>, M: Fn() -> Stamp>(
    config: CascadeConfig,
    subscriptions: Seq<SubscriptionModel>,
    handle: H,
    mint: M,
    start: CascadeState<GraphModel>,
    batches: Seq<Seq<Reaction>>,
    state: CascadeState<GraphModel>,
) -> bool {
    graph_history(config, subscriptions, handle, mint, start, batches) && graph_run(start, batches) == state
}

proof fn graph_leads_on<H: Fn(&Subscription, &Event, &Projection) -> Vec<EventKind>, M: Fn() -> Stamp>(
    config: CascadeConfig,
    subscriptions: Seq<SubscriptionModel>,
    handle: H,
    mint: M,
    start: CascadeState<GraphModel>,
    batches: Seq<Seq<Reaction>>,
    state: CascadeState<GraphModel>,
    batch: Seq<Reaction>,
    next: CascadeState<GraphModel>,
)
    requires
        graph_leads(config, subscriptions, handle, mint, start, batches, state),
        graph_stepped(config, subscriptions, handle, mint, state, batch, next),
    ensures
        graph_leads(config, subscriptions, handle, mint, start, batches.push(batch), next),
{
    reveal(graph_leads);
    reveal(graph_stepped);
    graph_extends(config, subscriptions, handle, mint, start, batches, batch);
}

/// No event that the limits let a cascade process is so deep that there is no number for what
/// it brings about.
pub open spec fn depths_fit(config: CascadeConfig, depth: nat) -> bool {
    config.max_depth < u32::MAX || depth + config.max_events <= u32::MAX
}

/// No event that waits is deeper than the trigger by more than the number of those processed.
#[verifier::opaque]
spec fn shallow<S>(state: CascadeState<S>, depth: nat) -> bool {
    forall|i: int| 0 <= i < state.waiting.len() ==> (#[trigger] state.waiting[i]).cascade_depth <= depth + state.done.len()
}

proof fn advancing_stays_shallow<S>(
    state: CascadeState<S>,
    stores: S,
    changed: bool,
    reactions: Seq<Reaction>,
    depth: nat,
)
    requires
        shallow(state, depth),
        state.waiting.len() > 0,
    ensures
        shallow(state.advanced(stores, changed, reactions), depth),
{
    reveal(shallow);
    let next = state.advanced(stores, changed, reactions);
    let fresh = reaction_events(state.waiting[0], reactions);
    assert forall|i: int| 0 <= i < next.waiting.len() implies (#[trigger] next.waiting[i]).cascade_depth <= depth
        + next.done.len() by {
        if i < state.waiting.len() - 1 {
            assert(next.waiting[i] == state.waiting[i + 1]);
        } else {
            assert(next.waiting[i] == fresh[i - (state.waiting.len() - 1)]);
        }
    }
}

proof fn graph_stays_shallow<H: Fn(&Subscription, &Event, &Projection) -> Vec<EventKind>, M: Fn() -> Stamp>(
    config: CascadeConfig,
    subscriptions: Seq<SubscriptionModel>,
    handle: H,
    mint: M,
    state: CascadeState<GraphModel>,
    batch: Seq<Reaction>,
    next: CascadeState<GraphModel>,
    depth: nat,
)
    requires
        graph_stepped(config, subscriptions, handle, mint, state, batch, next),
        shallow(state, depth),
    ensures
        shallow(next, depth),
{
    reveal(graph_stepped);
    let kind = state.waiting[0].kind;
    advancing_stays_shallow(state, state.stores.after(kind), changes_graph(state.stores, kind), batch, depth);
}

impl CascadeEngine {
    /// An engine with the given limits.
    pub fn new(config: CascadeConfig) -> (r: Self)
        ensures
            r.config == config,
    {
        CascadeEngine { config }
    }

    /// An engine with the usual limits.
    pub fn with_defaults() -> (r: Self)
        ensures
            r.config.max_depth == 50,
            r.config.max_events == 10_000,
    {
        CascadeEngine { config: CascadeConfig::default() }
    }

    /// Processes an event and all that it brings about, breadth first. Each event is
    /// applied to the graph, then the handler says what it brings about, for one subscription
    /// that asks for it after the other; a limit ends the cascade, and so does an event that
    /// the graph refuses.
    pub fn process<H: Fn(&Subscription, &Event, &Projection) -> Vec<EventKind>, M: Fn() -> Stamp>(
        &self,
        trigger: Event,
        projection: &mut Projection,
        registry: &SubscriptionRegistry,
        handle: H,
        mint: M,
    ) -> (r: Result<CascadeResult, HydraError>)
        requires
            old(projection).inv(),
            depths_fit(self.config, trigger.cascade_depth as nat),
            forall|s: &Subscription, e: &Event, p: &Projection| #[trigger] call_requires(handle, (s, e, p)),
            call_requires(mint, ()),
        ensures
            final(projection).inv(),
            ({
                let start = CascadeState::start(trigger@, old(projection)@);
                exists|batches: Seq<Seq<Reaction>>| #[trigger]
                    graph_history(self.config, registry@, handle, mint, start, batches) && ({
                        let end = graph_run(start, batches);
                        match r {
                            Ok(result) => reports(result, end, self.config) && final(projection)@ == end.stores,
                            Err(e) => {
                                &&& end.goes_on(self.config)
                                &&& end.stores.outcome(end.waiting[0].kind) is Err
                                &&& e@ == end.stores.outcome(end.waiting[0].kind)->Err_0
                                &&& final(projection)@ == end.stores.after(end.waiting[0].kind)
                            },
                        }
                    })
            }),
    {
        let ghost start = CascadeState::start(trigger@, projection@);
        let ghost mut batches: Seq<Seq<Reaction>> = Seq::empty();
        let ghost mut state = start;
        let mut events: Vec<Event> = Vec::new();
        let mut sources: Vec<Option<SubscriptionId>> = Vec::new();
        let ghost first = trigger;
        events.push(trigger);
        sources.push(None);
        let mut head: usize = 0;
        let mut mutations: usize = 0;
        let mut deepest: u32 = 0;
        let mut truncated: bool = false;
        proof {
            assert(events@ =~= seq![first]);
            assert(sources@ =~= seq![None::<SubscriptionId>]);
            reveal(shallow);
            graph_begins(self.config, first, *projection, events@, sources@);
            reveal(graph_leads);
        }
        while head < events.len() && !truncated
            invariant
                depths_fit(self.config, first.cascade_depth as nat),
                shallow(state, first.cascade_depth as nat),
                forall|s: &Subscription, e: &Event, p: &Projection| #[trigger] call_requires(handle, (s, e, p)),
                call_requires(mint, ()),
                start == CascadeState::start(trigger@, old(projection)@),
                head <= self.config.max_events,
                graph_leads(self.config, registry@, handle, mint, start, batches, state),
                graph_stands(
                    self.config,
                    state,
                    events@,
                    sources@,
                    head as int,
                    mutations as int,
                    deepest as int,
                    *projection,
                ),
                truncated ==> head < events@.len() && !state.goes_on(self.config),
            decreases self.config.max_events - head + (if truncated { 0int } else { 1int }),
        {
            proof {
                graph_stands_facts(
                    self.config,
                    state,
                    events@,
                    sources@,
                    head as int,
                    mutations as int,
                    deepest as int,
                    *projection,
                );
            }
            if events[head].cascade_depth > self.config.max_depth || head >= self.config.max_events {
                truncated = true;
            } else {
                assert(events@[head as int].cascade_depth < u32::MAX) by {
                    reveal(shallow);
                }
                match step_on_graph(
                    self.config,
                    &mut events,
                    &mut sources,
                    head,
                    mutations,
                    deepest,
                    projection,
                    registry,
                    &handle,
                    &mint,
                    Ghost(state),
                ) {
                    Ok((changed, depth, batch, next)) => {
                        proof {
                            graph_stays_shallow(
                                self.config,
                                registry@,
                                handle,
                                mint,
                                state,
                                batch@,
                                next@,
                                first.cascade_depth as nat,
                            );
                            graph_leads_on(self.config, registry@, handle, mint, start, batches, state, batch@, next@);
                            batches = batches.push(batch@);
                            state = next@;
                        }
                        if changed {
                            mutations += 1;
                        }
                        deepest = depth;
                        head += 1;
                    },
                    Err(e) => {
                        proof {
                            reveal(graph_leads);
                            reveal(graph_refused);
                            reveal(graph_in_order);
                        }
                        return Err(e);
                    },
                }
            }
        }
        proof {
            graph_stands_facts(
                self.config,
                state,
                events@,
                sources@,
                head as int,
                mutations as int,
                deepest as int,
                *projection,
            );
            reveal(graph_leads);
        }
        events.truncate(head);
        sources.truncate(head);
        Ok(CascadeResult { events, mutations, max_depth_reached: deepest, truncated, produced_by: sources })
    }

    /// Processes what happened as the trigger of a new cascade.
    pub fn trigger<H: Fn(&Subscription, &Event, &Projection) -> Vec<EventKind>, M: Fn() -> Stamp>(
        &self,
        kind: EventKind,
        stamp: Stamp,
        cascade_id: CascadeId,
        projection: &mut Projection,
        registry: &SubscriptionRegistry,
        handle: H,
        mint: M,
    ) -> (r: Result<CascadeResult, HydraError>)
        requires
            old(projection).inv(),
            depths_fit(self.config, 0),
            forall|s: &Subscription, e: &Event, p: &Projection| #[trigger] call_requires(handle, (s, e, p)),
            call_requires(mint, ()),
        ensures
            final(projection).inv(),
            ({
                let start = CascadeState::start(EventModel::starting(kind, stamp, cascade_id@), old(projection)@);
                exists|batches: Seq<Seq<Reaction>>| #[trigger]
                    graph_history(self.config, registry@, handle, mint, start, batches) && ({
                        let end = graph_run(start, batches);
                        match r {
                            Ok(result) => reports(result, end, self.config) && final(projection)@ == end.stores,
                            Err(e) => {
                                &&& end.goes_on(self.config)
                                &&& end.stores.outcome(end.waiting[0].kind) is Err
                                &&& e@ == end.stores.outcome(end.waiting[0].kind)->Err_0
                                &&& final(projection)@ == end.stores.after(end.waiting[0].kind)
                            },
                        }
                    })
            }),
    {
        self.process(Event::trigger(kind, stamp, cascade_id), projection, registry, handle, mint)
    }
}

/// What happened next, in the order in which the sources gave it.
pub struct Gathered {
    /// What the handler gave for the subscriptions.
    pub subscribed: Seq<EventKind>,
    /// The subscriptions that it gave it for.
    pub subscribers: Seq<Seq<char>>,
    /// What the agents of verification and remediation gave.
    pub first: Seq<EventKind>,
    /// What the policy agent gave.
    pub policy: Seq<EventKind>,
    /// What the outcome agent gave.
    pub outcome: Seq<EventKind>,
    /// What the reflexes gave.
    pub last: Seq<EventKind>,
    pub policy_mint: PolicyMint,
    pub outcome_stamp: Stamp,
}

/// The kinds are what the agents gave for the event, the graph and the beliefs.
pub open spec fn given_by_agents<R: Fn(&Event, &Projection, &EpistemicStore) -> Vec<EventKind>>(
    react: R,
    event: EventModel,
    stores: Stores,
    kinds: Seq<EventKind>,
) -> bool {
    exists|e: &Event, p: &Projection, b: &EpistemicStore, v: Vec<EventKind>| #[trigger]
        call_ensures(react, (e, p, b), v) && e@ == event && p@ == stores.graph && b@ == stores.beliefs && v@ == kinds
}

/// The kinds are what the reflexes gave for the event and the stores.
pub open spec fn given_by_reflexes<
    X: Fn(&Event, &Projection, &EpistemicStore, &ActionStore) -> Vec<EventKind>,
>(reflexes: X, event: EventModel, stores: Stores, kinds: Seq<EventKind>) -> bool {
    exists|e: &Event, p: &Projection, b: &EpistemicStore, a: &ActionStore, v: Vec<EventKind>| #[trigger]
        call_ensures(reflexes, (e, p, b, a), v) && e@ == event && p@ == stores.graph && b@ == stores.beliefs && a@
            == stores.actions && v@ == kinds
}

/// The identifiers and the time for a policy evaluation come from the mint.
pub open spec fn minted<M: Fn() -> Stamp>(mint: M, given: PolicyMint) -> bool {
    exists|one: Stamp, two: Stamp| #[trigger]
        call_ensures(mint, (), one) && #[trigger] call_ensures(mint, (), two) && given == (PolicyMint {
            decision_id: one.id,
            approval_id: two.id,
            now: one.timestamp,
        })
}

/// Each part comes from its source, for the event and the stores that took it.
pub open spec fn from_sources<
    H: Fn(&Subscription, &Event, &Projection) -> Vec<EventKind>,
    R: Fn(&Event, &Projection, &EpistemicStore) -> Vec<EventKind>,
    X: Fn(&Event, &Projection, &EpistemicStore, &ActionStore) -> Vec<EventKind>,
    M: Fn() -> Stamp,
>(
    agents: (PolicyAgent, OutcomeAgent),
    subscriptions: Seq<SubscriptionModel>,
    handle: H,
    react: R,
    reflexes: X,
    mint: M,
    event: EventModel,
    stores: Stores,
    parts: Gathered,
) -> bool {
    &&& answered(subscriptions, handle, event, stores.graph, parts.subscribed, parts.subscribers)
    &&& given_by_agents(react, event, stores, parts.first)
    &&& minted(mint, parts.policy_mint)
    &&& is_policy_reaction(parts.policy, agents.0, event.kind, stores.actions, stores.policies, parts.policy_mint)
    &&& call_ensures(mint, (), parts.outcome_stamp)
    &&& is_outcome_reaction(parts.outcome, agents.1.actor_id@, event.kind, stores.actions, parts.outcome_stamp)
    &&& given_by_reflexes(reflexes, event, stores, parts.last)
}

/// The reactions are what the sources gave for the event, in their order.
pub open spec fn all_handled<
    H: Fn(&Subscription, &Event, &Projection) -> Vec<EventKind>,
    R: Fn(&Event, &Projection, &EpistemicStore) -> Vec<EventKind>,
    X: Fn(&Event, &Projection, &EpistemicStore, &ActionStore) -> Vec<EventKind>,
    M: Fn() -> Stamp,
>(
    agents: (PolicyAgent, OutcomeAgent),
    subscriptions: Seq<SubscriptionModel>,
    handle: H,
    react: R,
    reflexes: X,
    mint: M,
    event: EventModel,
    stores: Stores,
    reactions: Seq<Reaction>,
) -> bool {
    exists|parts: Gathered| #[trigger]
        from_sources(agents, subscriptions, handle, react, reflexes, mint, event, stores, parts) && stamped(
            reactions,
            parts.subscribed + parts.first + parts.policy + parts.outcome + parts.last,
            parts.subscribers,
            mint,
        )
}

/// The state goes on with an event that all stores accept, and the reactions are those of
/// the sources.
pub open spec fn stores_step<
    H: Fn(&Subscription, &Event, &Projection) -> Vec<EventKind>,
    R: Fn(&Event, &Projection, &EpistemicStore) -> Vec<EventKind>,
    X: Fn(&Event, &Projection, &EpistemicStore, &ActionStore) -> Vec<EventKind>,
    M: Fn() -> Stamp,
>(
    config: CascadeConfig,
    agents: (PolicyAgent, OutcomeAgent),
    subscriptions: Seq<SubscriptionModel>,
    handle: H,
    react: R,
    reflexes: X,
    mint: M,
    state: CascadeState<Stores>,
    reactions: Seq<Reaction>,
) -> bool {
    &&& state.goes_on(config)
    &&& stores_refusal(state.stores, state.waiting[0]) is None
    &&& all_handled(
        agents,
        subscriptions,
        handle,
        react,
        reflexes,
        mint,
        state.waiting[0],
        stores_after(state.stores, state.waiting[0]),
        reactions,
    )
}

/// Every batch of reactions was given by the sources, for an event that was within the
/// limits and accepted.
pub open spec fn stores_history<
    H: Fn(&Subscription, &Event, &Projection) -> Vec<EventKind>,
    R: Fn(&Event, &Projection, &EpistemicStore) -> Vec<EventKind>,
    X: Fn(&Event, &Projection, &EpistemicStore, &ActionStore) -> Vec<EventKind>,
    M: Fn() -> Stamp,
>(
    config: CascadeConfig,
    agents: (PolicyAgent, OutcomeAgent),
    subscriptions: Seq<SubscriptionModel>,
    handle: H,
    react: R,
    reflexes: X,
    mint: M,
    start: CascadeState<Stores>,
    batches: Seq<Seq<Reaction>>,
) -> bool {
    forall|k: int|
        0 <= k < batches.len() ==> stores_step(
            config,
            agents,
            subscriptions,
            handle,
            react,
            reflexes,
            mint,
            stores_run(start, batches.take(k)),
            #[trigger] batches[k],
        )
}

/// The result of a cascade on all stores, and the stores it leaves, belong to the end of a
/// history. Where an event is refused, the stores before the one that refuses it have
/// taken it.
pub open spec fn ends_history(
    r: Result<CascadeResult, HydraError>,
    stores: Stores,
    end: CascadeState<Stores>,
    config: CascadeConfig,
) -> bool {
    match r {
        Ok(result) => reports(result, end, config) && stores == end.stores,
        Err(e) => {
            &&& end.goes_on(config)
            &&& stores_refusal(end.stores, end.waiting[0]) == Some(e@)
            &&& stores == stores_after(end.stores, end.waiting[0])
        },
    }
}

proof fn stores_extend<
    H: Fn(&Subscription, &Event, &Projection) -> Vec<EventKind>,
    R: Fn(&Event, &Projection, &EpistemicStore) -> Vec<EventKind>,
    X: Fn(&Event, &Projection, &EpistemicStore, &ActionStore) -> Vec<EventKind>,
    M: Fn() -> Stamp,
>(
    config: CascadeConfig,
    agents: (PolicyAgent, OutcomeAgent),
    subscriptions: Seq<SubscriptionModel>,
    handle: H,
    react: R,
    reflexes: X,
    mint: M,
    start: CascadeState<Stores>,
    batches: Seq<Seq<Reaction>>,
    batch: Seq<Reaction>,
)
    requires
        stores_history(config, agents, subscriptions, handle, react, reflexes, mint, start, batches),
        stores_step(config, agents, subscriptions, handle, react, reflexes, mint, stores_run(start, batches), batch),
    ensures
        stores_history(config, agents, subscriptions, handle, react, reflexes, mint, start, batches.push(batch)),
        ({
            let state = stores_run(start, batches);
            let event = state.waiting[0];
            stores_run(start, batches.push(batch)) == state.advanced(
                stores_after(state.stores, event),
                changes_graph(state.stores.graph, event.kind),
                batch,
            )
        }),
{
    let next = batches.push(batch);
    assert(next.drop_last() =~= batches);
    assert forall|k: int| 0 <= k < next.len() implies stores_step(
        config,
        agents,
        subscriptions,
        handle,
        react,
        reflexes,
        mint,
        stores_run(start, next.take(k)),
        #[trigger] next[k],
    ) by {
        if k < batches.len() {
            assert(next.take(k) =~= batches.take(k));
            assert(next[k] == batches[k]);
        } else {
            assert(next.take(k) =~= batches);
        }
    }
}

/// The stores that a cascade works on.
pub open spec fn all_stores(
    projection: Projection,
    epistemic_store: EpistemicStore,
    action_store: ActionStore,
    policy_store: PolicyStore,
) -> Stores {
    Stores { graph: projection@, beliefs: epistemic_store@, actions: action_store@, policies: policy_store@ }
}

#[verifier::opaque]
spec fn in_order(
    projection: Projection,
    epistemic_store: EpistemicStore,
    action_store: ActionStore,
    policy_store: PolicyStore,
) -> bool {
    projection.inv() && epistemic_store.inv() && action_store.inv() && policy_store.inv()
}

fn apply_to_all(
    event: &Event,
    projection: &mut Projection,
    epistemic_store: &mut EpistemicStore,
    action_store: &mut ActionStore,
    policy_store: &mut PolicyStore,
) -> (r: Result<bool, HydraError>)
    requires
        in_order(*old(projection), *old(epistemic_store), *old(action_store), *old(policy_store)),
    ensures
        in_order(*final(projection), *final(epistemic_store), *final(action_store), *final(policy_store)),
        ({
            let before = all_stores(*old(projection), *old(epistemic_store), *old(action_store), *old(policy_store));
            &&& all_stores(*final(projection), *final(epistemic_store), *final(action_store), *final(policy_store))
                == stores_after(before, event@)
            &&& match r {
                Ok(changed) => stores_refusal(before, event@) is None && changed == changes_graph(
                    before.graph,
                    event.kind,
                ),
                Err(e) => stores_refusal(before, event@) == Some(e@),
            }
        }),
{
    reveal(in_order);
    let changed = match projection.apply(event) {
        Ok(changed) => changed,
        Err(e) => {
            return Err(e);
        },
    };
    match epistemic_store.apply_event(event) {
        Ok(_) => {},
        Err(e) => {
            return Err(e);
        },
    }
    match action_store.apply_event(event) {
        Ok(_) => {},
        Err(e) => {
            return Err(e);
        },
    }
    match policy_store.apply_event(event) {
        Ok(_) => {},
        Err(e) => {
            return Err(e);
        },
    }
    Ok(changed)
}

fn gather<
    H: Fn(&Subscription, &Event, &Projection) -> Vec<EventKind>,
    R: Fn(&Event, &Projection, &EpistemicStore) -> Vec<EventKind>,
    X: Fn(&Event, &Projection, &EpistemicStore, &ActionStore) -> Vec<EventKind>,
    M: Fn() -> Stamp,
>(
    event: &Event,
    projection: &Projection,
    epistemic_store: &EpistemicStore,
    action_store: &ActionStore,
    policy_store: &PolicyStore,
    policy_engine: &PolicyEngine,
    policy_agent: &PolicyAgent,
    outcome_agent: &OutcomeAgent,
    registry: &SubscriptionRegistry,
    handle: &H,
    react: &R,
    reflexes: &X,
    mint: &M,
) -> (r: (Vec<EventKind>, Vec<SubscriptionId>, Ghost<Gathered>))
    requires
        in_order(*projection, *epistemic_store, *action_store, *policy_store),
        forall|s: &Subscription, e: &Event, p: &Projection| #[trigger] call_requires(*handle, (s, e, p)),
        forall|e: &Event, p: &Projection, b: &EpistemicStore| #[trigger] call_requires(*react, (e, p, b)),
        forall|e: &Event, p: &Projection, b: &EpistemicStore, a: &ActionStore| #[trigger]
            call_requires(*reflexes, (e, p, b, a)),
        call_requires(*mint, ()),
    ensures
        from_sources(
            (*policy_agent, *outcome_agent),
            registry@,
            *handle,
            *react,
            *reflexes,
            *mint,
            event@,
            all_stores(*projection, *epistemic_store, *action_store, *policy_store),
            r.2@,
        ),
        r.0@ == r.2@.subscribed + r.2@.first + r.2@.policy + r.2@.outcome + r.2@.last,
        texts(r.1@) == r.2@.subscribers,
{
    reveal(in_order);
    let ghost stores = all_stores(*projection, *epistemic_store, *action_store, *policy_store);
    let (subscribed, by) = registry.reactions(event, projection, handle);
    let first = react(event, projection, epistemic_store);
    let ghost given_first = first;
    let one = mint();
    let two = mint();
    let ghost (g1, g2) = (one, two);
    let policy_mint = PolicyMint { decision_id: one.id, approval_id: two.id, now: one.timestamp };
    let ghost given_mint = policy_mint;
    let policy = policy_agent.react(event, action_store, policy_store, policy_engine, policy_mint);
    let stamp = mint();
    let ghost given_stamp = stamp;
    let outcome = outcome_agent.react(event, action_store, stamp);
    let last = reflexes(event, projection, epistemic_store, action_store);
    let ghost given_last = last;
    let ghost parts = Gathered {
        subscribed: subscribed@,
        subscribers: texts(by@),
        first: first@,
        policy: policy@,
        outcome: outcome@,
        last: last@,
        policy_mint: given_mint,
        outcome_stamp: given_stamp,
    };
    proof {
        assert(call_ensures(*react, (event, projection, epistemic_store), given_first));
        assert(given_by_agents(*react, event@, stores, parts.first));
        assert(call_ensures(*mint, (), g1));
        assert(call_ensures(*mint, (), g2));
        assert(minted(*mint, given_mint));
        assert(call_ensures(*reflexes, (event, projection, epistemic_store, action_store), given_last));
        assert(given_by_reflexes(*reflexes, event@, stores, parts.last));
    }
    let mut kinds = subscribed;
    let mut first = first;
    let mut policy = policy;
    let mut outcome = outcome;
    let mut last = last;
    kinds.append(&mut first);
    kinds.append(&mut policy);
    kinds.append(&mut outcome);
    kinds.append(&mut last);
    (kinds, by, Ghost(parts))
}

fn react_to_all<
    H: Fn(&Subscription, &Event, &Projection) -> Vec<EventKind>,
    R: Fn(&Event, &Projection, &EpistemicStore) -> Vec<EventKind>,
    X: Fn(&Event, &Projection, &EpistemicStore, &ActionStore) -> Vec<EventKind>,
    M: Fn() -> Stamp,
>(
    events: &mut Vec<Event>,
    sources: &mut Vec<Option<SubscriptionId>>,
    head: usize,
    projection: &Projection,
    epistemic_store: &EpistemicStore,
    action_store: &ActionStore,
    policy_store: &PolicyStore,
    policy_engine: &PolicyEngine,
    policy_agent: &PolicyAgent,
    outcome_agent: &OutcomeAgent,
    registry: &SubscriptionRegistry,
    handle: &H,
    react: &R,
    reflexes: &X,
    mint: &M,
) -> (r: Ghost<Seq<Reaction>>)
    requires
        head < old(events)@.len(),
        old(events)@[head as int].cascade_depth < u32::MAX,
        in_order(*projection, *epistemic_store, *action_store, *policy_store),
        forall|s: &Subscription, e: &Event, p: &Projection| #[trigger] call_requires(*handle, (s, e, p)),
        forall|e: &Event, p: &Projection, b: &EpistemicStore| #[trigger] call_requires(*react, (e, p, b)),
        forall|e: &Event, p: &Projection, b: &EpistemicStore, a: &ActionStore| #[trigger]
            call_requires(*reflexes, (e, p, b, a)),
        call_requires(*mint, ()),
    ensures
        all_handled(
            (*policy_agent, *outcome_agent),
            registry@,
            *handle,
            *react,
            *reflexes,
            *mint,
            old(events)@[head as int]@,
            all_stores(*projection, *epistemic_store, *action_store, *policy_store),
            r@,
        ),
        event_models(final(events)@) == event_models(old(events)@) + reaction_events(old(events)@[head as int]@, r@),
        producers(final(sources)@) == producers(old(sources)@) + reaction_producers(r@),
{
    let ghost before = event_models(events@);
    let ghost before_by = producers(sources@);
    let (kinds, by, Ghost(parts)) = gather(
        &events[head],
        projection,
        epistemic_store,
        action_store,
        policy_store,
        policy_engine,
        policy_agent,
        outcome_agent,
        registry,
        handle,
        react,
        reflexes,
        mint,
    );
    let (reactions, reactors, Ghost(batch)) = wrap(&events[head], kinds, &by, mint);
    let mut reactions = reactions;
    let mut reactors = reactors;
    let ghost fresh = event_models(reactions@);
    let ghost fresh_by = producers(reactors@);
    events.append(&mut reactions);
    sources.append(&mut reactors);
    assert(event_models(events@) =~= before + fresh);
    assert(producers(sources@) =~= before_by + fresh_by);
    Ghost(batch)
}

/// The step from a state, within the limits, on all stores.
#[verifier::opaque]
spec fn stores_stepped<
    H: Fn(&Subscription, &Event, &Projection) -> Vec<EventKind>,
    R: Fn(&Event, &Projection, &EpistemicStore) -> Vec<EventKind>,
    X: Fn(&Event, &Projection, &EpistemicStore, &ActionStore) -> Vec<EventKind>,
    M: Fn() -> Stamp,
>(
    config: CascadeConfig,
    agents: (PolicyAgent, OutcomeAgent),
    subscriptions: Seq<SubscriptionModel>,
    handle: H,
    react: R,
    reflexes: X,
    mint: M,
    state: CascadeState<Stores>,
    batch: Seq<Reaction>,
    next: CascadeState<Stores>,
) -> bool {
    let event = state.waiting[0];
    &&& stores_step(config, agents, subscriptions, handle, react, reflexes, mint, state, batch)
    &&& next == state.advanced(
        stores_after(state.stores, event),
        changes_graph(state.stores.graph, event.kind),
        batch,
    )
}

/// The end of a cascade on stores that refuse an event.
#[verifier::opaque]
spec fn stores_refused(config: CascadeConfig, state: CascadeState<Stores>, error: ErrorModel, stores: Stores) -> bool {
    &&& state.goes_on(config)
    &&& stores_refusal(state.stores, state.waiting[0]) == Some(error)
    &&& stores == stores_after(state.stores, state.waiting[0])
}

/// The parts of a cascade under way on all stores belong to the state.
#[verifier::opaque]
spec fn stores_stand(
    config: CascadeConfig,
    state: CascadeState<Stores>,
    events: Seq<Event>,
    sources: Seq<Option<SubscriptionId>>,
    head: int,
    mutations: int,
    deepest: int,
    projection: Projection,
    epistemic_store: EpistemicStore,
    action_store: ActionStore,
    policy_store: PolicyStore,
) -> bool {
    &&& tracks(state, events, sources, head, mutations, deepest)
    &&& in_order(projection, epistemic_store, action_store, policy_store)
    &&& all_stores(projection, epistemic_store, action_store, policy_store) == state.stores
    &&& head <= config.max_events
}

fn step_on_stores<
    H: Fn(&Subscription, &Event, &Projection) -> Vec<EventKind>,
    R: Fn(&Event, &Projection, &EpistemicStore) -> Vec<EventKind>,
    X: Fn(&Event, &Projection, &EpistemicStore, &ActionStore) -> Vec<EventKind>,
    M: Fn() -> Stamp,
>(
    config: CascadeConfig,
    events: &mut Vec<Event>,
    sources: &mut Vec<Option<SubscriptionId>>,
    head: usize,
    mutations: usize,
    deepest: u32,
    projection: &mut Projection,
    epistemic_store: &mut EpistemicStore,
    action_store: &mut ActionStore,
    policy_store: &mut PolicyStore,
    policy_engine: &PolicyEngine,
    policy_agent: &PolicyAgent,
    outcome_agent: &OutcomeAgent,
    registry: &SubscriptionRegistry,
    handle: &H,
    react: &R,
    reflexes: &X,
    mint: &M,
    Ghost(state): Ghost<CascadeState<Stores>>,
) -> (r: Result<(bool, u32, Ghost<Seq<Reaction>>, Ghost<CascadeState<Stores>>), HydraError>)
    requires
        stores_stand(
            config,
            state,
            old(events)@,
            old(sources)@,
            head as int,
            mutations as int,
            deepest as int,
            *old(projection),
            *old(epistemic_store),
            *old(action_store),
            *old(policy_store),
        ),
        head < old(events)@.len(),
        state.goes_on(config),
        old(events)@[head as int].cascade_depth < u32::MAX,
        forall|s: &Subscription, e: &Event, p: &Projection| #[trigger] call_requires(*handle, (s, e, p)),
        forall|e: &Event, p: &Projection, b: &EpistemicStore| #[trigger] call_requires(*react, (e, p, b)),
        forall|e: &Event, p: &Projection, b: &EpistemicStore, a: &ActionStore| #[trigger]
            call_requires(*reflexes, (e, p, b, a)),
        call_requires(*mint, ()),
    ensures
        in_order(*final(projection), *final(epistemic_store), *final(action_store), *final(policy_store)),
        match r {
            Ok((changed, depth, batch, next)) => {
                &&& stores_stepped(
                    config,
                    (*policy_agent, *outcome_agent),
                    registry@,
                    *handle,
                    *react,
                    *reflexes,
                    *mint,
                    state,
                    batch@,
                    next@,
                )
                &&& stores_stand(
                    config,
                    next@,
                    final(events)@,
                    final(sources)@,
                    head + 1,
                    if changed {
                        mutations + 1
                    } else {
                        mutations as int
                    },
                    depth as int,
                    *final(projection),
                    *final(epistemic_store),
                    *final(action_store),
                    *final(policy_store),
                )
            },
            Err(e) => stores_refused(
                config,
                state,
                e@,
                all_stores(*final(projection), *final(epistemic_store), *final(action_store), *final(policy_store)),
            ),
        },
{
    reveal(stores_stand);
    let ghost before = events@;
    let ghost before_by = sources@;
    proof {
        tracks_facts(state, events@, sources@, head as int, mutations as int, deepest as int);
    }
    let depth = events[head].cascade_depth;
    let changed = match apply_to_all(&events[head], projection, epistemic_store, action_store, policy_store) {
        Ok(changed) => changed,
        Err(e) => {
            reveal(stores_refused);
            return Err(e);
        },
    };
    let Ghost(batch) = react_to_all(
        events,
        sources,
        head,
        projection,
        epistemic_store,
        action_store,
        policy_store,
        policy_engine,
        policy_agent,
        outcome_agent,
        registry,
        handle,
        react,
        reflexes,
        mint,
    );
    let ghost reached = all_stores(*projection, *epistemic_store, *action_store, *policy_store);
    let ghost next = state.advanced(reached, changed, batch);
    proof {
        reveal(stores_stepped);
        tracks_advance(
            state,
            before,
            before_by,
            head as int,
            mutations as int,
            deepest as int,
            reached,
            changed,
            batch,
            events@,
            sources@,
        );
    }
    let deepest: u32 = if depth > deepest {
        depth
    } else {
        deepest
    };
    Ok((changed, deepest, Ghost(batch), Ghost(next)))
}

proof fn stores_stand_facts(
    config: CascadeConfig,
    state: CascadeState<Stores>,
    events: Seq<Event>,
    sources: Seq<Option<SubscriptionId>>,
    head: int,
    mutations: int,
    deepest: int,
    projection: Projection,
    epistemic_store: EpistemicStore,
    action_store: ActionStore,
    policy_store: PolicyStore,
)
    requires
        stores_stand(
            config,
            state,
            events,
            sources,
            head,
            mutations,
            deepest,
            projection,
            epistemic_store,
            action_store,
            policy_store,
        ),
    ensures
        0 <= head <= events.len(),
        head <= config.max_events,
        state.done.len() == head,
        state.waiting.len() == events.len() - head,
        head < events.len() ==> state.waiting[0] == events[head]@,
        mutations == state.mutations,
        deepest == state.deepest,
        mutations <= head,
        event_models(events.take(head)) == state.done,
        sources.len() == events.len(),
        producers(sources.take(head)) == state.done_by,
        in_order(projection, epistemic_store, action_store, policy_store),
        all_stores(projection, epistemic_store, action_store, policy_store) == state.stores,
{
    reveal(stores_stand);
    tracks_facts(state, events, sources, head, mutations, deepest);
}

/// The states of a cascade on all stores follow one another to the given one.
#[verifier::opaque]
spec fn stores_lead<
    H: Fn(&Subscription, &Event, &Projection) -> Vec<EventKind>,
    R: Fn(&Event, &Projection, &EpistemicStore) -> Vec<EventKind>,
    X: Fn(&Event, &Projection, &EpistemicStore, &ActionStore) -> Vec<EventKind>,
    M: Fn() -> Stamp,
>(
    config: CascadeConfig,
    agents: (PolicyAgent, OutcomeAgent),
    subscriptions: Seq<SubscriptionModel>,
    handle: H,
    react: R,
    reflexes: X,
    mint: M,
    start: CascadeState<Stores>,
    batches: Seq<Seq<Reaction>>,
    state: CascadeState<Stores>,
) -> bool {
    stores_history(config, agents, subscriptions, handle, react, reflexes, mint, start, batches) && stores_run(start, batches) == state
}

proof fn stores_lead_on<
    H: Fn(&Subscription, &Event, &Projection) -> Vec<EventKind>,
    R: Fn(&Event, &Projection, &EpistemicStore) -> Vec<EventKind>,
    X: Fn(&Event, &Projection, &EpistemicStore, &ActionStore) -> Vec<EventKind>,
    M: Fn() -> Stamp,
>(
    config: CascadeConfig,
    agents: (PolicyAgent, OutcomeAgent),
    subscriptions: Seq<SubscriptionModel>,
    handle: H,
    react: R,
    reflexes: X,
    mint: M,
    start: CascadeState<Stores>,
    batches: Seq<Seq<Reaction>>,
    state: CascadeState<Stores>,
    batch: Seq<Reaction>,
    next: CascadeState<Stores>,
)
    requires
        stores_lead(config, agents, subscriptions, handle, react, reflexes, mint, start, batches, state),
        stores_stepped(config, agents, subscriptions, handle, react, reflexes, mint, state, batch, next),
    ensures
        stores_lead(config, agents, subscriptions, handle, react, reflexes, mint, start, batches.push(batch), next),
{
    reveal(stores_lead);
    reveal(stores_stepped);
    stores_extend(config, agents, subscriptions, handle, react, reflexes, mint, start, batches, batch);
}

proof fn stores_stay_shallow<
    H: Fn(&Subscription, &Event, &Projection) -> Vec<EventKind>,
    R: Fn(&Event, &Projection, &EpistemicStore) -> Vec<EventKind>,
    X: Fn(&Event, &Projection, &EpistemicStore, &ActionStore) -> Vec<EventKind>,
    M: Fn() -> Stamp,
>(
    config: CascadeConfig,
    agents: (PolicyAgent, OutcomeAgent),
    subscriptions: Seq<SubscriptionModel>,
    handle: H,
    react: R,
    reflexes: X,
    mint: M,
    state: CascadeState<Stores>,
    batch: Seq<Reaction>,
    next: CascadeState<Stores>,
    depth: nat,
)
    requires
        stores_stepped(config, agents, subscriptions, handle, react, reflexes, mint, state, batch, next),
        shallow(state, depth),
    ensures
        shallow(next, depth),
{
    reveal(stores_stepped);
    let event = state.waiting[0];
    advancing_stays_shallow(
        state,
        stores_after(state.stores, event),
        changes_graph(state.stores.graph, event.kind),
        batch,
        depth,
    );
}

proof fn stores_begin(
    config: CascadeConfig,
    trigger: Event,
    projection: Projection,
    epistemic_store: EpistemicStore,
    action_store: ActionStore,
    policy_store: PolicyStore,
    events: Seq<Event>,
    sources: Seq<Option<SubscriptionId>>,
)
    requires
        events == seq![trigger],
        sources == seq![None::<SubscriptionId>],
        in_order(projection, epistemic_store, action_store, policy_store),
    ensures
        stores_stand(
            config,
            CascadeState::start(trigger@, all_stores(projection, epistemic_store, action_store, policy_store)),
            events,
            sources,
            0,
            0,
            0,
            projection,
            epistemic_store,
            action_store,
            policy_store,
        ),
{
    reveal(stores_stand);
    tracks_start(trigger, all_stores(projection, epistemic_store, action_store, policy_store), events, sources);
}

impl CascadeEngine {
    /// Processes an event and all that it brings about, breadth first, on all stores. Each
    /// event is applied to the graph, the beliefs, the actions and the policies, in this
    /// order; then the handler, for one subscription that asks for it after the other, the
    /// agents of verification and remediation, the policy agent, the outcome agent and the
    /// reflexes say, in this order, what it brings about. A limit ends the cascade, and so
    /// does an event that a store refuses.
    pub fn process_with_epistemics<
        H: Fn(&Subscription, &Event, &Projection) -> Vec<EventKind>,
        R: Fn(&Event, &Projection, &EpistemicStore) -> Vec<EventKind>,
        X: Fn(&Event, &Projection, &EpistemicStore, &ActionStore) -> Vec<EventKind>,
        M: Fn() -> Stamp,
    >(
        &self,
        trigger: Event,
        projection: &mut Projection,
        registry: &SubscriptionRegistry,
        epistemic_store: &mut EpistemicStore,
        action_store: &mut ActionStore,
        policy_store: &mut PolicyStore,
        policy_engine: &PolicyEngine,
        policy_agent: &PolicyAgent,
        outcome_agent: &OutcomeAgent,
        handle: H,
        react: R,
        reflexes: X,
        mint: M,
    ) -> (r: Result<CascadeResult, HydraError>)
        requires
            old(projection).inv(),
            old(epistemic_store).inv(),
            old(action_store).inv(),
            old(policy_store).inv(),
            depths_fit(self.config, trigger.cascade_depth as nat),
            forall|s: &Subscription, e: &Event, p: &Projection| #[trigger] call_requires(handle, (s, e, p)),
            forall|e: &Event, p: &Projection, b: &EpistemicStore| #[trigger] call_requires(react, (e, p, b)),
            forall|e: &Event, p: &Projection, b: &EpistemicStore, a: &ActionStore| #[trigger]
                call_requires(reflexes, (e, p, b, a)),
            call_requires(mint, ()),
        ensures
            final(projection).inv(),
            final(epistemic_store).inv(),
            final(action_store).inv(),
            final(policy_store).inv(),
            ({
                let start = CascadeState::start(
                    trigger@,
                    all_stores(*old(projection), *old(epistemic_store), *old(action_store), *old(policy_store)),
                );
                exists|batches: Seq<Seq<Reaction>>| #[trigger]
                    stores_history(
                        self.config,
                        (*policy_agent, *outcome_agent),
                        registry@,
                        handle,
                        react,
                        reflexes,
                        mint,
                        start,
                        batches,
                    ) && ends_history(
                        r,
                        all_stores(
                            *final(projection),
                            *final(epistemic_store),
                            *final(action_store),
                            *final(policy_store),
                        ),
                        stores_run(start, batches),
                        self.config,
                    )
            }),
    {
        let ghost agents = (*policy_agent, *outcome_agent);
        let ghost start = CascadeState::start(
            trigger@,
            all_stores(*projection, *epistemic_store, *action_store, *policy_store),
        );
        let ghost mut batches: Seq<Seq<Reaction>> = Seq::empty();
        let ghost mut state = start;
        let mut events: Vec<Event> = Vec::new();
        let mut sources: Vec<Option<SubscriptionId>> = Vec::new();
        let ghost first = trigger;
        events.push(trigger);
        sources.push(None);
        let mut head: usize = 0;
        let mut mutations: usize = 0;
        let mut deepest: u32 = 0;
        let mut truncated: bool = false;
        proof {
            assert(events@ =~= seq![first]);
            assert(sources@ =~= seq![None::<SubscriptionId>]);
            reveal(shallow);
            assert(in_order(*projection, *epistemic_store, *action_store, *policy_store)) by {
                reveal(in_order);
            }
            stores_begin(
                self.config,
                first,
                *projection,
                *epistemic_store,
                *action_store,
                *policy_store,
                events@,
                sources@,
            );
            reveal(stores_lead);
        }
        while head < events.len() && !truncated
            invariant
                depths_fit(self.config, first.cascade_depth as nat),
                shallow(state, first.cascade_depth as nat),
                agents == (*policy_agent, *outcome_agent),
                forall|s: &Subscription, e: &Event, p: &Projection| #[trigger] call_requires(handle, (s, e, p)),
                forall|e: &Event, p: &Projection, b: &EpistemicStore| #[trigger] call_requires(react, (e, p, b)),
                forall|e: &Event, p: &Projection, b: &EpistemicStore, a: &ActionStore| #[trigger]
                    call_requires(reflexes, (e, p, b, a)),
                call_requires(mint, ()),
                start == CascadeState::start(
                    trigger@,
                    all_stores(*old(projection), *old(epistemic_store), *old(action_store), *old(policy_store)),
                ),
                head <= self.config.max_events,
                stores_lead(self.config, agents, registry@, handle, react, reflexes, mint, start, batches, state),
                stores_stand(
                    self.config,
                    state,
                    events@,
                    sources@,
                    head as int,
                    mutations as int,
                    deepest as int,
                    *projection,
                    *epistemic_store,
                    *action_store,
                    *policy_store,
                ),
                truncated ==> head < events@.len() && !state.goes_on(self.config),
            decreases self.config.max_events - head + (if truncated { 0int } else { 1int }),
        {
            proof {
                stores_stand_facts(
                    self.config,
                    state,
                    events@,
                    sources@,
                    head as int,
                    mutations as int,
                    deepest as int,
                    *projection,
                    *epistemic_store,
                    *action_store,
                    *policy_store,
                );
            }
            if events[head].cascade_depth > self.config.max_depth || head >= self.config.max_events {
                truncated = true;
            } else {
                assert(events@[head as int].cascade_depth < u32::MAX) by {
                    reveal(shallow);
                }
                match step_on_stores(
                    self.config,
                    &mut events,
                    &mut sources,
                    head,
                    mutations,
                    deepest,
                    projection,
                    epistemic_store,
                    action_store,
                    policy_store,
                    policy_engine,
                    policy_agent,
                    outcome_agent,
                    registry,
                    &handle,
                    &react,
                    &reflexes,
                    &mint,
                    Ghost(state),
                ) {
                    Ok((changed, depth, batch, next)) => {
                        proof {
                            stores_stay_shallow(
                                self.config,
                                agents,
                                registry@,
                                handle,
                                react,
                                reflexes,
                                mint,
                                state,
                                batch@,
                                next@,
                                first.cascade_depth as nat,
                            );
                            stores_lead_on(
                                self.config,
                                agents,
                                registry@,
                                handle,
                                react,
                                reflexes,
                                mint,
                                start,
                                batches,
                                state,
                                batch@,
                                next@,
                            );
                            batches = batches.push(batch@);
                            state = next@;
                        }
                        if changed {
                            mutations += 1;
                        }
                        deepest = depth;
                        head += 1;
                    },
                    Err(e) => {
                        proof {
                            reveal(stores_lead);
                            reveal(stores_refused);
                            reveal(in_order);
                        }
                        return Err(e);
                    },
                }
            }
        }
        proof {
            stores_stand_facts(
                self.config,
                state,
                events@,
                sources@,
                head as int,
                mutations as int,
                deepest as int,
                *projection,
                *epistemic_store,
                *action_store,
                *policy_store,
            );
            reveal(stores_lead);
            reveal(in_order);
        }
        events.truncate(head);
        sources.truncate(head);
        Ok(CascadeResult { events, mutations, max_depth_reached: deepest, truncated, produced_by: sources })
    }

    /// Processes what happened as the trigger of a new cascade on all stores.
    pub fn trigger_with_epistemics<
        H: Fn(&Subscription, &Event, &Projection) -> Vec<EventKind>,
        R: Fn(&Event, &Projection, &EpistemicStore) -> Vec<EventKind>,
        X: Fn(&Event, &Projection, &EpistemicStore, &ActionStore) -> Vec<EventKind>,
        M: Fn() -> Stamp,
    >(
        &self,
        kind: EventKind,
        stamp: Stamp,
        cascade_id: CascadeId,
        projection: &mut Projection,
        registry: &SubscriptionRegistry,
        epistemic_store: &mut EpistemicStore,
        action_store: &mut ActionStore,
        policy_store: &mut PolicyStore,
        policy_engine: &PolicyEngine,
        policy_agent: &PolicyAgent,
        outcome_agent: &OutcomeAgent,
        handle: H,
        react: R,
        reflexes: X,
        mint: M,
    ) -> (r: Result<CascadeResult, HydraError>)
        requires
            old(projection).inv(),
            old(epistemic_store).inv(),
            old(action_store).inv(),
            old(policy_store).inv(),
            depths_fit(self.config, 0),
            forall|s: &Subscription, e: &Event, p: &Projection| #[trigger] call_requires(handle, (s, e, p)),
            forall|e: &Event, p: &Projection, b: &EpistemicStore| #[trigger] call_requires(react, (e, p, b)),
            forall|e: &Event, p: &Projection, b: &EpistemicStore, a: &ActionStore| #[trigger]
                call_requires(reflexes, (e, p, b, a)),
            call_requires(mint, ()),
        ensures
            final(projection).inv(),
            final(epistemic_store).inv(),
            final(action_store).inv(),
            final(policy_store).inv(),
            ({
                let start = CascadeState::start(
                    EventModel::starting(kind, stamp, cascade_id@),
                    all_stores(*old(projection), *old(epistemic_store), *old(action_store), *old(policy_store)),
                );
                exists|batches: Seq<Seq<Reaction>>| #[trigger]
                    stores_history(
                        self.config,
                        (*policy_agent, *outcome_agent),
                        registry@,
                        handle,
                        react,
                        reflexes,
                        mint,
                        start,
                        batches,
                    ) && ends_history(
                        r,
                        all_stores(
                            *final(projection),
                            *final(epistemic_store),
                            *final(action_store),
                            *final(policy_store),
                        ),
                        stores_run(start, batches),
                        self.config,
                    )
            }),
    {
        self.process_with_epistemics(
            Event::trigger(kind, stamp, cascade_id),
            projection,
            registry,
            epistemic_store,
            action_store,
            policy_store,
            policy_engine,
            policy_agent,
            outcome_agent,
            handle,
            react,
            reflexes,
            mint,
        )
    }
}

/// Every event but the first was brought about by one processed before it, and lies one
/// level deeper in the same cascade; the depths never fall.
pub open spec fn breadth_first_order(trigger: EventModel, events: Seq<EventModel>) -> bool {
    &&& events.len() > 0 ==> events[0] == trigger
    &&& forall|i: int| 0 < i < events.len() ==> has_parent(#[trigger] events[i], events.take(i))
    &&& forall|i: int, j: int|
        0 <= i < j < events.len() ==> (#[trigger] events[i]).cascade_depth <= (#[trigger] events[j]).cascade_depth
}

/// Whether one of the earlier events brought the event about.
pub open spec fn has_parent(event: EventModel, earlier: Seq<EventModel>) -> bool {
    exists|j: int| 0 <= j < earlier.len() && #[trigger] is_child(event, earlier[j])
}

/// Whether the one event brought the other about: it is its only cause, and lies one level
/// above in the same cascade.
pub open spec fn is_child(event: EventModel, parent: EventModel) -> bool {
    &&& event.caused_by == seq![parent.id]
    &&& event.cascade_id == parent.cascade_id
    &&& event.cascade_depth == parent.cascade_depth + 1
    &&& event.tenant_id == parent.tenant_id
}

spec fn sound_state<S>(trigger: EventModel, state: CascadeState<S>, config: CascadeConfig) -> bool {
    let all = state.done + state.waiting;
    &&& all.len() > 0
    &&& breadth_first_order(trigger, all)
    &&& state.done.len() <= config.max_events
    &&& forall|i: int| 0 <= i < state.done.len() ==> (#[trigger] state.done[i]).cascade_depth <= config.max_depth
    &&& forall|i: int| 0 <= i < all.len() && state.waiting.len() > 0 ==> (#[trigger] all[i]).cascade_depth
        <= state.waiting[0].cascade_depth + 1
    &&& state.mutations <= state.done.len()
    &&& state.deepest == greatest_depth(state.done)
}

proof fn advancing_is_sound<S>(
    trigger: EventModel,
    state: CascadeState<S>,
    config: CascadeConfig,
    stores: S,
    changed: bool,
    reactions: Seq<Reaction>,
)
    requires
        sound_state(trigger, state, config),
        state.goes_on(config),
    ensures
        sound_state(trigger, state.advanced(stores, changed, reactions), config),
{
    let next = state.advanced(stores, changed, reactions);
    let event = state.waiting[0];
    let fresh = reaction_events(event, reactions);
    let all = state.done + state.waiting;
    let grown = next.done + next.waiting;
    assert(grown =~= all + fresh);
    let at = state.done.len() as int;
    assert(all[at] == event);
    assert(next.done.drop_last() =~= state.done);
    assert forall|i: int| 0 < i < grown.len() implies has_parent(#[trigger] grown[i], grown.take(i)) by {
        if i < all.len() {
            assert(grown[i] == all[i]);
            assert(grown.take(i) =~= all.take(i));
        } else {
            assert(grown[i] == fresh[i - all.len()]);
            assert(grown.take(i)[at] == event);
            assert(is_child(grown[i], grown.take(i)[at]));
        }
    }
    assert forall|i: int, j: int| 0 <= i < j < grown.len() implies (#[trigger] grown[i]).cascade_depth <= (
    #[trigger] grown[j]).cascade_depth by {
        if j < all.len() {
            assert(grown[i] == all[i] && grown[j] == all[j]);
        } else {
            assert(grown[j] == fresh[j - all.len()]);
            if i < all.len() {
                assert(grown[i] == all[i]);
            } else {
                assert(grown[i] == fresh[i - all.len()]);
            }
        }
    }
    assert forall|i: int| 0 <= i < next.done.len() implies (#[trigger] next.done[i]).cascade_depth <= config.max_depth by {
        if i < state.done.len() {
            assert(next.done[i] == state.done[i]);
        }
    }
    if next.waiting.len() > 0 {
        assert(next.waiting[0] == grown[at + 1]);
        assert(grown[at] == event);
        assert forall|i: int| 0 <= i < grown.len() implies (#[trigger] grown[i]).cascade_depth
            <= next.waiting[0].cascade_depth + 1 by {
            assert(grown[at].cascade_depth <= grown[at + 1].cascade_depth);
            if i < all.len() {
                assert(grown[i] == all[i]);
            } else {
                assert(grown[i] == fresh[i - all.len()]);
            }
        }
    }
    assert(grown[0] == all[0]);
}

proof fn starting_is_sound<S>(trigger: EventModel, stores: S, config: CascadeConfig)
    ensures
        sound_state(trigger, CascadeState::start(trigger, stores), config),
{
    let state = CascadeState::start(trigger, stores);
    assert(state.done + state.waiting =~= seq![trigger]);
}

proof fn graph_run_is_sound<H: Fn(&Subscription, &Event, &Projection) -> Vec<EventKind>, M: Fn() -> Stamp>(
    config: CascadeConfig,
    subscriptions: Seq<SubscriptionModel>,
    handle: H,
    mint: M,
    trigger: EventModel,
    graph: GraphModel,
    batches: Seq<Seq<Reaction>>,
)
    requires
        graph_history(config, subscriptions, handle, mint, CascadeState::start(trigger, graph), batches),
    ensures
        sound_state(trigger, graph_run(CascadeState::start(trigger, graph), batches), config),
    decreases batches.len(),
{
    let start = CascadeState::start(trigger, graph);
    if batches.len() == 0 {
        starting_is_sound(trigger, graph, config);
    } else {
        let fewer = batches.drop_last();
        assert forall|k: int| 0 <= k < fewer.len() implies graph_step(
            config,
            subscriptions,
            handle,
            mint,
            graph_run(start, fewer.take(k)),
            #[trigger] fewer[k],
        ) by {
            assert(fewer.take(k) =~= batches.take(k));
            assert(fewer[k] == batches[k]);
        }
        graph_run_is_sound(config, subscriptions, handle, mint, trigger, graph, fewer);
        assert(batches.take(batches.len() - 1) =~= fewer);
        assert(batches[batches.len() - 1] == batches.last());
        let before = graph_run(start, fewer);
        assert(before.goes_on(config));
        let kind = before.waiting[0].kind;
        advancing_is_sound(
            trigger,
            before,
            config,
            before.stores.after(kind),
            changes_graph(before.stores, kind),
            batches.last(),
        );
    }
}

proof fn stores_run_is_sound<
    H: Fn(&Subscription, &Event, &Projection) -> Vec<EventKind>,
    R: Fn(&Event, &Projection, &EpistemicStore) -> Vec<EventKind>,
    X: Fn(&Event, &Projection, &EpistemicStore, &ActionStore) -> Vec<EventKind>,
    M: Fn() -> Stamp,
>(
    config: CascadeConfig,
    agents: (PolicyAgent, OutcomeAgent),
    subscriptions: Seq<SubscriptionModel>,
    handle: H,
    react: R,
    reflexes: X,
    mint: M,
    trigger: EventModel,
    stores: Stores,
    batches: Seq<Seq<Reaction>>,
)
    requires
        stores_history(config, agents, subscriptions, handle, react, reflexes, mint, CascadeState::start(trigger, stores), batches),
    ensures
        sound_state(trigger, stores_run(CascadeState::start(trigger, stores), batches), config),
    decreases batches.len(),
{
    let start = CascadeState::start(trigger, stores);
    if batches.len() == 0 {
        starting_is_sound(trigger, stores, config);
    } else {
        let fewer = batches.drop_last();
        assert forall|k: int| 0 <= k < fewer.len() implies stores_step(
            config,
            agents,
            subscriptions,
            handle,
            react,
            reflexes,
            mint,
            stores_run(start, fewer.take(k)),
            #[trigger] fewer[k],
        ) by {
            assert(fewer.take(k) =~= batches.take(k));
            assert(fewer[k] == batches[k]);
        }
        stores_run_is_sound(config, agents, subscriptions, handle, react, reflexes, mint, trigger, stores, fewer);
        assert(batches.take(batches.len() - 1) =~= fewer);
        assert(batches[batches.len() - 1] == batches.last());
        let before = stores_run(start, fewer);
        assert(before.goes_on(config));
        let event = before.waiting[0];
        advancing_is_sound(
            trigger,
            before,
            config,
            stores_after(before.stores, event),
            changes_graph(before.stores.graph, event.kind),
            batches.last(),
        );
    }
}

/// A finished cascade on a graph keeps its limits and its order: it has at most the
/// greatest number of events, none deeper than the greatest depth, the trigger first, and
/// every other brought about by an earlier one, breadth first.
pub proof fn law_cascades_are_bounded_and_ordered<H: Fn(&Subscription, &Event, &Projection) -> Vec<EventKind>, M: Fn() -> Stamp>(
    config: CascadeConfig,
    subscriptions: Seq<SubscriptionModel>,
    handle: H,
    mint: M,
    trigger: EventModel,
    graph: GraphModel,
    batches: Seq<Seq<Reaction>>,
    r: CascadeResult,
)
    requires
        graph_history(config, subscriptions, handle, mint, CascadeState::start(trigger, graph), batches),
        reports(r, graph_run(CascadeState::start(trigger, graph), batches), config),
    ensures
        r.events@.len() <= config.max_events,
        r.mutations <= r.events@.len(),
        r.max_depth_reached == greatest_depth(event_models(r.events@)),
        forall|i: int| 0 <= i < r.events@.len() ==> (#[trigger] event_models(r.events@)[i]).cascade_depth <= config.max_depth,
        breadth_first_order(trigger, event_models(r.events@)),
{
    graph_run_is_sound(config, subscriptions, handle, mint, trigger, graph, batches);
    ordered_prefix(trigger, graph_run(CascadeState::start(trigger, graph), batches), config);
}

/// A finished cascade on all stores keeps its limits and its order in the same way.
pub proof fn law_epistemic_cascades_are_bounded_and_ordered<
    H: Fn(&Subscription, &Event, &Projection) -> Vec<EventKind>,
    R: Fn(&Event, &Projection, &EpistemicStore) -> Vec<EventKind>,
    X: Fn(&Event, &Projection, &EpistemicStore, &ActionStore) -> Vec<EventKind>,
    M: Fn() -> Stamp,
>(
    config: CascadeConfig,
    agents: (PolicyAgent, OutcomeAgent),
    subscriptions: Seq<SubscriptionModel>,
    handle: H,
    react: R,
    reflexes: X,
    mint: M,
    trigger: EventModel,
    stores: Stores,
    batches: Seq<Seq<Reaction>>,
    r: CascadeResult,
)
    requires
        stores_history(config, agents, subscriptions, handle, react, reflexes, mint, CascadeState::start(trigger, stores), batches),
        reports(r, stores_run(CascadeState::start(trigger, stores), batches), config),
    ensures
        r.events@.len() <= config.max_events,
        r.mutations <= r.events@.len(),
        r.max_depth_reached == greatest_depth(event_models(r.events@)),
        forall|i: int| 0 <= i < r.events@.len() ==> (#[trigger] event_models(r.events@)[i]).cascade_depth <= config.max_depth,
        breadth_first_order(trigger, event_models(r.events@)),
{
    stores_run_is_sound(config, agents, subscriptions, handle, react, reflexes, mint, trigger, stores, batches);
    ordered_prefix(trigger, stores_run(CascadeState::start(trigger, stores), batches), config);
}

proof fn ordered_prefix<S>(trigger: EventModel, state: CascadeState<S>, config: CascadeConfig)
    requires
        sound_state(trigger, state, config),
    ensures
        breadth_first_order(trigger, state.done),
{
    let all = state.done + state.waiting;
    assert forall|i: int| 0 < i < state.done.len() implies has_parent(#[trigger] state.done[i], state.done.take(i)) by {
        assert(all[i] == state.done[i]);
        assert(all.take(i) =~= state.done.take(i));
    }
    assert forall|i: int, j: int| 0 <= i < j < state.done.len() implies (#[trigger] state.done[i]).cascade_depth <= (
    #[trigger] state.done[j]).cascade_depth by {
        assert(all[i] == state.done[i] && all[j] == state.done[j]);
    }
    if state.done.len() > 0 {
        assert(all[0] == state.done[0]);
    }
}

proof fn unasked_events_get_no_answer<H: Fn(&Subscription, &Event, &Projection) -> Vec<EventKind>>(
    subscriptions: Seq<SubscriptionModel>,
    handle: H,
    event: EventModel,
    graph: GraphModel,
    kinds: Seq<EventKind>,
    by: Seq<Seq<char>>,
)
    requires
        answered(subscriptions, handle, event, graph, kinds, by),
        asking(subscriptions, event.kind).len() == 0,
    ensures
        kinds.len() == 0,
{
    let asked = asking(subscriptions, event.kind);
    let (s, e, p, b): (Seq<&Subscription>, &Event, &Projection, Seq<Vec<EventKind>>) =
        choose|s: Seq<&Subscription>, e: &Event, p: &Projection, b: Seq<Vec<EventKind>>|
        {
            &&& #[trigger] served(handle, s, e, p, b)
            &&& e@ == event
            &&& p@ == graph
            &&& borrowed_subscriptions(s) == asked
            &&& kinds == gathered(b)
            &&& by == credited(asked, b)
        };
    assert(borrowed_subscriptions(s).len() == s.len());
}

proof fn unasked_events_bring_nothing_about<
    H: Fn(&Subscription, &Event, &Projection) -> Vec<EventKind>,
    M: Fn() -> Stamp,
>(
    config: CascadeConfig,
    subscriptions: Seq<SubscriptionModel>,
    handle: H,
    mint: M,
    state: CascadeState<GraphModel>,
    batch: Seq<Reaction>,
)
    requires
        graph_step(config, subscriptions, handle, mint, state, batch),
        asking(subscriptions, state.waiting[0].kind).len() == 0,
    ensures
        batch.len() == 0,
{
    let event = state.waiting[0];
    let after = state.stores.after(event.kind);
    let (kinds, by): (Seq<EventKind>, Seq<Seq<char>>) = choose|kinds: Seq<EventKind>, by: Seq<Seq<char>>| #[trigger]
        answered(subscriptions, handle, event, after, kinds, by) && stamped(batch, kinds, by, mint);
    unasked_events_get_no_answer(subscriptions, handle, event, after, kinds, by);
}

proof fn one_step_without_reactions(trigger: EventModel, graph: GraphModel, batch: Seq<Reaction>)
    requires
        batch.len() == 0,
    ensures
        ({
            let end = graph_run(CascadeState::start(trigger, graph), seq![batch]);
            &&& end.done == seq![trigger]
            &&& end.waiting.len() == 0
            &&& end.stores == graph.after(trigger.kind)
        }),
{
    let start = CascadeState::start(trigger, graph);
    assert(seq![batch].drop_last() =~= Seq::<Seq<Reaction>>::empty());
    assert(graph_run(start, Seq::empty()) == start);
    let end = graph_run(start, seq![batch]);
    assert(end.done =~= seq![trigger]);
}

/// A trigger that no subscription asks for is the whole of its cascade, where the limits and
/// the graph let it be processed.
pub proof fn law_unasked_triggers_stay_alone<
    H: Fn(&Subscription, &Event, &Projection) -> Vec<EventKind>,
    M: Fn() -> Stamp,
>(
    config: CascadeConfig,
    subscriptions: Seq<SubscriptionModel>,
    handle: H,
    mint: M,
    trigger: EventModel,
    graph: GraphModel,
    batches: Seq<Seq<Reaction>>,
)
    requires
        graph_history(config, subscriptions, handle, mint, CascadeState::start(trigger, graph), batches),
        has_ended(config, graph_run(CascadeState::start(trigger, graph), batches)),
        asking(subscriptions, trigger.kind).len() == 0,
        trigger.cascade_depth <= config.max_depth,
        config.max_events > 0,
        graph.outcome(trigger.kind) is Ok,
    ensures
        ({
            let end = graph_run(CascadeState::start(trigger, graph), batches);
            &&& end.done == seq![trigger]
            &&& end.waiting.len() == 0
            &&& end.stores == graph.after(trigger.kind)
        }),
{
    let start = CascadeState::start(trigger, graph);
    assert(start.goes_on(config));
    assert(batches.len() > 0);
    assert(batches.take(0) =~= Seq::<Seq<Reaction>>::empty());
    assert(graph_step(config, subscriptions, handle, mint, graph_run(start, batches.take(0)), batches[0]));
    unasked_events_bring_nothing_about(config, subscriptions, handle, mint, start, batches[0]);
    one_step_without_reactions(trigger, graph, batches[0]);
    assert(batches.take(1) =~= seq![batches[0]]);
    if batches.len() > 1 {
        assert(graph_step(config, subscriptions, handle, mint, graph_run(start, batches.take(1)), batches[1]));
    }
    assert(batches.take(1) =~= batches);
}

/// The handler gives the same for the same subscription, event and graph.
pub open spec fn steady<H: Fn(&Subscription, &Event, &Projection) -> Vec<EventKind>>(handle: H) -> bool {
    forall|
        s1: &Subscription,
        e1: &Event,
        p1: &Projection,
        k1: Vec<EventKind>,
        s2: &Subscription,
        e2: &Event,
        p2: &Projection,
        k2: Vec<EventKind>,
    |
        #![trigger call_ensures(handle, (s1, e1, p1), k1), call_ensures(handle, (s2, e2, p2), k2)]
        call_ensures(handle, (s1, e1, p1), k1) && call_ensures(handle, (s2, e2, p2), k2) && s1@ == s2@ && e1@ == e2@
            && p1@ == p2@ ==> k1@ == k2@
}

proof fn gathered_by_contents(list: Seq<SubscriptionModel>, one: Seq<Vec<EventKind>>, other: Seq<Vec<EventKind>>)
    requires
        one.len() == other.len(),
        forall|i: int| 0 <= i < one.len() ==> (#[trigger] one[i])@ == other[i]@,
    ensures
        gathered(one) == gathered(other),
        credited(list, one) == credited(list, other),
    decreases one.len(),
{
    if one.len() > 0 {
        assert forall|i: int| 0 <= i < one.drop_last().len() implies (#[trigger] one.drop_last()[i])@
            == other.drop_last()[i]@ by {
            assert(one.drop_last()[i] == one[i]);
        }
        gathered_by_contents(list, one.drop_last(), other.drop_last());
        assert(one[one.len() - 1]@ == other[one.len() - 1]@);
        assert(credited(list, one) =~= credited(list, other));
    }
}

proof fn answers_agree<H: Fn(&Subscription, &Event, &Projection) -> Vec<EventKind>>(
    subscriptions: Seq<SubscriptionModel>,
    handle: H,
    event: EventModel,
    graph: GraphModel,
    one: Seq<EventKind>,
    one_by: Seq<Seq<char>>,
    other: Seq<EventKind>,
    other_by: Seq<Seq<char>>,
)
    requires
        steady(handle),
        answered(subscriptions, handle, event, graph, one, one_by),
        answered(subscriptions, handle, event, graph, other, other_by),
    ensures
        one == other,
        one_by == other_by,
{
    let asked = asking(subscriptions, event.kind);
    let (s1, e1, p1, b1): (Seq<&Subscription>, &Event, &Projection, Seq<Vec<EventKind>>) =
        choose|s: Seq<&Subscription>, e: &Event, p: &Projection, b: Seq<Vec<EventKind>>|
        {
            &&& #[trigger] served(handle, s, e, p, b)
            &&& e@ == event
            &&& p@ == graph
            &&& borrowed_subscriptions(s) == asked
            &&& one == gathered(b)
            &&& one_by == credited(asked, b)
        };
    let (s2, e2, p2, b2): (Seq<&Subscription>, &Event, &Projection, Seq<Vec<EventKind>>) =
        choose|s: Seq<&Subscription>, e: &Event, p: &Projection, b: Seq<Vec<EventKind>>|
        {
            &&& #[trigger] served(handle, s, e, p, b)
            &&& e@ == event
            &&& p@ == graph
            &&& borrowed_subscriptions(s) == asked
            &&& other == gathered(b)
            &&& other_by == credited(asked, b)
        };
    assert(s1.len() == asked.len() && s2.len() == asked.len());
    assert forall|i: int| 0 <= i < b1.len() implies (#[trigger] b1[i])@ == b2[i]@ by {
        assert(borrowed_subscriptions(s1)[i] == s1[i]@);
        assert(borrowed_subscriptions(s2)[i] == s2[i]@);
        assert(call_ensures(handle, (s1[i], e1, p1), b1[i]));
        assert(call_ensures(handle, (s2[i], e2, p2), b2[i]));
    }
    gathered_by_contents(asked, b1, b2);
}

/// Whether a cascade has come to its end: nothing waits within the limits, or what is next is
/// refused.
pub open spec fn has_ended(config: CascadeConfig, state: CascadeState<GraphModel>) -> bool {
    !state.goes_on(config) || state.stores.outcome(state.waiting[0].kind) is Err
}

/// Both runs give reactions at the same place the same stamp.
pub open spec fn same_stamps(one: Seq<Seq<Reaction>>, other: Seq<Seq<Reaction>>) -> bool {
    forall|k: int, i: int|
        0 <= k < one.len() && k < other.len() && 0 <= i < one[k].len() && i < other[k].len() ==> (
        #[trigger] one[k][i]).stamp == (#[trigger] other[k][i]).stamp
}

proof fn common_batches<H: Fn(&Subscription, &Event, &Projection) -> Vec<EventKind>, M: Fn() -> Stamp>(
    config: CascadeConfig,
    subscriptions: Seq<SubscriptionModel>,
    handle: H,
    mint: M,
    start: CascadeState<GraphModel>,
    one: Seq<Seq<Reaction>>,
    other: Seq<Seq<Reaction>>,
    n: int,
)
    requires
        graph_history(config, subscriptions, handle, mint, start, one),
        graph_history(config, subscriptions, handle, mint, start, other),
        steady(handle),
        same_stamps(one, other),
        0 <= n <= one.len(),
        n <= other.len(),
    ensures
        one.take(n) == other.take(n),
    decreases n,
{
    if n == 0 {
        assert(one.take(0) =~= other.take(0));
    } else {
        let k = n - 1;
        common_batches(config, subscriptions, handle, mint, start, one, other, k);
        let state = graph_run(start, one.take(k));
        assert(graph_step(config, subscriptions, handle, mint, state, one[k]));
        assert(graph_step(config, subscriptions, handle, mint, state, other[k]));
        let event = state.waiting[0];
        let graph = state.stores.after(event.kind);
        let (k1, y1): (Seq<EventKind>, Seq<Seq<char>>) = choose|kinds: Seq<EventKind>, by: Seq<Seq<char>>| #[trigger]
            answered(subscriptions, handle, event, graph, kinds, by) && stamped(one[k], kinds, by, mint);
        let (k2, y2): (Seq<EventKind>, Seq<Seq<char>>) = choose|kinds: Seq<EventKind>, by: Seq<Seq<char>>| #[trigger]
            answered(subscriptions, handle, event, graph, kinds, by) && stamped(other[k], kinds, by, mint);
        answers_agree(subscriptions, handle, event, graph, k1, y1, k2, y2);
        assert forall|i: int| 0 <= i < one[k].len() implies one[k][i] == other[k][i] by {
            assert(one[k][i].kind == k1[i]);
            assert(other[k][i].kind == k2[i]);
            assert(one[k][i].stamp == other[k][i].stamp);
        }
        assert(one[k] =~= other[k]);
        assert(one.take(n) =~= one.take(k).push(one[k]));
        assert(other.take(n) =~= other.take(k).push(other[k]));
    }
}

/// Cascades are deterministic: from the same start, with a handler that gives the same for the
/// same and with the same stamps, they bring about the same events.
pub proof fn law_cascades_are_deterministic<H: Fn(&Subscription, &Event, &Projection) -> Vec<EventKind>, M: Fn() -> Stamp>(
    config: CascadeConfig,
    subscriptions: Seq<SubscriptionModel>,
    handle: H,
    mint: M,
    start: CascadeState<GraphModel>,
    one: Seq<Seq<Reaction>>,
    other: Seq<Seq<Reaction>>,
)
    requires
        graph_history(config, subscriptions, handle, mint, start, one),
        graph_history(config, subscriptions, handle, mint, start, other),
        has_ended(config, graph_run(start, one)),
        has_ended(config, graph_run(start, other)),
        steady(handle),
        same_stamps(one, other),
    ensures
        one == other,
        graph_run(start, one) == graph_run(start, other),
{
    if one.len() <= other.len() {
        common_batches(config, subscriptions, handle, mint, start, one, other, one.len() as int);
        assert(one.take(one.len() as int) =~= one);
        if one.len() < other.len() {
            assert(graph_step(config, subscriptions, handle, mint, graph_run(start, other.take(one.len() as int)), other[one.len() as int]));
        } else {
            assert(other.take(one.len() as int) =~= other);
        }
    } else {
        common_batches(config, subscriptions, handle, mint, start, one, other, other.len() as int);
        assert(other.take(other.len() as int) =~= other);
        assert(graph_step(config, subscriptions, handle, mint, graph_run(start, one.take(other.len() as int)), one[other.len() as int]));
    }
}

/// The event at the position was brought about by the one that `parents` gives for it, and
/// stands behind those before it that this one brought about, with the next breadth index.
pub open spec fn indexed_at(events: Seq<EventModel>, parents: Seq<int>, i: int) -> bool {
    &&& 0 <= parents[i] < i
    &&& parents[i - 1] <= parents[i]
    &&& is_child(events[i], events[parents[i]])
    &&& events[i].cascade_breadth_index == if parents[i] == parents[i - 1] {
        events[i - 1].cascade_breadth_index + 1
    } else {
        0
    }
}

/// What one event brings about stands together and carries the breadth indexes 0, 1, 2 and so
/// on, in order: `parents` gives for each event but the first the position of the one that
/// brought it about.
pub open spec fn breadth_indexed(events: Seq<EventModel>, parents: Seq<int>) -> bool {
    &&& parents.len() == events.len()
    &&& events.len() > 0 ==> parents[0] == -1
    &&& forall|i: int| 0 < i < events.len() ==> #[trigger] indexed_at(events, parents, i)
}

/// No event brings about more than breadth indexes can tell apart.
pub open spec fn batches_fit(batches: Seq<Seq<Reaction>>) -> bool {
    forall|k: int| 0 <= k < batches.len() ==> (#[trigger] batches[k]).len() <= 0x1_0000_0000
}

spec fn indexed_state<S>(state: CascadeState<S>, parents: Seq<int>) -> bool {
    &&& breadth_indexed(state.done + state.waiting, parents)
    &&& parents.len() > 0
    &&& forall|i: int| 0 <= i < parents.len() ==> #[trigger] parents[i] < state.done.len()
}

proof fn advancing_indexes<S>(state: CascadeState<S>, stores: S, changed: bool, reactions: Seq<Reaction>, parents: Seq<int>) -> (r:
    Seq<int>)
    requires
        indexed_state(state, parents),
        state.waiting.len() > 0,
        reactions.len() <= 0x1_0000_0000,
    ensures
        indexed_state(state.advanced(stores, changed, reactions), r),
{
    let next = state.advanced(stores, changed, reactions);
    let event = state.waiting[0];
    let at = state.done.len() as int;
    let fresh = reaction_events(event, reactions);
    let all = state.done + state.waiting;
    let grown = next.done + next.waiting;
    assert(grown =~= all + fresh);
    assert(all[at] == event);
    let r = parents + Seq::new(reactions.len(), |i: int| at);
    assert forall|i: int| 0 < i < grown.len() implies #[trigger] indexed_at(grown, r, i) by {
        if i < all.len() {
            assert(indexed_at(all, parents, i));
            assert(grown[i] == all[i] && grown[i - 1] == all[i - 1]);
            assert(r[i] == parents[i] && r[i - 1] == parents[i - 1]);
            assert(grown[parents[i]] == all[parents[i]]);
        } else {
            let j = i - all.len();
            assert(grown[i] == fresh[j]);
            assert(r[i] == at);
            assert(grown[at] == event);
            if j == 0 {
                assert(r[i - 1] == parents[i - 1]);
            } else {
                assert(r[i - 1] == at);
                assert(grown[i - 1] == fresh[j - 1]);
            }
        }
    }
    assert forall|i: int| 0 <= i < r.len() implies #[trigger] r[i] < next.done.len() by {
        if i < parents.len() {
            assert(r[i] == parents[i]);
        }
    }
    r
}

proof fn indexed_prefix<S>(state: CascadeState<S>, parents: Seq<int>)
    requires
        indexed_state(state, parents),
    ensures
        breadth_indexed(state.done, parents.take(state.done.len() as int)),
{
    let all = state.done + state.waiting;
    let shorter = parents.take(state.done.len() as int);
    assert forall|i: int| 0 < i < state.done.len() implies #[trigger] indexed_at(state.done, shorter, i) by {
        assert(indexed_at(all, parents, i));
        assert(all[i] == state.done[i] && all[i - 1] == state.done[i - 1]);
        assert(all[parents[i]] == state.done[parents[i]]);
    }
}

proof fn graph_run_indexes<
    H: Fn(&Subscription, &Event, &Projection) -> Vec<EventKind>,
    M: Fn() -> Stamp,
>(
    config: CascadeConfig,
    subscriptions: Seq<SubscriptionModel>,
    handle: H,
    mint: M,
    trigger: EventModel,
    stores: GraphModel,
    batches: Seq<Seq<Reaction>>,
) -> (parents: Seq<int>)
    requires
        graph_history(config, subscriptions, handle, mint, CascadeState::start(trigger, stores), batches),
        batches_fit(batches),
    ensures
        indexed_state(graph_run(CascadeState::start(trigger, stores), batches), parents),
    decreases batches.len(),
{
    let start = CascadeState::start(trigger, stores);
    if batches.len() == 0 {
        assert(start.done + start.waiting =~= seq![trigger]);
        seq![-1int]
    } else {
        let fewer = batches.drop_last();
        assert forall|k: int| 0 <= k < fewer.len() implies graph_step(config, subscriptions, handle, mint, graph_run(start, fewer.take(k)), #[trigger] fewer[k]) by {
            assert(fewer.take(k) =~= batches.take(k));
            assert(fewer[k] == batches[k]);
        }
        assert forall|k: int| 0 <= k < fewer.len() implies (#[trigger] fewer[k]).len() <= 0x1_0000_0000 by {
            assert(fewer[k] == batches[k]);
        }
        let parents = graph_run_indexes(config, subscriptions, handle, mint, trigger, stores, fewer);
        assert(batches.take(batches.len() - 1) =~= fewer);
        assert(batches[batches.len() - 1] == batches.last());
        let before = graph_run(start, fewer);
        assert(before.goes_on(config));
        advancing_indexes(before, before.stores.after(before.waiting[0].kind), changes_graph(before.stores, before.waiting[0].kind), batches.last(), parents)
    }
}

/// In a finished cascade on a graph, what one event brought about carries the breadth indexes
/// 0, 1, 2 and so on, in order, as long as the indexes can tell it apart.
pub proof fn law_cascades_number_siblings<
    H: Fn(&Subscription, &Event, &Projection) -> Vec<EventKind>,
    M: Fn() -> Stamp,
>(
    config: CascadeConfig,
    subscriptions: Seq<SubscriptionModel>,
    handle: H,
    mint: M,
    trigger: EventModel,
    stores: GraphModel,
    batches: Seq<Seq<Reaction>>,
    r: CascadeResult,
)
    requires
        graph_history(config, subscriptions, handle, mint, CascadeState::start(trigger, stores), batches),
        reports(r, graph_run(CascadeState::start(trigger, stores), batches), config),
        batches_fit(batches),
    ensures
        exists|parents: Seq<int>| breadth_indexed(event_models(r.events@), parents),
{
    let end = graph_run(CascadeState::start(trigger, stores), batches);
    let parents = graph_run_indexes(config, subscriptions, handle, mint, trigger, stores, batches);
    indexed_prefix(end, parents);
    assert(breadth_indexed(end.done, parents.take(end.done.len() as int)));
}

proof fn stores_run_indexes<
    H: Fn(&Subscription, &Event, &Projection) -> Vec<EventKind>,
    R: Fn(&Event, &Projection, &EpistemicStore) -> Vec<EventKind>,
    X: Fn(&Event, &Projection, &EpistemicStore, &ActionStore) -> Vec<EventKind>,
    M: Fn() -> Stamp,
>(
    config: CascadeConfig,
    agents: (PolicyAgent, OutcomeAgent),
    subscriptions: Seq<SubscriptionModel>,
    handle: H,
    react: R,
    reflexes: X,
    mint: M,
    trigger: EventModel,
    stores: Stores,
    batches: Seq<Seq<Reaction>>,
) -> (parents: Seq<int>)
    requires
        stores_history(config, agents, subscriptions, handle, react, reflexes, mint, CascadeState::start(trigger, stores), batches),
        batches_fit(batches),
    ensures
        indexed_state(stores_run(CascadeState::start(trigger, stores), batches), parents),
    decreases batches.len(),
{
    let start = CascadeState::start(trigger, stores);
    if batches.len() == 0 {
        assert(start.done + start.waiting =~= seq![trigger]);
        seq![-1int]
    } else {
        let fewer = batches.drop_last();
        assert forall|k: int| 0 <= k < fewer.len() implies stores_step(config, agents, subscriptions, handle, react, reflexes, mint, stores_run(start, fewer.take(k)), #[trigger] fewer[k]) by {
            assert(fewer.take(k) =~= batches.take(k));
            assert(fewer[k] == batches[k]);
        }
        assert forall|k: int| 0 <= k < fewer.len() implies (#[trigger] fewer[k]).len() <= 0x1_0000_0000 by {
            assert(fewer[k] == batches[k]);
        }
        let parents = stores_run_indexes(config, agents, subscriptions, handle, react, reflexes, mint, trigger, stores, fewer);
        assert(batches.take(batches.len() - 1) =~= fewer);
        assert(batches[batches.len() - 1] == batches.last());
        let before = stores_run(start, fewer);
        assert(before.goes_on(config));
        advancing_indexes(before, stores_after(before.stores, before.waiting[0]), changes_graph(before.stores.graph, before.waiting[0].kind), batches.last(), parents)
    }
}

/// In a finished cascade on all stores, what one event brought about is numbered in the same
/// way.
pub proof fn law_epistemic_cascades_number_siblings<
    H: Fn(&Subscription, &Event, &Projection) -> Vec<EventKind>,
    R: Fn(&Event, &Projection, &EpistemicStore) -> Vec<EventKind>,
    X: Fn(&Event, &Projection, &EpistemicStore, &ActionStore) -> Vec<EventKind>,
    M: Fn() -> Stamp,
>(
    config: CascadeConfig,
    agents: (PolicyAgent, OutcomeAgent),
    subscriptions: Seq<SubscriptionModel>,
    handle: H,
    react: R,
    reflexes: X,
    mint: M,
    trigger: EventModel,
    stores: Stores,
    batches: Seq<Seq<Reaction>>,
    r: CascadeResult,
)
    requires
        stores_history(config, agents, subscriptions, handle, react, reflexes, mint, CascadeState::start(trigger, stores), batches),
        reports(r, stores_run(CascadeState::start(trigger, stores), batches), config),
        batches_fit(batches),
    ensures
        exists|parents: Seq<int>| breadth_indexed(event_models(r.events@), parents),
{
    let end = stores_run(CascadeState::start(trigger, stores), batches);
    let parents = stores_run_indexes(config, agents, subscriptions, handle, react, reflexes, mint, trigger, stores, batches);
    indexed_prefix(end, parents);
    assert(breadth_indexed(end.done, parents.take(end.done.len() as int)));
}

} // verus!
