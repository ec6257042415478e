//! Laws of cascades: why they stop, what they count, how reactions descend from events, and how
//! the stores take them.

use crate::action_store::ActionStore;
use crate::cascade::{
    all_handled, changes_graph, from_sources, producers, reports, stamped, stores_after, stores_refusal, CascadeConfig,
    CascadeResult, CascadeState, Gathered, Reaction, Stores,
};
use crate::epistemic_store::EpistemicStore;
use crate::event::{Event, EventKind, EventModel, Stamp};
use crate::laws::graphs::is_on_the_graph;
use crate::outcome_agent::OutcomeAgent;
use crate::policy_agent::PolicyAgent;
use crate::projection::{GraphModel, Projection};
use crate::registry::{answered, Subscription, SubscriptionModel};
use vstd::prelude::*;

verus! {

/// A cascade is cut off only where it held as many events as allowed, or the next event lies
/// deeper than allowed; else nothing is left that waits. What is reported is what was done.
pub proof fn law_cascades_stop_for_a_reason<S>(r: CascadeResult, end: CascadeState<S>, config: CascadeConfig)
    requires
        reports(r, end, config),
    ensures
        r.truncated ==> end.waiting.len() > 0 && (r.events@.len() >= config.max_events || end.waiting[0].cascade_depth
            > config.max_depth),
        !r.truncated ==> end.waiting.len() == 0,
        r.events@.len() == end.done.len(),
        crate::event::event_models(r.events@) == end.done,
        producers(r.produced_by@) == end.done_by,
        r.mutations == end.mutations && r.max_depth_reached == end.deepest,
{
    assert(crate::event::event_models(r.events@).len() == r.events@.len());
}

/// The event that waits longest is taken next. Its reactions wait behind all others, in their
/// order; each has its own identifier, time and kind, and descends from the event: it names it as
/// its cause, belongs to its cascade and tenant, and lies one deeper.
pub proof fn law_reactions_descend_from_their_event<S>(
    state: CascadeState<S>,
    stores: S,
    changed: bool,
    reactions: Seq<Reaction>,
    i: int,
)
    requires
        state.waiting.len() > 0,
        state.waiting_by.len() == state.waiting.len(),
        0 <= i < reactions.len() <= 0x1_0000_0000,
    ensures
        ({
            let next = state.advanced(stores, changed, reactions);
            let event = state.waiting[0];
            let reaction = next.waiting[state.waiting.len() - 1 + i];
            &&& next.done == state.done.push(event) && next.done_by == state.done_by.push(state.waiting_by[0])
            &&& next.waiting.len() == state.waiting.len() - 1 + reactions.len()
            &&& next.waiting.take(state.waiting.len() - 1) == state.waiting.skip(1)
            &&& reaction.id == reactions[i].stamp.id@ && reaction.timestamp == reactions[i].stamp.timestamp
            &&& reaction.kind == reactions[i].kind
            &&& reaction.caused_by == seq![event.id] && reaction.cascade_id == event.cascade_id
            &&& reaction.cascade_depth == event.cascade_depth + 1 && reaction.tenant_id == event.tenant_id
            &&& reaction.cascade_breadth_index == i
            &&& next.waiting_by[state.waiting.len() - 1 + i] == reactions[i].by
            &&& next.mutations - state.mutations == (if changed { 1int } else { 0 })
            &&& next.deepest >= event.cascade_depth && next.deepest >= state.deepest
            &&& next.deepest == event.cascade_depth || next.deepest == state.deepest
            &&& next.stores == stores
        }),
{
    let next = state.advanced(stores, changed, reactions);
    assert(next.waiting.take(state.waiting.len() - 1) =~= state.waiting.skip(1));
}

/// A step counts as a change exactly where it is on the graph and nodes or edges are others
/// afterwards, as long as no version is exhausted.
pub proof fn law_changes_of_the_graph_are_counted(graph: GraphModel, kind: EventKind)
    requires
        forall|t: Seq<char>| #[trigger] graph.nodes.contains_key(t) ==> graph.nodes[t].version < u64::MAX,
        forall|t: Seq<char>| #[trigger] graph.edges.contains_key(t) ==> graph.edges[t].version < u64::MAX,
    ensures
        changes_graph(graph, kind) <==> graph.after(kind).nodes != graph.nodes || graph.after(kind).edges != graph.edges,
        changes_graph(graph, kind) ==> is_on_the_graph(kind),
{
    crate::laws::graphs::law_only_graph_events_change_the_graph(graph, kind);
}

/// An event goes to the graph, the beliefs, the actions and the policies, in this order, up to
/// the first that refuses it; the others are left as they were. It is refused just where one of
/// them does, for the reason that the first one gives.
pub proof fn law_every_store_takes_the_event(stores: Stores, event: EventModel)
    ensures
        ({
            let next = stores_after(stores, event);
            let refusal = stores_refusal(stores, event);
            let graph = stores.graph.outcome(event.kind);
            let beliefs = stores.beliefs.after(event);
            let actions = stores.actions.after(event);
            let policies = stores.policies.after(event);
            &&& next.graph == stores.graph.after(event.kind)
            &&& refusal is None <==> graph is Ok && beliefs is Ok && actions is Ok && policies is Ok
            &&& refusal is None ==> next.beliefs == beliefs->Ok_0 && next.actions == actions->Ok_0 && next.policies
                == policies->Ok_0
            &&& graph is Err ==> refusal == Some(graph->Err_0) && next.beliefs == stores.beliefs && next.actions
                == stores.actions && next.policies == stores.policies
            &&& graph is Ok && beliefs is Err ==> refusal == Some(beliefs->Err_0) && next.beliefs == stores.beliefs
                && next.actions == stores.actions && next.policies == stores.policies
            &&& graph is Ok && beliefs is Ok && actions is Err ==> refusal == Some(actions->Err_0) && next.beliefs
                == beliefs->Ok_0 && next.actions == stores.actions && next.policies == stores.policies
            &&& graph is Ok && beliefs is Ok && actions is Ok && policies is Err ==> refusal == Some(policies->Err_0)
                && next.beliefs == beliefs->Ok_0 && next.actions == actions->Ok_0 && next.policies == stores.policies
        }),
{
}

/// Every proposed action is answered within the cascade by a decision of the policies, and every
/// executed backfill that is known by an outcome.
pub proof fn law_agents_take_part_in_cascades<
    H: Fn(&Subscription, &Event, &Projection) -> Vec<EventKind>,
    R: Fn(&Event, &Projection, &EpistemicStore) -> Vec<EventKind>,
    X: Fn(&Event, &Projection, &EpistemicStore, &ActionStore) -> Vec<EventKind>,
    M: Fn() -> Stamp,
>(
    agents: (PolicyAgent, OutcomeAgent),
    subscriptions: Seq<SubscriptionModel>,
    handle: H,
    react: R,
    reflexes: X,
    mint: M,
    event: EventModel,
    stores: Stores,
    reactions: Seq<Reaction>,
)
    requires
        all_handled(agents, subscriptions, handle, react, reflexes, mint, event, stores, reactions),
    ensures
        event.kind is ActionProposed ==> exists|i: int|
            0 <= i < reactions.len() && (#[trigger] reactions[i]).kind is PolicyDecisionRecorded,
        event.kind matches EventKind::ActionExecuted { action_id } ==> (stores.actions.actions.contains_key(action_id@)
            && stores.actions.actions[action_id@].status == crate::action::ActionStatus::Executed
            && stores.actions.actions[action_id@].kind == crate::action::ActionKindModel::Backfill ==> exists|i: int|
            0 <= i < reactions.len() && (#[trigger] reactions[i]).kind is OutcomeObserved),
{
    let parts = choose|parts: Gathered| #[trigger]
        from_sources(agents, subscriptions, handle, react, reflexes, mint, event, stores, parts) && stamped(
            reactions,
            parts.subscribed + parts.first + parts.policy + parts.outcome + parts.last,
            parts.subscribers,
            mint,
        );
    let kinds = parts.subscribed + parts.first + parts.policy + parts.outcome + parts.last;
    let a = (parts.subscribed.len() + parts.first.len()) as int;
    if event.kind is ActionProposed {
        crate::laws::policies::law_agents_answer_as_the_policies_ask(
            parts.policy,
            agents.0,
            event.kind,
            stores.actions,
            stores.policies,
            parts.policy_mint,
            Seq::empty(),
        );
        assert(kinds[a] == parts.policy[0]);
        assert(reactions[a].kind == kinds[a]);
    }
    if event.kind is ActionExecuted {
        crate::laws::models::law_outcomes_answer_executed_backfills(
            parts.outcome,
            agents.1.actor_id@,
            event.kind,
            stores.actions,
            parts.outcome_stamp,
        );
        if parts.outcome.len() == 1 {
            let b = a + parts.policy.len();
            assert(kinds[b] == parts.outcome[0]);
            assert(reactions[b].kind == kinds[b]);
        }
    }
}

/// The reactions to an event hold what the agents and the reflexes gave when they were asked about
/// the event and the stores as they stand, and what the handlers of the subscriptions gave.
pub proof fn law_everyone_is_asked_about_the_event<
    H: Fn(&Subscription, &Event, &Projection) -> Vec<EventKind>,
    R: Fn(&Event, &Projection, &EpistemicStore) -> Vec<EventKind>,
    X: Fn(&Event, &Projection, &EpistemicStore, &ActionStore) -> Vec<EventKind>,
    M: Fn() -> Stamp,
>(
    agents: (PolicyAgent, OutcomeAgent),
    subscriptions: Seq<SubscriptionModel>,
    handle: H,
    react: R,
    reflexes: X,
    mint: M,
    event: EventModel,
    stores: Stores,
    reactions: Seq<Reaction>,
)
    requires
        all_handled(agents, subscriptions, handle, react, reflexes, mint, event, stores, reactions),
    ensures
        exists|e: &Event, p: &Projection, b: &EpistemicStore, v: Vec<EventKind>| #[trigger]
            call_ensures(react, (e, p, b), v) && e@ == event && p@ == stores.graph && b@ == stores.beliefs && among(
                v@,
                reactions,
            ),
        exists|e: &Event, p: &Projection, b: &EpistemicStore, a: &ActionStore, v: Vec<EventKind>| #[trigger]
            call_ensures(reflexes, (e, p, b, a), v) && e@ == event && p@ == stores.graph && b@ == stores.beliefs && a@
                == stores.actions && among(v@, reactions),
        exists|kinds: Seq<EventKind>, by: Seq<Seq<char>>| #[trigger]
            answered(subscriptions, handle, event, stores.graph, kinds, by) && among(kinds, reactions),
        forall|i: int| 0 <= i < reactions.len() ==> call_ensures(mint, (), (#[trigger] reactions[i]).stamp),
{
    let parts = choose|parts: Gathered| #[trigger]
        from_sources(agents, subscriptions, handle, react, reflexes, mint, event, stores, parts) && stamped(
            reactions,
            parts.subscribed + parts.first + parts.policy + parts.outcome + parts.last,
            parts.subscribers,
            mint,
        );
    let kinds = parts.subscribed + parts.first + parts.policy + parts.outcome + parts.last;
    let n = parts.subscribed.len() as int;
    let m = (parts.subscribed.len() + parts.first.len() + parts.policy.len() + parts.outcome.len()) as int;
    assert forall|j: int| 0 <= j < parts.subscribed.len() implies is_given(#[trigger] parts.subscribed[j], reactions) by {
        assert(kinds[j] == parts.subscribed[j]);
        assert(reactions[j].kind == kinds[j]);
    }
    assert forall|j: int| 0 <= j < parts.first.len() implies is_given(#[trigger] parts.first[j], reactions) by {
        assert(kinds[n + j] == parts.first[j]);
        assert(reactions[n + j].kind == kinds[n + j]);
    }
    assert forall|j: int| 0 <= j < parts.last.len() implies is_given(#[trigger] parts.last[j], reactions) by {
        assert(kinds[m + j] == parts.last[j]);
        assert(reactions[m + j].kind == kinds[m + j]);
    }
    assert(among(parts.subscribed, reactions));
    let (e, p, b, v) = choose|e: &Event, p: &Projection, b: &EpistemicStore, v: Vec<EventKind>| #[trigger]
        call_ensures(react, (e, p, b), v) && e@ == event && p@ == stores.graph && b@ == stores.beliefs && v@ == parts.first;
    assert(call_ensures(react, (e, p, b), v) && among(v@, reactions));
    let (e2, p2, b2, a2, v2) = choose|
        e: &Event,
        p: &Projection,
        b: &EpistemicStore,
        a: &ActionStore,
        v: Vec<EventKind>,
    | #[trigger]
        call_ensures(reflexes, (e, p, b, a), v) && e@ == event && p@ == stores.graph && b@ == stores.beliefs && a@
            == stores.actions && v@ == parts.last;
    assert(call_ensures(reflexes, (e2, p2, b2, a2), v2) && among(v2@, reactions));
}

/// A reaction of the kind is given.
pub open spec fn is_given(kind: EventKind, reactions: Seq<Reaction>) -> bool {
    exists|i: int| 0 <= i < reactions.len() && (#[trigger] reactions[i]).kind == kind
}

/// All of the kinds are given as reactions.
pub open spec fn among(kinds: Seq<EventKind>, reactions: Seq<Reaction>) -> bool {
    forall|j: int| 0 <= j < kinds.len() ==> is_given(#[trigger] kinds[j], reactions)
}

/// A cascade goes on as long as an event waits that is not too deep, and fewer events are done
/// than allowed.
pub proof fn law_cascades_go_on_within_their_limits<S>(state: CascadeState<S>, config: CascadeConfig)
    ensures
        state.goes_on(config) ==> state.done.len() < config.max_events && state.waiting[0].cascade_depth
            <= config.max_depth,
        state.waiting.len() > 0 && state.waiting[0].cascade_depth <= config.max_depth && state.done.len()
            < config.max_events ==> state.goes_on(config),
        state.waiting.len() == 0 ==> !state.goes_on(config),
{
}

/// Each kind that is given becomes a reaction, in the same order. It is credited to the
/// subscription that it is from; what no subscription gave is credited to none.
pub proof fn law_reactions_are_credited<M: Fn() -> Stamp>(
    reactions: Seq<Reaction>,
    kinds: Seq<EventKind>,
    by: Seq<Seq<char>>,
    mint: M,
    i: int,
)
    requires
        stamped(reactions, kinds, by, mint),
        0 <= i < kinds.len(),
    ensures
        reactions.len() == kinds.len(),
        reactions[i].kind == kinds[i],
        i < by.len() ==> reactions[i].by == Some(by[i]),
        i >= by.len() ==> reactions[i].by is None,
{
}

} // verus!
