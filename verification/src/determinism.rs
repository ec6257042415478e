//! Cascades on all stores are deterministic.

use crate::action::{ActionModel, ActionStatus};
use crate::action_store::{ActionStore, ActionStoreModel};
use crate::cascade::{
    changes_graph, from_sources, producer_at, reaction_events, reaction_producers, stamped, stores_after, stores_history,
    stores_refusal, stores_run, stores_step, CascadeConfig, CascadeState, Gathered, Reaction, Stores,
};
use crate::epistemic_store::{EpistemicModel, EpistemicStore};
use crate::event::{Event, EventKind, EventModel, Stamp};
use crate::outcome_agent::{is_outcome_reaction, OutcomeAgent};
use crate::policy_agent::{answers, is_policy_reaction, known_action, PolicyAgent, PolicyMint};
use crate::policy_engine::{candidate, decides, is_evaluation, law_one_policy_decides, report_on, ReportModel};
use crate::policy_store::PolicyStoreModel;
use crate::projection::{GraphModel, Projection};
use crate::registry::{
    answered, asking, borrowed_subscriptions, credited, gathered, passes, served, FilterModel, Subscription,
    SubscriptionModel,
};
use vstd::prelude::*;

verus! {

/// The same happened, in the same order.
pub open spec fn same_kinds(one: Seq<EventKind>, other: Seq<EventKind>) -> bool {
    one.len() == other.len() && forall|i: int| 0 <= i < one.len() ==> (#[trigger] one[i]).same(other[i])
}

/// The lists hold the same events, in the same order.
pub open spec fn same_events(one: Seq<EventModel>, other: Seq<EventModel>) -> bool {
    one.len() == other.len() && forall|i: int| 0 <= i < one.len() ==> (#[trigger] one[i]).same(other[i])
}

proof fn same_on_graph(graph: GraphModel, one: EventKind, other: EventKind)
    requires
        one.same(other),
    ensures
        graph.outcome(one) == graph.outcome(other),
        graph.after(one) == graph.after(other),
        changes_graph(graph, one) == changes_graph(graph, other),
{
    reveal(EventKind::same);
}

proof fn same_on_beliefs(beliefs: EpistemicModel, one: EventModel, other: EventModel)
    requires
        one.same(other),
    ensures
        beliefs.after(one) == beliefs.after(other),
{
    reveal(EventKind::same);
}

proof fn same_on_actions(actions: ActionStoreModel, one: EventModel, other: EventModel)
    requires
        one.same(other),
    ensures
        actions.after(one) == actions.after(other),
{
    reveal(EventKind::same);
}

proof fn same_on_policies(policies: PolicyStoreModel, one: EventModel, other: EventModel)
    requires
        one.same(other),
    ensures
        policies.after(one) == policies.after(other),
{
    reveal(EventKind::same);
}

proof fn same_on_stores(stores: Stores, one: EventModel, other: EventModel)
    requires
        one.same(other),
    ensures
        stores_after(stores, one) == stores_after(stores, other),
        stores_refusal(stores, one) == stores_refusal(stores, other),
        changes_graph(stores.graph, one.kind) == changes_graph(stores.graph, other.kind),
{
    same_on_graph(stores.graph, one.kind, other.kind);
    same_on_beliefs(stores.beliefs, one, other);
    same_on_actions(stores.actions, one, other);
    same_on_policies(stores.policies, one, other);
}

proof fn same_passes(filter: FilterModel, one: EventKind, other: EventKind)
    requires
        one.same(other),
    ensures
        passes(filter, one) == passes(filter, other),
    decreases filter,
{
    match filter {
        FilterModel::And(parts) => {
            assert forall|i: int| 0 <= i < parts.len() implies passes(#[trigger] parts[i], one) == passes(parts[i], other) by {
                same_passes(parts[i], one, other);
            }
        },
        _ => {
            reveal(EventKind::same);
        },
    }
}

proof fn same_asking(list: Seq<SubscriptionModel>, one: EventKind, other: EventKind)
    requires
        one.same(other),
    ensures
        asking(list, one) == asking(list, other),
    decreases list.len(),
{
    if list.len() > 0 {
        same_asking(list.drop_last(), one, other);
        same_passes(list.last().filter, one, other);
    }
}

/// The handler gives the same for the same subscription, event and graph.
pub open spec fn steady_handler<H: Fn(&Subscription, &Event, &Projection) -> Vec<EventKind>>(handle: H) -> bool {
    forall|
        s1: &Subscription,
        e1: &Event,
        p1: &Projection,
        k1: Vec<EventKind>,
        s2: &Subscription,
        e2: &Event,
        p2: &Projection,
        k2: Vec<EventKind>,
    |
        #![trigger call_ensures(handle, (s1, e1, p1), k1), call_ensures(handle, (s2, e2, p2), k2)]
        call_ensures(handle, (s1, e1, p1), k1) && call_ensures(handle, (s2, e2, p2), k2) && s1@ == s2@ && e1@.same(e2@)
            && p1@ == p2@ ==> same_kinds(k1@, k2@)
}

/// The agents of verification and remediation give the same for the same event, graph and
/// beliefs.
pub open spec fn steady_agents<R: Fn(&Event, &Projection, &EpistemicStore) -> Vec<EventKind>>(react: R) -> bool {
    forall|
        e1: &Event,
        p1: &Projection,
        b1: &EpistemicStore,
        k1: Vec<EventKind>,
        e2: &Event,
        p2: &Projection,
        b2: &EpistemicStore,
        k2: Vec<EventKind>,
    |
        #![trigger call_ensures(react, (e1, p1, b1), k1), call_ensures(react, (e2, p2, b2), k2)]
        call_ensures(react, (e1, p1, b1), k1) && call_ensures(react, (e2, p2, b2), k2) && e1@.same(e2@) && p1@ == p2@
            && b1@ == b2@ ==> same_kinds(k1@, k2@)
}

/// The reflexes give the same for the same event, graph, beliefs and actions.
pub open spec fn steady_reflexes<X: Fn(&Event, &Projection, &EpistemicStore, &ActionStore) -> Vec<EventKind>>(
    reflexes: X,
) -> bool {
    forall|
        e1: &Event,
        p1: &Projection,
        b1: &EpistemicStore,
        a1: &ActionStore,
        k1: Vec<EventKind>,
        e2: &Event,
        p2: &Projection,
        b2: &EpistemicStore,
        a2: &ActionStore,
        k2: Vec<EventKind>,
    |
        #![trigger call_ensures(reflexes, (e1, p1, b1, a1), k1), call_ensures(reflexes, (e2, p2, b2, a2), k2)]
        call_ensures(reflexes, (e1, p1, b1, a1), k1) && call_ensures(reflexes, (e2, p2, b2, a2), k2) && e1@.same(e2@)
            && p1@ == p2@ && b1@ == b2@ && a1@ == a2@ ==> same_kinds(k1@, k2@)
}

/// Whether both stamps hold the same identifier and time.
pub open spec fn same_stamp(one: Stamp, other: Stamp) -> bool {
    one.id@ == other.id@ && one.timestamp == other.timestamp
}

/// Whether both hold the same identifiers and time for a policy evaluation.
pub open spec fn same_mint(one: PolicyMint, other: PolicyMint) -> bool {
    one.decision_id@ == other.decision_id@ && one.approval_id@ == other.approval_id@ && one.now == other.now
}

/// What the sources gave, in their order.
pub open spec fn all_kinds(parts: Gathered) -> Seq<EventKind> {
    parts.subscribed + parts.first + parts.policy + parts.outcome + parts.last
}

/// The state goes on with an event that all stores accept, the parts are what the sources gave
/// for it, and the reactions are made of them.
pub open spec fn source_step<
    H: Fn(&Subscription, &Event, &Projection) -> Vec<EventKind>,
    R: Fn(&Event, &Projection, &EpistemicStore) -> Vec<EventKind>,
    X: Fn(&Event, &Projection, &EpistemicStore, &ActionStore) -> Vec<EventKind>,
    M: Fn() -> Stamp,
>(
    config: CascadeConfig,
    agents: (PolicyAgent, OutcomeAgent),
    subscriptions: Seq<SubscriptionModel>,
    handle: H,
    react: R,
    reflexes: X,
    mint: M,
    state: CascadeState<Stores>,
    reactions: Seq<Reaction>,
    parts: Gathered,
) -> bool {
    let event = state.waiting[0];
    &&& state.goes_on(config)
    &&& stores_refusal(state.stores, event) is None
    &&& from_sources(agents, subscriptions, handle, react, reflexes, mint, event, stores_after(state.stores, event), parts)
    &&& stamped(reactions, all_kinds(parts), parts.subscribers, mint)
}

/// Every batch of reactions is made of what the sources gave, for an event that was within the
/// limits and accepted.
pub open spec fn source_history<
    H: Fn(&Subscription, &Event, &Projection) -> Vec<EventKind>,
    R: Fn(&Event, &Projection, &EpistemicStore) -> Vec<EventKind>,
    X: Fn(&Event, &Projection, &EpistemicStore, &ActionStore) -> Vec<EventKind>,
    M: Fn() -> Stamp,
>(
    config: CascadeConfig,
    agents: (PolicyAgent, OutcomeAgent),
    subscriptions: Seq<SubscriptionModel>,
    handle: H,
    react: R,
    reflexes: X,
    mint: M,
    start: CascadeState<Stores>,
    batches: Seq<Seq<Reaction>>,
    parts: Seq<Gathered>,
) -> bool {
    &&& parts.len() == batches.len()
    &&& forall|k: int|
        0 <= k < batches.len() ==> source_step(
            config, agents, subscriptions, handle, react, reflexes, mint, 
            stores_run(start, batches.take(k)),
            #[trigger] batches[k],
            parts[k],
        )
}

/// Every history of a cascade on all stores comes from parts that the sources gave.
pub proof fn histories_have_sources<
    H: Fn(&Subscription, &Event, &Projection) -> Vec<EventKind>,
    R: Fn(&Event, &Projection, &EpistemicStore) -> Vec<EventKind>,
    X: Fn(&Event, &Projection, &EpistemicStore, &ActionStore) -> Vec<EventKind>,
    M: Fn() -> Stamp,
>(
    config: CascadeConfig,
    agents: (PolicyAgent, OutcomeAgent),
    subscriptions: Seq<SubscriptionModel>,
    handle: H,
    react: R,
    reflexes: X,
    mint: M,
    start: CascadeState<Stores>,
    batches: Seq<Seq<Reaction>>,
)
    requires
        stores_history(config, agents, subscriptions, handle, react, reflexes, mint, start, batches),
    ensures
        exists|parts: Seq<Gathered>| source_history(config, agents, subscriptions, handle, react, reflexes, mint, start, batches, parts),
{
    let parts = Seq::new(
        batches.len(),
        |k: int|
            choose|parts: Gathered|
                source_step(config, agents, subscriptions, handle, react, reflexes, mint, stores_run(start, batches.take(k)), batches[k], parts),
    );
    assert forall|k: int| 0 <= k < batches.len() implies source_step(
        config, agents, subscriptions, handle, react, reflexes, mint, 
        stores_run(start, batches.take(k)),
        #[trigger] batches[k],
        parts[k],
    ) by {
        let state = stores_run(start, batches.take(k));
        let event = state.waiting[0];
        assert(stores_step(config, agents, subscriptions, handle, react, reflexes, mint, state, batches[k]));
        let found = choose|found: Gathered| #[trigger]
            from_sources(agents, subscriptions, handle, react, reflexes, mint, event, stores_after(state.stores, event), found) && stamped(
                batches[k],
                all_kinds(found),
                found.subscribers,
                mint,
            );
        assert(source_step(config, agents, subscriptions, handle, react, reflexes, mint, state, batches[k], found));
    }
    assert(source_history(config, agents, subscriptions, handle, react, reflexes, mint, start, batches, parts));
}

proof fn same_gathered(list: Seq<SubscriptionModel>, one: Seq<Vec<EventKind>>, other: Seq<Vec<EventKind>>)
    requires
        one.len() == other.len(),
        forall|i: int| 0 <= i < one.len() ==> same_kinds((#[trigger] one[i])@, other[i]@),
    ensures
        same_kinds(gathered(one), gathered(other)),
        credited(list, one) == credited(list, other),
    decreases one.len(),
{
    if one.len() > 0 {
        let (a, b) = (one.drop_last(), other.drop_last());
        assert forall|i: int| 0 <= i < a.len() implies same_kinds((#[trigger] a[i])@, b[i]@) by {
            assert(a[i] == one[i]);
        }
        same_gathered(list, a, b);
        assert(same_kinds(one[one.len() - 1]@, other[one.len() - 1]@));
        same_appended(gathered(a), one.last()@, gathered(b), other.last()@);
        assert(credited(list, one) =~= credited(list, other));
    }
}

proof fn same_appended(a: Seq<EventKind>, b: Seq<EventKind>, c: Seq<EventKind>, d: Seq<EventKind>)
    requires
        same_kinds(a, c),
        same_kinds(b, d),
    ensures
        same_kinds(a + b, c + d),
{
    assert forall|i: int| 0 <= i < (a + b).len() implies (#[trigger] (a + b)[i]).same((c + d)[i]) by {
        if i < a.len() {
            assert(a[i].same(c[i]));
        } else {
            assert(b[i - a.len()].same(d[i - a.len()]));
        }
    }
}

proof fn same_answers<H: Fn(&Subscription, &Event, &Projection) -> Vec<EventKind>>(
    list: Seq<SubscriptionModel>,
    handle: H,
    e1: EventModel,
    e2: EventModel,
    graph: GraphModel,
    one: Gathered,
    other: Gathered,
)
    requires
        steady_handler(handle),
        e1.same(e2),
        answered(list, handle, e1, graph, one.subscribed, one.subscribers),
        answered(list, handle, e2, graph, other.subscribed, other.subscribers),
    ensures
        same_kinds(one.subscribed, other.subscribed),
        one.subscribers == other.subscribers,
{
    let asked = asking(list, e1.kind);
    same_asking(list, e1.kind, e2.kind);
    let (s1, x1, p1, b1): (Seq<&Subscription>, &Event, &Projection, Seq<Vec<EventKind>>) =
        choose|s: Seq<&Subscription>, e: &Event, p: &Projection, b: Seq<Vec<EventKind>>|
        {
            &&& #[trigger] served(handle, s, e, p, b)
            &&& e@ == e1
            &&& p@ == graph
            &&& borrowed_subscriptions(s) == asked
            &&& one.subscribed == gathered(b)
            &&& one.subscribers == credited(asked, b)
        };
    let (s2, x2, p2, b2): (Seq<&Subscription>, &Event, &Projection, Seq<Vec<EventKind>>) =
        choose|s: Seq<&Subscription>, e: &Event, p: &Projection, b: Seq<Vec<EventKind>>|
        {
            &&& #[trigger] served(handle, s, e, p, b)
            &&& e@ == e2
            &&& p@ == graph
            &&& borrowed_subscriptions(s) == asked
            &&& other.subscribed == gathered(b)
            &&& other.subscribers == credited(asked, b)
        };
    assert(s1.len() == asked.len() && s2.len() == asked.len());
    assert forall|i: int| 0 <= i < b1.len() implies same_kinds((#[trigger] b1[i])@, b2[i]@) by {
        assert(borrowed_subscriptions(s1)[i] == s1[i]@);
        assert(borrowed_subscriptions(s2)[i] == s2[i]@);
        assert(call_ensures(handle, (s1[i], x1, p1), b1[i]));
        assert(call_ensures(handle, (s2[i], x2, p2), b2[i]));
    }
    same_gathered(asked, b1, b2);
}

proof fn same_evaluation(one: ReportModel, other: ReportModel, policies: PolicyStoreModel, action: ActionModel)
    requires
        is_evaluation(one, policies, action),
        is_evaluation(other, policies, action),
    ensures
        one == other,
{
    if action.status == ActionStatus::Proposed && !(forall|id: Seq<char>| !#[trigger] candidate(policies, action, id)) {
        let a = choose|id: Seq<char>| #[trigger] decides(policies, action, id) && one == report_on(
            action,
            policies.policies[id],
        );
        let b = choose|id: Seq<char>| #[trigger] decides(policies, action, id) && other == report_on(
            action,
            policies.policies[id],
        );
        law_one_policy_decides(policies, action, a, b);
    }
}

/// The policy agent gives the same for the same event, stores, identifiers and time.
pub proof fn law_policy_answers_are_steady(
    one: Seq<EventKind>,
    other: Seq<EventKind>,
    agent: PolicyAgent,
    k1: EventKind,
    k2: EventKind,
    actions: ActionStoreModel,
    policies: PolicyStoreModel,
    m1: PolicyMint,
    m2: PolicyMint,
)
    requires
        k1.same(k2),
        same_mint(m1, m2),
        is_policy_reaction(one, agent, k1, actions, policies, m1),
        is_policy_reaction(other, agent, k2, actions, policies, m2),
    ensures
        same_kinds(one, other),
{
    reveal(EventKind::same);
    if let EventKind::ActionProposed { action } = k1 {
        let known = known_action(actions, action@);
        let r1 = choose|report: ReportModel| #[trigger]
            is_evaluation(report, policies, known) && answers(one, agent, known, report, m1);
        let r2 = choose|report: ReportModel| #[trigger]
            is_evaluation(report, policies, known) && answers(other, agent, known, report, m2);
        same_evaluation(r1, r2, policies, known);
        assert(one[0].same(other[0]));
        assert(one[1].same(other[1]));
    }
}

/// The outcome agent gives the same for the same event, actions, identifier and time.
pub proof fn law_outcome_answers_are_steady(
    one: Seq<EventKind>,
    other: Seq<EventKind>,
    actor: Seq<char>,
    k1: EventKind,
    k2: EventKind,
    actions: ActionStoreModel,
    s1: Stamp,
    s2: Stamp,
)
    requires
        k1.same(k2),
        same_stamp(s1, s2),
        is_outcome_reaction(one, actor, k1, actions, s1),
        is_outcome_reaction(other, actor, k2, actions, s2),
    ensures
        same_kinds(one, other),
{
    reveal(EventKind::same);
    if one.len() > 0 {
        assert(one[0].same(other[0]));
    }
}

proof fn same_parts<
    H: Fn(&Subscription, &Event, &Projection) -> Vec<EventKind>,
    R: Fn(&Event, &Projection, &EpistemicStore) -> Vec<EventKind>,
    X: Fn(&Event, &Projection, &EpistemicStore, &ActionStore) -> Vec<EventKind>,
    M: Fn() -> Stamp,
>(
    agents: (PolicyAgent, OutcomeAgent),
    subscriptions: Seq<SubscriptionModel>,
    handle: H,
    react: R,
    reflexes: X,
    mint: M,
    e1: EventModel,
    e2: EventModel,
    stores: Stores,
    one: Gathered,
    other: Gathered,
)
    requires
        steady_handler(handle),
        steady_agents(react),
        steady_reflexes(reflexes),
        e1.same(e2),
        from_sources(agents, subscriptions, handle, react, reflexes, mint, e1, stores, one),
        from_sources(agents, subscriptions, handle, react, reflexes, mint, e2, stores, other),
        same_mint(one.policy_mint, other.policy_mint),
        same_stamp(one.outcome_stamp, other.outcome_stamp),
    ensures
        same_kinds(all_kinds(one), all_kinds(other)),
        one.subscribers == other.subscribers,
{
    same_answers(subscriptions, handle, e1, e2, stores.graph, one, other);
    assert(same_kinds(one.first, other.first)) by {
        let (x1, p1, b1, v1): (&Event, &Projection, &EpistemicStore, Vec<EventKind>) =
            choose|e: &Event, p: &Projection, b: &EpistemicStore, v: Vec<EventKind>| #[trigger]
            call_ensures(react, (e, p, b), v) && e@ == e1 && p@ == stores.graph && b@ == stores.beliefs && v@ == one.first;
        let (x2, p2, b2, v2): (&Event, &Projection, &EpistemicStore, Vec<EventKind>) =
            choose|e: &Event, p: &Projection, b: &EpistemicStore, v: Vec<EventKind>| #[trigger]
            call_ensures(react, (e, p, b), v) && e@ == e2 && p@ == stores.graph && b@ == stores.beliefs && v@
                == other.first;
        assert(call_ensures(react, (x1, p1, b1), v1));
        assert(call_ensures(react, (x2, p2, b2), v2));
    }
    law_policy_answers_are_steady(
        one.policy,
        other.policy,
        agents.0,
        e1.kind,
        e2.kind,
        stores.actions,
        stores.policies,
        one.policy_mint,
        other.policy_mint,
    );
    law_outcome_answers_are_steady(
        one.outcome,
        other.outcome,
        agents.1.actor_id@,
        e1.kind,
        e2.kind,
        stores.actions,
        one.outcome_stamp,
        other.outcome_stamp,
    );
    assert(same_kinds(one.last, other.last)) by {
        let (x1, p1, b1, a1, v1): (&Event, &Projection, &EpistemicStore, &ActionStore, Vec<EventKind>) =
            choose|e: &Event, p: &Projection, b: &EpistemicStore, a: &ActionStore, v: Vec<EventKind>| #[trigger]
            call_ensures(reflexes, (e, p, b, a), v) && e@ == e1 && p@ == stores.graph && b@ == stores.beliefs && a@
                == stores.actions && v@ == one.last;
        let (x2, p2, b2, a2, v2): (&Event, &Projection, &EpistemicStore, &ActionStore, Vec<EventKind>) =
            choose|e: &Event, p: &Projection, b: &EpistemicStore, a: &ActionStore, v: Vec<EventKind>| #[trigger]
            call_ensures(reflexes, (e, p, b, a), v) && e@ == e2 && p@ == stores.graph && b@ == stores.beliefs && a@
                == stores.actions && v@ == other.last;
        assert(call_ensures(reflexes, (x1, p1, b1, a1), v1));
        assert(call_ensures(reflexes, (x2, p2, b2, a2), v2));
    }
    same_appended(one.subscribed, one.first, other.subscribed, other.first);
    same_appended(one.subscribed + one.first, one.policy, other.subscribed + other.first, other.policy);
    same_appended(
        one.subscribed + one.first + one.policy,
        one.outcome,
        other.subscribed + other.first + other.policy,
        other.outcome,
    );
    same_appended(
        one.subscribed + one.first + one.policy + one.outcome,
        one.last,
        other.subscribed + other.first + other.policy + other.outcome,
        other.last,
    );
}

/// The states hold the same events, in the same order and from the same subscriptions, and
/// the same stores.
pub open spec fn same_states(one: CascadeState<Stores>, other: CascadeState<Stores>) -> bool {
    &&& same_events(one.waiting, other.waiting)
    &&& one.waiting_by == other.waiting_by
    &&& same_events(one.done, other.done)
    &&& one.done_by == other.done_by
    &&& one.stores == other.stores
    &&& one.mutations == other.mutations
    &&& one.deepest == other.deepest
}

/// The reactions at the same place have the same stamps.
pub open spec fn same_batch_stamps(one: Seq<Reaction>, other: Seq<Reaction>) -> bool {
    forall|i: int| 0 <= i < one.len() && i < other.len() ==> same_stamp((#[trigger] one[i]).stamp, other[i].stamp)
}

/// Both runs mint the same identifiers and times at the same place.
pub open spec fn same_minted(
    one: Seq<Seq<Reaction>>,
    one_parts: Seq<Gathered>,
    other: Seq<Seq<Reaction>>,
    other_parts: Seq<Gathered>,
) -> bool {
    forall|k: int|
        0 <= k < one.len() && k < other.len() ==> {
            &&& same_batch_stamps(#[trigger] one[k], other[k])
            &&& same_mint(one_parts[k].policy_mint, other_parts[k].policy_mint)
            &&& same_stamp(one_parts[k].outcome_stamp, other_parts[k].outcome_stamp)
        }
}

proof fn same_advance<M: Fn() -> Stamp>(
    one: CascadeState<Stores>,
    other: CascadeState<Stores>,
    stores: Stores,
    changed: bool,
    r1: Seq<Reaction>,
    r2: Seq<Reaction>,
    k1: Seq<EventKind>,
    k2: Seq<EventKind>,
    by: Seq<Seq<char>>,
    mint: M,
)
    requires
        same_states(one, other),
        one.waiting.len() > 0,
        stamped(r1, k1, by, mint),
        stamped(r2, k2, by, mint),
        same_kinds(k1, k2),
        same_batch_stamps(r1, r2),
    ensures
        same_states(one.advanced(stores, changed, r1), other.advanced(stores, changed, r2)),
{
    let (a, b) = (one.advanced(stores, changed, r1), other.advanced(stores, changed, r2));
    let (e1, e2) = (one.waiting[0], other.waiting[0]);
    assert(e1.same(e2));
    let (f1, f2) = (reaction_events(e1, r1), reaction_events(e2, r2));
    assert forall|i: int| 0 <= i < a.waiting.len() implies (#[trigger] a.waiting[i]).same(b.waiting[i]) by {
        if i < one.waiting.len() - 1 {
            assert(a.waiting[i] == one.waiting[i + 1]);
            assert(b.waiting[i] == other.waiting[i + 1]);
        } else {
            let j = i - (one.waiting.len() - 1);
            assert(a.waiting[i] == f1[j]);
            assert(b.waiting[i] == f2[j]);
            assert(r1[j].kind == k1[j] && r2[j].kind == k2[j]);
            assert(k1[j].same(k2[j]));
            assert(same_stamp(r1[j].stamp, r2[j].stamp));
        }
    }
    assert forall|i: int| 0 <= i < a.done.len() implies (#[trigger] a.done[i]).same(b.done[i]) by {
        if i < one.done.len() {
            assert(a.done[i] == one.done[i]);
            assert(b.done[i] == other.done[i]);
        }
    }
    assert(reaction_producers(r1) =~= reaction_producers(r2)) by {
        assert forall|i: int| 0 <= i < r1.len() implies r1[i].by == r2[i].by by {
            assert(r1[i].by == producer_at(by, i));
            assert(r2[i].by == producer_at(by, i));
        }
    }
}

proof fn same_runs<
    H: Fn(&Subscription, &Event, &Projection) -> Vec<EventKind>,
    R: Fn(&Event, &Projection, &EpistemicStore) -> Vec<EventKind>,
    X: Fn(&Event, &Projection, &EpistemicStore, &ActionStore) -> Vec<EventKind>,
    M: Fn() -> Stamp,
>(
    config: CascadeConfig,
    agents: (PolicyAgent, OutcomeAgent),
    subscriptions: Seq<SubscriptionModel>,
    handle: H,
    react: R,
    reflexes: X,
    mint: M,
    start: CascadeState<Stores>,
    one: Seq<Seq<Reaction>>,
    one_parts: Seq<Gathered>,
    other: Seq<Seq<Reaction>>,
    other_parts: Seq<Gathered>,
    n: int,
)
    requires
        source_history(config, agents, subscriptions, handle, react, reflexes, mint, start, one, one_parts),
        source_history(config, agents, subscriptions, handle, react, reflexes, mint, start, other, other_parts),
        steady_handler(handle),
        steady_agents(react),
        steady_reflexes(reflexes),
        same_minted(one, one_parts, other, other_parts),
        same_states(start, start),
        0 <= n <= one.len(),
        n <= other.len(),
    ensures
        same_states(stores_run(start, one.take(n)), stores_run(start, other.take(n))),
    decreases n,
{
    if n == 0 {
        assert(one.take(0) =~= other.take(0));
    } else {
        let k = n - 1;
        same_runs(config, agents, subscriptions, handle, react, reflexes, mint, start, one, one_parts, other, other_parts, k);
        let (s1, s2) = (stores_run(start, one.take(k)), stores_run(start, other.take(k)));
        assert(source_step(config, agents, subscriptions, handle, react, reflexes, mint, s1, one[k], one_parts[k]));
        assert(source_step(config, agents, subscriptions, handle, react, reflexes, mint, s2, other[k], other_parts[k]));
        let (e1, e2) = (s1.waiting[0], s2.waiting[0]);
        assert(e1.same(e2));
        same_on_stores(s1.stores, e1, e2);
        let stores = stores_after(s1.stores, e1);
        assert(same_batch_stamps(one[k], other[k]));
        same_parts(agents, subscriptions, handle, react, reflexes, mint, e1, e2, stores, one_parts[k], other_parts[k]);
        same_advance(
            s1,
            s2,
            stores,
            changes_graph(s1.stores.graph, e1.kind),
            one[k],
            other[k],
            all_kinds(one_parts[k]),
            all_kinds(other_parts[k]),
            one_parts[k].subscribers,
            mint,
        );
        assert(one.take(n).drop_last() =~= one.take(k));
        assert(other.take(n).drop_last() =~= other.take(k));
        assert(one.take(n).last() == one[k]);
        assert(other.take(n).last() == other[k]);
    }
}

/// Whether a cascade on all stores has come to its end: nothing waits within the limits, or
/// what is next is refused.
pub open spec fn stores_have_ended(config: CascadeConfig, state: CascadeState<Stores>) -> bool {
    !state.goes_on(config) || stores_refusal(state.stores, state.waiting[0]) is Some
}

proof fn same_as_itself(kind: EventKind)
    ensures
        kind.same(kind),
{
    reveal(EventKind::same);
}

/// Cascades on all stores are deterministic: from the same trigger and stores, with sources
/// that give the same for the same and with the same identifiers and times, they process the
/// same events in the same order, and leave the same stores.
pub proof fn law_epistemic_cascades_are_deterministic<
    H: Fn(&Subscription, &Event, &Projection) -> Vec<EventKind>,
    R: Fn(&Event, &Projection, &EpistemicStore) -> Vec<EventKind>,
    X: Fn(&Event, &Projection, &EpistemicStore, &ActionStore) -> Vec<EventKind>,
    M: Fn() -> Stamp,
>(
    config: CascadeConfig,
    agents: (PolicyAgent, OutcomeAgent),
    subscriptions: Seq<SubscriptionModel>,
    handle: H,
    react: R,
    reflexes: X,
    mint: M,
    trigger: EventModel,
    stores: Stores,
    one: Seq<Seq<Reaction>>,
    one_parts: Seq<Gathered>,
    other: Seq<Seq<Reaction>>,
    other_parts: Seq<Gathered>,
)
    requires
        source_history(config, agents, subscriptions, handle, react, reflexes, mint, CascadeState::start(trigger, stores), one, one_parts),
        source_history(config, agents, subscriptions, handle, react, reflexes, mint, CascadeState::start(trigger, stores), other, other_parts),
        stores_have_ended(config, stores_run(CascadeState::start(trigger, stores), one)),
        stores_have_ended(config, stores_run(CascadeState::start(trigger, stores), other)),
        steady_handler(handle),
        steady_agents(react),
        steady_reflexes(reflexes),
        same_minted(one, one_parts, other, other_parts),
    ensures
        one.len() == other.len(),
        same_states(
            stores_run(CascadeState::start(trigger, stores), one),
            stores_run(CascadeState::start(trigger, stores), other),
        ),
{
    let start = CascadeState::start(trigger, stores);
    same_as_itself(trigger.kind);
    assert(same_states(start, start));
    let n = if one.len() <= other.len() {
        one.len() as int
    } else {
        other.len() as int
    };
    same_runs(config, agents, subscriptions, handle, react, reflexes, mint, start, one, one_parts, other, other_parts, n);
    let (s1, s2) = (stores_run(start, one.take(n)), stores_run(start, other.take(n)));
    if s1.waiting.len() > 0 {
        assert(s1.waiting[0].same(s2.waiting[0]));
        same_on_stores(s1.stores, s1.waiting[0], s2.waiting[0]);
    }
    if one.len() < other.len() {
        assert(one.take(n) =~= one);
        assert(source_step(config, agents, subscriptions, handle, react, reflexes, mint, s2, other[n], other_parts[n]));
    } else if other.len() < one.len() {
        assert(other.take(n) =~= other);
        assert(source_step(config, agents, subscriptions, handle, react, reflexes, mint, s1, one[n], one_parts[n]));
    }
    assert(one.take(n) =~= one);
    assert(other.take(n) =~= other);
}

} // verus!
