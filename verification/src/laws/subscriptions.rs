//! Laws of subscriptions: which events they ask for, how they are found, and how what they do is
//! counted.

use crate::anomaly_rules::AnomalyModel;
use crate::event::{Event, EventKind, EventModel};
use crate::event_log::{causes, last_position, LogModel};
use crate::evolution::{
    anomalies_misses, anomaly_events, around, by_rate, can_apply, cascade_recorded, did_fire, event_misses, fired_on, fires_recorded, first_on_nodes, known_miss,
    outcome_count, proposals_for, rank, reactions_by, resolved, simulated, stands_at, times_listed, Findings, FireModel, MetricsModel,
    ProposalStatus, SubscriptionOutcome, TrackerModel,
};
use crate::number::{Number, ONE};
use crate::projection::{GraphModel, Projection};
use crate::registry::{
    answered, asking, borrowed_subscriptions, credited, gathered, passes, place, ranked, refiltered, served,
    subscription_at, FilterModel, Subscription, SubscriptionModel,
};
use crate::time::Timestamp;
use vstd::prelude::*;

verus! {

/// A filter for a type asks for the creation of nodes of that type, and of no other; one for a
/// signal for signals of that name, and of no other; one for a name for kinds of that name.
pub proof fn law_filters_ask_for_what_they_name(kind: EventKind, one: Seq<char>, other: Seq<char>)
    ensures
        passes(FilterModel::Any, kind),
        passes(FilterModel::NodeType(one), kind) ==> passes(FilterModel::NodeCreated, kind),
        passes(FilterModel::NodeType(one), kind) && passes(FilterModel::NodeType(other), kind) ==> one == other,
        passes(FilterModel::SignalName(one), kind) && passes(FilterModel::SignalName(other), kind) ==> one == other,
        passes(FilterModel::EventKindName(one), kind) && passes(FilterModel::EventKindName(other), kind) ==> one == other,
        passes(FilterModel::EventKindName(kind.name()), kind),
        kind matches EventKind::NodeCreated { type_id, .. } ==> passes(FilterModel::NodeType(type_id@), kind)
            && passes(FilterModel::NodeCreated, kind) && passes(FilterModel::EventKindName("node_created"@), kind),
        kind matches EventKind::Signal { name, .. } ==> passes(FilterModel::SignalName(name@), kind) && !passes(
            FilterModel::NodeType(name@),
            kind,
        ),
        kind is NodeUpdated ==> passes(FilterModel::NodeUpdated, kind),
        kind is NodeDeleted ==> passes(FilterModel::NodeDeleted, kind),
        kind !is NodeCreated ==> !passes(FilterModel::NodeCreated, kind),
        kind !is NodeUpdated ==> !passes(FilterModel::NodeUpdated, kind),
        kind !is NodeDeleted ==> !passes(FilterModel::NodeDeleted, kind),
        kind !is Signal ==> !passes(FilterModel::SignalName(one), kind),
{
}

/// A filter made of others asks for what all of them ask for.
pub proof fn law_joined_filters_ask_for_what_all_do(filter: FilterModel, kind: EventKind)
    ensures
        filter matches FilterModel::And(parts) ==> (passes(filter, kind) <==> forall|i: int|
            0 <= i < parts.len() ==> passes(#[trigger] parts[i], kind)),
{
}

/// A subscription is registered in front of those of lower priority and behind all others.
pub proof fn law_registration_comes_behind_its_equals(list: Seq<SubscriptionModel>, priority: i32, i: int)
    requires
        ranked(list),
        0 <= i < list.len(),
    ensures
        0 <= place(list, priority) <= list.len(),
        i < place(list, priority) <==> list[i].priority >= priority,
    decreases list.len(),
{
    let rest = list.drop_last();
    assert(ranked(rest)) by {
        assert forall|a: int, b: int| 0 <= a < b < rest.len() implies (#[trigger] rest[a]).priority >= (
        #[trigger] rest[b]).priority by {
            assert(list[a].priority >= list[b].priority);
        }
    }
    if list.last().priority < priority {
        if i < rest.len() {
            law_registration_comes_behind_its_equals(rest, priority, i);
        } else if rest.len() > 0 {
            law_registration_comes_behind_its_equals(rest, priority, 0);
        } else {
            assert(place(rest, priority) == 0);
        }
    } else if i < rest.len() {
        assert(list[i].priority >= list[list.len() - 1].priority);
    }
}

/// A subscription is found by its identifier wherever it is registered, the first one where
/// there are more.
pub proof fn law_the_first_with_the_identifier_is_found(list: Seq<SubscriptionModel>, id: Seq<char>, i: int)
    requires
        0 <= i < list.len(),
    ensures
        list[i].id == id ==> subscription_at(list, id) is Some && subscription_at(list, id)->0 <= i,
        subscription_at(list, id) matches Some(k) ==> 0 <= k < list.len() && list[k].id == id,
    decreases list.len(),
{
    let rest = list.drop_last();
    if i < rest.len() {
        assert(rest[i] == list[i]);
        law_the_first_with_the_identifier_is_found(rest, id, i);
    } else if rest.len() > 0 {
        law_the_first_with_the_identifier_is_found(rest, id, 0);
    }
    if let Some(k) = subscription_at(rest, id) {
        assert(rest[k] == list[k]);
    }
}

/// A new filter replaces the one of the subscription with the identifier. All else, and every
/// other subscription, stays as it is.
pub proof fn law_new_filters_change_one_subscription(
    list: Seq<SubscriptionModel>,
    id: Seq<char>,
    filter: FilterModel,
    i: int,
)
    requires
        0 <= i < list.len(),
    ensures
        refiltered(list, id, filter).len() == list.len(),
        ({
            let after = refiltered(list, id, filter)[i];
            &&& after.id == list[i].id && after.name == list[i].name && after.priority == list[i].priority
            &&& list[i].id != id ==> after == list[i]
            &&& list[i].id == id && (forall|j: int| 0 <= j < i ==> (#[trigger] list[j]).id != id)
                ==> after.filter == filter
        }),
{
    law_the_first_with_the_identifier_is_found(list, id, i);
}

/// The subscriptions that ask for a kind are those of the list whose filters do, in its order.
pub proof fn law_those_that_ask_are_picked_out(list: Seq<SubscriptionModel>, kind: EventKind)
    ensures
        asking(list, kind) == list.filter(|s: SubscriptionModel| passes(s.filter, kind)),
    decreases list.len(),
{
    reveal(Seq::filter);
    if list.len() > 0 {
        law_those_that_ask_are_picked_out(list.drop_last(), kind);
    }
}

/// Each kind that a handler gave for a subscription is among the reactions, credited to that
/// subscription.
pub proof fn law_reactions_are_credited_to_their_subscription(
    subscriptions: Seq<SubscriptionModel>,
    batches: Seq<Vec<EventKind>>,
    b: int,
    j: int,
)
    requires
        0 <= b < batches.len() <= subscriptions.len(),
        0 <= j < batches[b]@.len(),
    ensures
        gathered(batches).len() == credited(subscriptions, batches).len(),
        exists|p: int|
            0 <= p < gathered(batches).len() && #[trigger] gathered(batches)[p] == batches[b]@[j] && credited(
                subscriptions,
                batches,
            )[p] == subscriptions[b].id,
    decreases batches.len(),
{
    crate::registry::credited_length(subscriptions, batches);
    let fewer = batches.drop_last();
    crate::registry::credited_length(subscriptions, fewer);
    let last = batches.len() - 1;
    if b < last {
        assert(fewer[b] == batches[b]);
        law_reactions_are_credited_to_their_subscription(subscriptions, fewer, b, j);
        let p = choose|p: int|
            0 <= p < gathered(fewer).len() && #[trigger] gathered(fewer)[p] == fewer[b]@[j] && credited(
                subscriptions,
                fewer,
            )[p] == subscriptions[b].id;
        assert(gathered(batches)[p] == gathered(fewer)[p]);
        assert(credited(subscriptions, batches)[p] == credited(subscriptions, fewer)[p]);
    } else {
        let p = gathered(fewer).len() + j;
        assert(gathered(batches)[p] == batches[b]@[j]);
        assert(credited(subscriptions, batches)[p] == subscriptions[b].id);
    }
}

/// A fire is logged with its event, its time and its reactions, waits for a judgement, and is
/// counted; nothing else changes.
pub proof fn law_fires_are_logged(m: MetricsModel, event: EventModel, reactions: nat)
    ensures
        ({
            let after = m.with_fire(event, reactions);
            let fire = after.fires[m.fires.len() as int];
            &&& after.fires.len() == m.fires.len() + 1
            &&& after.fires.take(m.fires.len() as int) == m.fires
            &&& fire.trigger_event_id == event.id && fire.timestamp == event.timestamp
            &&& fire.reaction_count == reactions && fire.outcome is None
            &&& fired_on(after.fires, event.id)
            &&& after.total_fires == m.total_fires + 1
            &&& m.total_reactions + reactions <= u64::MAX ==> after.total_reactions == m.total_reactions + reactions
            &&& after.true_positives == m.true_positives && after.false_positives == m.false_positives
            &&& after.auto_accepted == m.auto_accepted && after.false_negatives == m.false_negatives
            &&& after.misses == m.misses
            &&& after.subscription_id == m.subscription_id && after.subscription_name == m.subscription_name
        }),
{
    let after = m.with_fire(event, reactions);
    assert(after.fires.take(m.fires.len() as int) =~= m.fires);
    assert(after.fires[m.fires.len() as int].trigger_event_id == event.id);
}

/// A judgement is counted under its own heading and noted with the fire it is on; nothing else
/// changes.
pub proof fn law_judgements_are_counted(m: MetricsModel, i: int, outcome: SubscriptionOutcome, j: int)
    requires
        0 <= i < m.fires.len(),
        0 <= j < m.fires.len(),
    ensures
        ({
            let after = m.judged(i, outcome);
            &&& after.fires.len() == m.fires.len() && after.total_fires == m.total_fires
            &&& after.fires[i].outcome == Some(outcome)
            &&& after.fires[i].trigger_event_id == m.fires[i].trigger_event_id
            &&& j != i ==> after.fires[j] == m.fires[j]
            &&& after.true_positives - m.true_positives == (if outcome == SubscriptionOutcome::Confirmed { 1int } else { 0 })
            &&& after.false_positives - m.false_positives == (if outcome == SubscriptionOutcome::Dismissed { 1int } else { 0 })
            &&& after.auto_accepted - m.auto_accepted == (if outcome == SubscriptionOutcome::AutoAccepted { 1int } else { 0 })
            &&& after.false_negatives == m.false_negatives && after.misses == m.misses
            &&& after.total_reactions == m.total_reactions
        }),
{
}

/// Judging all fires at once judges those that wait and leaves the judgements that stand.
pub proof fn law_judging_all_leaves_what_stands(m: MetricsModel, outcome: SubscriptionOutcome, i: int)
    requires
        0 <= i < m.fires.len(),
    ensures
        ({
            let after = m.all_judged(outcome);
            &&& after.fires.len() == m.fires.len() && after.total_fires == m.total_fires
            &&& m.fires[i].outcome is Some ==> after.fires[i] == m.fires[i]
            &&& m.fires[i].outcome is None ==> after.fires[i].outcome == Some(outcome)
                && after.fires[i].trigger_event_id == m.fires[i].trigger_event_id
            &&& after.true_positives + after.false_positives + after.auto_accepted == m.true_positives
                + m.false_positives + m.auto_accepted + outcome_count(m.fires, None)
        }),
{
}

/// A miss is logged with its event, its reason and its time, and is counted; nothing else
/// changes.
pub proof fn law_misses_are_logged(m: MetricsModel, event: Seq<char>, reason: Option<Seq<char>>, now: Timestamp)
    ensures
        ({
            let after = m.with_miss(event, reason, now);
            let miss = after.misses[m.misses.len() as int];
            &&& after.misses.len() == m.misses.len() + 1
            &&& miss.missed_event_id == event && miss.reason == reason && miss.recorded_at == now
            &&& known_miss(after.misses, event)
            &&& after.false_negatives == m.false_negatives + 1
            &&& after.fires == m.fires && after.total_fires == m.total_fires
            &&& after.true_positives == m.true_positives && after.false_positives == m.false_positives
        }),
{
    let after = m.with_miss(event, reason, now);
    assert(after.misses[m.misses.len() as int].missed_event_id == event);
}

/// The precision is the part of the confirmed fires among those confirmed or dismissed. It is
/// known once there is one of these, it is one where nothing was dismissed, and zero where
/// nothing was confirmed. The rate of false alarms is the rest: zero where nothing was dismissed.
pub proof fn law_precision_is_the_part_confirmed(m: MetricsModel)
    requires
        m.true_positives + m.false_positives <= u64::MAX,
    ensures
        m.precision_of() is None <==> m.true_positives == 0 && m.false_positives == 0,
        m.rate_of() is None <==> m.true_positives == 0 && m.false_positives == 0,
        m.true_positives > 0 && m.false_positives == 0 ==> m.precision_of() == Some(Number { bits: ONE })
            && m.rate_of() == Some(Number { bits: 0 }),
        m.true_positives == 0 && m.false_positives > 0 ==> m.precision_of() == Some(Number { bits: 0 }),
        m.true_positives + m.false_positives > 0 ==> m.precision_of() == Some(
            Number::part(m.true_positives, m.true_positives + m.false_positives),
        ),
{
    reveal(MetricsModel::rate_of);
    if m.true_positives > 0 && m.false_positives == 0 {
        crate::arithmetic::law_whole_numbers_keep_their_worth(m.true_positives as u64);
        crate::laws::coverage::law_nothing_is_left_of_one();
    }
    if m.true_positives == 0 && m.false_positives > 0 {
        crate::laws::coverage::law_no_part_of_anything_is_zero(m.false_positives as u64);
    }
}

/// The recall is the part of the confirmed fires among these and the misses. It is known once
/// there is one of either, it is one where nothing was missed, and zero where nothing was
/// confirmed. False alarms make no difference to it.
pub proof fn law_recall_is_the_part_caught(m: MetricsModel, other: MetricsModel)
    requires
        m.true_positives + m.false_negatives <= u64::MAX,
        other.true_positives == m.true_positives,
        other.false_negatives == m.false_negatives,
    ensures
        m.recall_of() is None <==> m.true_positives == 0 && m.false_negatives == 0,
        m.true_positives > 0 && m.false_negatives == 0 ==> m.recall_of() == Some(Number { bits: ONE }),
        m.true_positives == 0 && m.false_negatives > 0 ==> m.recall_of() == Some(Number { bits: 0 }),
        m.true_positives + m.false_negatives > 0 ==> m.recall_of() == Some(
            Number::part(m.true_positives, m.true_positives + m.false_negatives),
        ),
        other.recall_of() == m.recall_of(),
{
    if m.true_positives > 0 && m.false_negatives == 0 {
        crate::arithmetic::law_whole_numbers_keep_their_worth(m.true_positives as u64);
    }
    if m.true_positives == 0 && m.false_negatives > 0 {
        crate::laws::coverage::law_no_part_of_anything_is_zero(m.false_negatives as u64);
    }
}

/// Recording for a subscription leaves the others, the proposals and the limits as they are; one
/// that was not known yet is known afterwards, under the name given.
pub proof fn law_records_touch_one_subscription(
    state: TrackerModel,
    id: Seq<char>,
    name: Seq<char>,
    event: EventModel,
    reactions: nat,
    t: Seq<char>,
)
    ensures
        ({
            let after = state.with_fire(id, name, event, reactions);
            &&& after.metrics.contains_key(id)
            &&& fired_on(after.metrics[id].fires, event.id)
            &&& state.metrics.contains_key(id) ==> after.metrics[id].fires.len() == state.metrics[id].fires.len() + 1
                && after.metrics[id].subscription_name == state.metrics[id].subscription_name && after.order == state.order
            &&& !state.metrics.contains_key(id) ==> after.metrics[id].fires.len() == 1
                && after.metrics[id].subscription_name == name && after.metrics[id].subscription_id == id
                && after.order == state.order.push(id)
            &&& t != id ==> (after.metrics.contains_key(t) <==> state.metrics.contains_key(t)) && after.metrics[t]
                == state.metrics[t]
            &&& after.proposals == state.proposals && after.min_fires == state.min_fires && after.threshold
                == state.threshold
        }),
{
    let m = state.metrics_or(id, name);
    law_fires_are_logged(m, event, reactions);
}

/// The reactions of a subscription to an event are the events that name it as a cause and are
/// credited to the subscription, or, where nothing is known of who gave rise to them, any that
/// name it.
pub proof fn law_reactions_name_their_cause(
    events: Seq<EventModel>,
    by: Seq<Option<Seq<char>>>,
    id: Seq<char>,
    subscription: Seq<char>,
)
    ensures
        reactions_by(events, by, id, subscription) > 0 <==> exists|i: int|
            0 <= i < events.len() && (#[trigger] events[i]).caused_by.contains(id) && (i >= by.len() || by[i] == Some(
                subscription,
            )),
        (forall|i: int| 0 <= i < events.len() ==> (#[trigger] events[i]).caused_by.no_duplicates())
            ==> reactions_by(events, by, id, subscription) == Set::new(
            |i: int|
                0 <= i < events.len() && events[i].caused_by.contains(id) && (i >= by.len() || by[i] == Some(subscription)),
        ).len(),
    decreases events.len(),
{
    let chosen = Set::new(
        |i: int|
            0 <= i < events.len() && events[i].caused_by.contains(id) && (i >= by.len() || by[i] == Some(subscription)),
    );
    if events.len() > 0 {
        let fewer = events.drop_last();
        let last = events.len() - 1;
        law_reactions_name_their_cause(fewer, by, id, subscription);
        times_are_counted(events.last().caused_by, id);
        let before = Set::new(
            |i: int|
                0 <= i < fewer.len() && fewer[i].caused_by.contains(id) && (i >= by.len() || by[i] == Some(subscription)),
        );
        assert(before.subset_of(Set::new(|i: int| 0 <= i < last)));
        vstd::set_lib::lemma_int_range(0, last);
        assert(before.subset_of(vstd::set_lib::set_int_range(0, last)));
        vstd::set_lib::lemma_set_subset_finite(vstd::set_lib::set_int_range(0, last), before);
        assert(events[last] == events.last());
        if events.last().caused_by.contains(id) && (last >= by.len() || by[last] == Some(subscription)) {
            assert(chosen =~= before.insert(last));
        } else {
            assert(chosen =~= before);
        }
        if exists|i: int|
            0 <= i < fewer.len() && (#[trigger] fewer[i]).caused_by.contains(id) && (i >= by.len() || by[i] == Some(
                subscription,
            )) {
            let i = choose|i: int|
                0 <= i < fewer.len() && (#[trigger] fewer[i]).caused_by.contains(id) && (i >= by.len() || by[i] == Some(
                    subscription,
                ));
            assert(events[i].caused_by.contains(id));
        }
        if exists|i: int|
            0 <= i < events.len() && (#[trigger] events[i]).caused_by.contains(id) && (i >= by.len() || by[i] == Some(
                subscription,
            )) {
            let i = choose|i: int|
                0 <= i < events.len() && (#[trigger] events[i]).caused_by.contains(id) && (i >= by.len() || by[i] == Some(
                    subscription,
                ));
            if i < last {
                assert(fewer[i].caused_by.contains(id));
            }
        }
        if forall|i: int| 0 <= i < events.len() ==> (#[trigger] events[i]).caused_by.no_duplicates() {
            assert forall|i: int| 0 <= i < fewer.len() implies (#[trigger] fewer[i]).caused_by.no_duplicates() by {
                assert(events[i].caused_by.no_duplicates());
            }
            assert(events[last].caused_by.no_duplicates());
        }
    } else {
        assert(chosen =~= Set::empty());
    }
}

proof fn times_are_counted(ids: Seq<Seq<char>>, id: Seq<char>)
    ensures
        times_listed(ids, id) > 0 <==> ids.contains(id),
        ids.no_duplicates() ==> times_listed(ids, id) <= 1,
    decreases ids.len(),
{
    if ids.len() > 0 {
        let fewer = ids.drop_last();
        times_are_counted(fewer, id);
        if fewer.contains(id) {
            assert(ids[fewer.index_of(id)] == id);
        }
        if ids.contains(id) {
            let i = ids.index_of(id);
            if i < fewer.len() {
                assert(fewer[i] == id);
            }
        }
        assert(ids[ids.len() - 1] == ids.last());
        if ids.no_duplicates() && ids.last() == id {
            if fewer.contains(id) {
                let i = fewer.index_of(id);
                assert(ids[i] == ids[ids.len() - 1]);
            }
        }
        if ids.no_duplicates() {
            assert(fewer.no_duplicates());
        }
    }
}

/// Every subscription that asks for an event has fired on it once the fires are recorded; one
/// that does not ask is left as it was.
pub proof fn law_those_that_ask_fire(
    state: TrackerModel,
    registry: Seq<SubscriptionModel>,
    asked: Seq<SubscriptionModel>,
    event: EventModel,
    events: Seq<EventModel>,
    by: Seq<Option<Seq<char>>>,
    t: Seq<char>,
)
    ensures
        ({
            let after = fires_recorded(state, registry, asked, event, events, by);
            &&& (exists|i: int| 0 <= i < asked.len() && (#[trigger] asked[i]).id == t) ==> after.metrics.contains_key(t)
                && fired_on(after.metrics[t].fires, event.id)
            &&& !(exists|i: int| 0 <= i < asked.len() && (#[trigger] asked[i]).id == t) ==> after.metrics[t]
                == state.metrics[t] && (after.metrics.contains_key(t) <==> state.metrics.contains_key(t))
            &&& state.metrics.contains_key(t) ==> after.metrics.contains_key(t) && state.metrics[t].fires.len()
                <= after.metrics[t].fires.len() && after.metrics[t].fires.take(state.metrics[t].fires.len() as int)
                == state.metrics[t].fires
        }),
    decreases asked.len(),
{
    if asked.len() > 0 {
        let fewer = asked.drop_last();
        let last = asked.last();
        law_those_that_ask_fire(state, registry, fewer, event, events, by, t);
        let before = fires_recorded(state, registry, fewer, event, events, by);
        let after = fires_recorded(state, registry, asked, event, events, by);
        let name = crate::evolution::registered_name(registry, last.id);
        let n = reactions_by(events, by, event.id, last.id);
        law_records_touch_one_subscription(before, last.id, name, event, n, t);
        assert(asked[asked.len() - 1] == last);
        if exists|i: int| 0 <= i < asked.len() && (#[trigger] asked[i]).id == t {
            let i = choose|i: int| 0 <= i < asked.len() && (#[trigger] asked[i]).id == t;
            if i < fewer.len() {
                assert(fewer[i].id == t);
            }
        }
        if exists|i: int| 0 <= i < fewer.len() && (#[trigger] fewer[i]).id == t {
            let i = choose|i: int| 0 <= i < fewer.len() && (#[trigger] fewer[i]).id == t;
            assert(asked[i].id == t);
            assert(before.metrics.contains_key(t));
            if t == last.id {
                assert(fired_on(after.metrics[t].fires, event.id));
            }
        }
        if state.metrics.contains_key(t) && t == last.id {
            law_fires_are_logged(before.metrics[t], event, n);
            let k = state.metrics[t].fires.len() as int;
            assert(after.metrics[t].fires.take(k) =~= before.metrics[t].fires.take(k));
        }
    } else if state.metrics.contains_key(t) {
        assert(state.metrics[t].fires.take(state.metrics[t].fires.len() as int) =~= state.metrics[t].fires);
    }
}

proof fn fires_stay(one: Seq<FireModel>, other: Seq<FireModel>, event: Seq<char>)
    requires
        one.len() <= other.len(),
        other.take(one.len() as int) == one,
        fired_on(one, event),
    ensures
        fired_on(other, event),
{
    let i = choose|i: int| 0 <= i < one.len() && (#[trigger] one[i]).trigger_event_id == event;
    assert(other.take(one.len() as int)[i] == other[i]);
    assert(other[i].trigger_event_id == event);
}

/// Once a cascade is recorded, every subscription has fired on each of its events that it asks
/// for.
pub proof fn law_recorded_cascades_hold_every_fire(
    state: TrackerModel,
    registry: Seq<SubscriptionModel>,
    events: Seq<EventModel>,
    by: Seq<Option<Seq<char>>>,
    n: nat,
    i: int,
    s: SubscriptionModel,
)
    requires
        0 <= i < n <= events.len(),
        registry.contains(s),
        passes(s.filter, events[i].kind),
    ensures
        ({
            let after = cascade_recorded(state, registry, events, by, n);
            after.metrics.contains_key(s.id) && fired_on(after.metrics[s.id].fires, events[i].id)
        }),
    decreases n,
{
    let event = events[n - 1];
    let before = cascade_recorded(state, registry, events, by, (n - 1) as nat);
    let asked = asking(registry, event.kind);
    law_those_that_ask_fire(before, registry, asked, event, events, by, s.id);
    if i < n - 1 {
        law_recorded_cascades_hold_every_fire(state, registry, events, by, (n - 1) as nat, i, s);
        let after = cascade_recorded(state, registry, events, by, n);
        fires_stay(before.metrics[s.id].fires, after.metrics[s.id].fires, events[i].id);
    } else {
        law_those_that_ask_are_picked_out(registry, event.kind);
        let asks = |s: SubscriptionModel| passes(s.filter, event.kind);
        let k = registry.index_of(s);
        registry.lemma_filter_contains(asks, k);
        let j = asked.index_of(s);
        assert(asked[j].id == s.id);
    }
}

/// The first events on nodes are at most as many as the limit, all on these nodes, and all there
/// are where they do not reach the limit.
pub proof fn law_first_events_are_on_the_nodes(
    events: Seq<EventModel>,
    nodes: Seq<Seq<char>>,
    limit: nat,
    e: EventModel,
)
    ensures
        first_on_nodes(events, nodes, limit).len() <= limit,
        first_on_nodes(events, nodes, limit).contains(e) ==> events.contains(e) && e.kind.target() is Some
            && nodes.contains(e.kind.target()->0),
        first_on_nodes(events, nodes, limit).len() < limit && events.contains(e) && e.kind.target() is Some
            && nodes.contains(e.kind.target()->0) ==> first_on_nodes(events, nodes, limit).contains(e),
    decreases events.len(),
{
    if events.len() > 0 {
        let fewer = events.drop_last();
        law_first_events_are_on_the_nodes(fewer, nodes, limit, e);
        let before = first_on_nodes(fewer, nodes, limit);
        let all = first_on_nodes(events, nodes, limit);
        if fewer.contains(e) {
            assert(events[fewer.index_of(e)] == e);
        }
        if events.contains(e) {
            let i = events.index_of(e);
            if i < fewer.len() {
                assert(fewer[i] == e);
            }
        }
        assert(events[events.len() - 1] == events.last());
        if before.contains(e) {
            assert(all[before.index_of(e)] == e);
        }
        if all.contains(e) {
            let i = all.index_of(e);
            if i < before.len() {
                assert(before[i] == e);
            }
        }
        if all.len() > before.len() {
            assert(all[before.len() as int] == events.last());
        }
    }
}

/// A subscription that asks for an event of an anomaly and fired on none of the anomaly's events
/// has missed it afterwards; one that fired on one of them is left as it was.
pub proof fn law_those_that_stayed_silent_missed(
    state: Findings,
    asked: Seq<SubscriptionModel>,
    event: EventModel,
    all: Seq<EventModel>,
    anomaly: AnomalyModel,
    now: Timestamp,
    t: Seq<char>,
)
    ensures
        ({
            let after = event_misses(state, asked, event, all, anomaly, now);
            let asks = exists|i: int| 0 <= i < asked.len() && (#[trigger] asked[i]).id == t;
            &&& asks && !did_fire(state.tracker, t, all) ==> after.tracker.metrics.contains_key(t) && known_miss(
                after.tracker.metrics[t].misses,
                event.id,
            )
            &&& did_fire(state.tracker, t, all) || !asks ==> after.tracker.metrics[t] == state.tracker.metrics[t] && (
            after.tracker.metrics.contains_key(t) <==> state.tracker.metrics.contains_key(t))
            &&& did_fire(after.tracker, t, all) <==> did_fire(state.tracker, t, all)
            &&& after.misses >= state.misses
            &&& after.misses == state.misses ==> after.tracker == state.tracker
            &&& state.tracker.metrics.contains_key(t) ==> after.tracker.metrics.contains_key(t)
        }),
    decreases asked.len(),
{
    if asked.len() > 0 {
        let fewer = asked.drop_last();
        let last = asked.last();
        law_those_that_stayed_silent_missed(state, fewer, event, all, anomaly, now, t);
        law_those_that_stayed_silent_missed(state, fewer, event, all, anomaly, now, last.id);
        let before = event_misses(state, fewer, event, all, anomaly, now);
        let after = event_misses(state, asked, event, all, anomaly, now);
        let m = before.tracker.metrics_or(last.id, last.name);
        let reason = Some(crate::evolution::miss_text(anomaly, last.name, event.id));
        law_misses_are_logged(m, event.id, reason, now);
        assert(asked[asked.len() - 1] == last);
        if exists|i: int| 0 <= i < asked.len() && (#[trigger] asked[i]).id == t {
            let i = choose|i: int| 0 <= i < asked.len() && (#[trigger] asked[i]).id == t;
            if i < fewer.len() {
                assert(fewer[i].id == t);
            }
        }
        if exists|i: int| 0 <= i < fewer.len() && (#[trigger] fewer[i]).id == t {
            let i = choose|i: int| 0 <= i < fewer.len() && (#[trigger] fewer[i]).id == t;
            assert(asked[i].id == t);
        }
        if t == last.id && after.misses > before.misses {
            assert(after.tracker.metrics[t].fires == m.fires);
            if before.tracker.metrics.contains_key(t) {
                assert(after.tracker.metrics[t].fires == before.tracker.metrics[t].fires);
                assert(did_fire(after.tracker, t, all) == did_fire(before.tracker, t, all));
            } else {
                assert(m.fires.len() == 0);
                assert(!did_fire(after.tracker, t, all));
            }
        } else {
            assert(after.tracker.metrics[t] == before.tracker.metrics[t]);
        }
    }
}

/// Anomalies that are not severe enough bring no misses to light.
pub proof fn law_slight_anomalies_show_no_misses(
    state: Findings,
    registry: Seq<SubscriptionModel>,
    log: LogModel,
    anomalies: Seq<AnomalyModel>,
    least: Number,
    now: Timestamp,
)
    requires
        forall|i: int| 0 <= i < anomalies.len() ==> (#[trigger] anomalies[i]).severity.below(least),
    ensures
        anomalies_misses(state, registry, log, anomalies, least, now) == state,
    decreases anomalies.len(),
{
    if anomalies.len() > 0 {
        let fewer = anomalies.drop_last();
        assert forall|i: int| 0 <= i < fewer.len() implies (#[trigger] fewer[i]).severity.below(least) by {
            assert(anomalies[i].severity.below(least));
        }
        assert(anomalies[anomalies.len() - 1].severity.below(least));
        law_slight_anomalies_show_no_misses(state, registry, log, fewer, least, now);
    }
}

/// A subscription gets a proposal just when it fired often enough, its rate of false alarms is
/// above the threshold, and no proposal for it waits. The proposal waits, changes no filter, and
/// says how many false alarms there were.
pub proof fn law_proposals_are_for_those_that_do_badly(
    state: TrackerModel,
    ids: Seq<Seq<char>>,
    now: Timestamp,
    t: Seq<char>,
)
    requires
        state.sound(),
        forall|i: int| 0 <= i < ids.len() ==> state.metrics.contains_key(#[trigger] ids[i]),
    ensures
        ({
            let made = proposals_for(state, ids, now);
            let m = state.metrics[t];
            let asks = exists|k: int| 0 <= k < made.len() && (#[trigger] made[k]).subscription_id == t;
            &&& asks <==> ids.contains(t) && m.total_fires >= state.min_fires && m.rate_of() is Some
                && state.threshold.below(m.rate_of()->0) && !(exists|i: int|
                0 <= i < state.proposals.len() && (#[trigger] state.proposals[i]).subscription_id == t
                    && state.proposals[i].status == ProposalStatus::Proposed)
            &&& forall|k: int|
                0 <= k < made.len() ==> (#[trigger] made[k]).status == ProposalStatus::Proposed
                    && made[k].resolved_at is None && made[k].proposed_at == now && made[k].proposed_filter is None
                    && made[k].fires_prevented == state.metrics[made[k].subscription_id].false_positives
                    && made[k].estimated_precision == state.metrics[made[k].subscription_id].precision_of()
        }),
    decreases ids.len(),
{
    if ids.len() > 0 {
        let fewer = ids.drop_last();
        let last = ids.last();
        assert forall|i: int| 0 <= i < fewer.len() implies state.metrics.contains_key(#[trigger] fewer[i]) by {
            assert(state.metrics.contains_key(ids[i]));
        }
        law_proposals_are_for_those_that_do_badly(state, fewer, now, t);
        assert(state.metrics.contains_key(ids[ids.len() - 1]));
        assert(state.metrics[last].subscription_id == last);
        let before = proposals_for(state, fewer, now);
        let made = proposals_for(state, ids, now);
        if fewer.contains(t) {
            assert(ids[fewer.index_of(t)] == t);
        }
        if ids.contains(t) {
            let i = ids.index_of(t);
            if i < fewer.len() {
                assert(fewer[i] == t);
            }
        }
        if exists|k: int| 0 <= k < before.len() && (#[trigger] before[k]).subscription_id == t {
            let k = choose|k: int| 0 <= k < before.len() && (#[trigger] before[k]).subscription_id == t;
            assert(made[k].subscription_id == t);
        }
        if exists|k: int| 0 <= k < made.len() && (#[trigger] made[k]).subscription_id == t {
            let k = choose|k: int| 0 <= k < made.len() && (#[trigger] made[k]).subscription_id == t;
            if k < before.len() {
                assert(before[k].subscription_id == t);
            }
        }
        if made.len() > before.len() {
            assert(made[before.len() as int].subscription_id == last);
        }
        assert forall|k: int| 0 <= k < made.len() implies (#[trigger] made[k]).status == ProposalStatus::Proposed
            && made[k].resolved_at is None && made[k].proposed_at == now && made[k].proposed_filter is None
            && made[k].fires_prevented == state.metrics[made[k].subscription_id].false_positives
            && made[k].estimated_precision == state.metrics[made[k].subscription_id].precision_of() by {
            if k < before.len() {
                assert(made[k] == before[k]);
            }
        }
    }
}

/// An answer to a proposal is noted with its time. What the proposal says, the other proposals
/// and the metrics stay as they are.
pub proof fn law_answers_change_one_proposal(
    state: TrackerModel,
    index: int,
    status: ProposalStatus,
    now: Timestamp,
    j: int,
)
    requires
        0 <= index < state.proposals.len(),
        0 <= j < state.proposals.len(),
    ensures
        ({
            let after = resolved(state, index, status, now);
            &&& after.proposals.len() == state.proposals.len()
            &&& after.proposals[index].status == status && after.proposals[index].resolved_at == Some(now)
            &&& after.proposals[index].subscription_id == state.proposals[index].subscription_id
            &&& after.proposals[index].proposed_filter == state.proposals[index].proposed_filter
            &&& after.proposals[index].proposed_at == state.proposals[index].proposed_at
            &&& j != index ==> after.proposals[j] == state.proposals[j]
            &&& after.metrics == state.metrics && after.order == state.order
        }),
{
}

/// The fire is on an event of the log.
pub open spec fn on_record(fire: FireModel, events: Seq<EventModel>) -> bool {
    last_position(events, fire.trigger_event_id) is Some
}

/// A simulation sorts the fires whose events are in the log into those that the filter asks for
/// and those that it does not. A filter for everything would lose none of them, and those with an
/// outcome are some of them.
pub proof fn law_simulations_sort_the_fires(
    fires: Seq<FireModel>,
    events: Seq<EventModel>,
    filter: FilterModel,
    outcome: SubscriptionOutcome,
)
    ensures
        simulated(fires, events, filter, true, None) + simulated(fires, events, filter, false, None) == fires.filter(
            |f: FireModel| on_record(f, events),
        ).len(),
        simulated(fires, events, filter, true, Some(outcome)) + simulated(fires, events, filter, false, Some(outcome))
            == fires.filter(|f: FireModel| on_record(f, events) && f.outcome == Some(outcome)).len(),
        simulated(fires, events, filter, true, Some(outcome)) <= simulated(fires, events, filter, true, None),
        simulated(fires, events, filter, false, Some(outcome)) <= simulated(fires, events, filter, false, None),
        simulated(fires, events, FilterModel::Any, false, None) == 0,
        (forall|i: int| 0 <= i < events.len() ==> !passes(filter, (#[trigger] events[i]).kind)) ==> simulated(
            fires,
            events,
            filter,
            true,
            None,
        ) == 0,
    decreases fires.len(),
{
    reveal(Seq::filter);
    if fires.len() > 0 {
        law_simulations_sort_the_fires(fires.drop_last(), events, filter, outcome);
        crate::event_log::last_position_bounds(events, fires.last().trigger_event_id);
    }
}

/// A fire can be judged once it is recorded; no fire can be judged that is not there, or of a
/// subscription that is not known, or that has a judgement.
pub proof fn law_recorded_fires_can_be_judged(
    state: TrackerModel,
    id: Seq<char>,
    name: Seq<char>,
    event: EventModel,
    reactions: nat,
    i: int,
)
    ensures
        ({
            let after = state.with_fire(id, name, event, reactions);
            &&& after.can_judge(id, after.metrics[id].fires.len() - 1)
            &&& !after.can_judge(id, after.metrics[id].fires.len() as int) && !after.can_judge(id, -1)
        }),
        !state.metrics.contains_key(id) ==> !state.can_judge(id, i),
        state.can_judge(id, i) ==> 0 <= i < state.metrics[id].fires.len() && state.metrics[id].fires[i].outcome is None,
{
    law_fires_are_logged(state.metrics_or(id, name), event, reactions);
}

/// A proposal can be carried out just where it is approved, names a filter, and its subscription
/// is registered. Approving one that waits makes it stand as approved.
pub proof fn law_approved_proposals_can_be_carried_out(
    state: TrackerModel,
    index: int,
    registry: Seq<SubscriptionModel>,
    i: int,
    now: Timestamp,
)
    requires
        0 <= index < state.proposals.len(),
    ensures
        0 <= i < registry.len() && registry[i].id == state.proposals[index].subscription_id
            && state.proposals[index].proposed_filter is Some && state.proposals[index].status == ProposalStatus::Approved
            ==> can_apply(state, index, registry),
        can_apply(state, index, registry) ==> state.proposals[index].proposed_filter is Some
            && state.proposals[index].status == ProposalStatus::Approved,
        (forall|j: int|
            0 <= j < registry.len() ==> (#[trigger] registry[j]).id != state.proposals[index].subscription_id)
            ==> !can_apply(state, index, registry),
        stands_at(resolved(state, index, ProposalStatus::Approved, now), index, ProposalStatus::Approved),
        stands_at(state, index, state.proposals[index].status),
        !stands_at(state, state.proposals.len() as int, ProposalStatus::Proposed),
        !stands_at(state, -1, ProposalStatus::Proposed),
{
    let id = state.proposals[index].subscription_id;
    if 0 <= i < registry.len() {
        law_the_first_with_the_identifier_is_found(registry, id, i);
    }
    if registry.len() > 0 {
        law_the_first_with_the_identifier_is_found(registry, id, 0);
    }
}

/// Metrics with judgements are ranked: each of the list that has a rate of false alarms is there,
/// and no other.
pub proof fn law_rankings_hold_all_that_are_judged(list: Seq<MetricsModel>)
    ensures
        by_rate(list).to_multiset() == list.filter(|m: MetricsModel| m.rate_of() is Some).to_multiset(),
    decreases list.len(),
{
    reveal(Seq::filter);
    broadcast use vstd::seq_lib::group_to_multiset_ensures;
    if list.len() > 0 {
        let rest = list.drop_last();
        law_rankings_hold_all_that_are_judged(rest);
        let judged = |m: MetricsModel| m.rate_of() is Some;
        let before = by_rate(rest);
        if let Some(rate) = list.last().rate_of() {
            place_in_ranking(before, rate);
            let k = rank(before, rate);
            let all = before.insert(k, list.last());
            assert(all =~= before.take(k) + seq![list.last()] + before.skip(k));
            assert(before =~= before.take(k) + before.skip(k));
            vstd::seq_lib::lemma_multiset_commutative(before.take(k), before.skip(k));
            vstd::seq_lib::lemma_multiset_commutative(before.take(k) + seq![list.last()], before.skip(k));
            vstd::seq_lib::lemma_multiset_commutative(before.take(k), seq![list.last()]);
            assert(rest.filter(judged).push(list.last()) =~= rest.filter(judged) + seq![list.last()]);
            vstd::seq_lib::lemma_multiset_commutative(rest.filter(judged), seq![list.last()]);
            assert(all.to_multiset() =~= rest.filter(judged).push(list.last()).to_multiset());
        }
    }
}

proof fn place_in_ranking(list: Seq<MetricsModel>, rate: Number)
    ensures
        0 <= rank(list, rate) <= list.len(),
    decreases list.len(),
{
    if list.len() > 0 {
        place_in_ranking(list.drop_last(), rate);
    }
}

/// Every subscription that asks for an event is heard: its handler was given the subscription, the
/// event and the graph, and what it gave is among the reactions.
pub proof fn law_every_subscription_that_asks_is_heard<
    H: Fn(&Subscription, &Event, &Projection) -> Vec<EventKind>,
>(
    list: Seq<SubscriptionModel>,
    handle: H,
    event: EventModel,
    graph: GraphModel,
    kinds: Seq<EventKind>,
    by: Seq<Seq<char>>,
    s: SubscriptionModel,
)
    requires
        answered(list, handle, event, graph, kinds, by),
        list.contains(s),
        passes(s.filter, event.kind),
    ensures
        by.len() == kinds.len(),
        exists|x: &Subscription, e: &Event, p: &Projection, v: Vec<EventKind>| #[trigger]
            call_ensures(handle, (x, e, p), v) && x@ == s && e@ == event && p@ == graph && forall|j: int|
                0 <= j < v@.len() ==> kinds.contains(#[trigger] v@[j]),
{
    let asked = asking(list, event.kind);
    let (subscriptions, e, p, batches) = choose|
        subscriptions: Seq<&Subscription>,
        e: &Event,
        p: &Projection,
        batches: Seq<Vec<EventKind>>,
    |
        {
            &&& #[trigger] served(handle, subscriptions, e, p, batches)
            &&& e@ == event
            &&& p@ == graph
            &&& borrowed_subscriptions(subscriptions) == asked
            &&& kinds == gathered(batches)
            &&& by == credited(asked, batches)
        };
    crate::registry::credited_length(asked, batches);
    law_those_that_ask_are_picked_out(list, event.kind);
    let asks = |s: SubscriptionModel| passes(s.filter, event.kind);
    list.lemma_filter_contains(asks, list.index_of(s));
    let i = asked.index_of(s);
    assert(borrowed_subscriptions(subscriptions)[i] == subscriptions[i]@);
    let v = batches[i];
    assert(call_ensures(handle, (subscriptions[i], e, p), v));
    assert forall|j: int| 0 <= j < v@.len() implies kinds.contains(#[trigger] v@[j]) by {
        law_reactions_are_credited_to_their_subscription(asked, batches, i, j);
        let q = choose|q: int|
            0 <= q < gathered(batches).len() && #[trigger] gathered(batches)[q] == batches[i]@[j] && credited(
                asked,
                batches,
            )[q] == asked[i].id;
        assert(kinds[q] == v@[j]);
    }
}

/// A miss that is known is not counted again: where every subscription that asks is known to have
/// missed the event, nothing changes.
pub proof fn law_known_misses_are_not_counted_again(
    state: Findings,
    asked: Seq<SubscriptionModel>,
    event: EventModel,
    all: Seq<EventModel>,
    anomaly: AnomalyModel,
    now: Timestamp,
)
    requires
        forall|i: int|
            0 <= i < asked.len() ==> state.tracker.metrics.contains_key((#[trigger] asked[i]).id) && known_miss(
                state.tracker.metrics[asked[i].id].misses,
                event.id,
            ),
    ensures
        event_misses(state, asked, event, all, anomaly, now) == state,
    decreases asked.len(),
{
    if asked.len() > 0 {
        let fewer = asked.drop_last();
        assert forall|i: int| 0 <= i < fewer.len() implies state.tracker.metrics.contains_key((#[trigger] fewer[i]).id)
            && known_miss(state.tracker.metrics[fewer[i].id].misses, event.id) by {
            assert(state.tracker.metrics.contains_key(asked[i].id));
        }
        law_known_misses_are_not_counted_again(state, fewer, event, all, anomaly, now);
        assert(state.tracker.metrics.contains_key(asked[asked.len() - 1].id));
    }
}

/// The events of an anomaly hold its trigger, where the log has it. Without a trigger they are the
/// latest on its nodes, at most fifty.
pub proof fn law_anomalies_have_their_events(anomaly: AnomalyModel, log: LogModel, e: EventModel)
    ensures
        anomaly.trigger_event matches Some(id) ==> (last_position(log.events, id) matches Some(i) ==> anomaly_events(
            anomaly,
            log,
        ).contains(log.events[i])),
        anomaly.trigger_event is None ==> anomaly_events(anomaly, log).len() <= 50 && (anomaly_events(
            anomaly,
            log,
        ).contains(e) ==> e.kind.target() is Some && anomaly.affected_nodes.contains(e.kind.target()->0)),
{
    if let Some(id) = anomaly.trigger_event {
        if let Some(i) = last_position(log.events, id) {
            let chain = causes(log.events, id, log.events.len()).reverse();
            let found = around(log, id);
            assert(found[chain.len() as int] == log.events[i]);
            assert(anomaly_events(anomaly, log) == found);
        }
    } else {
        law_first_events_are_on_the_nodes(log.events.reverse(), anomaly.affected_nodes, 50, e);
    }
}

} // verus!
