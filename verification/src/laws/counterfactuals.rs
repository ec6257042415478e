//! Laws of counterfactuals: what is removed with an event, and how two graphs differ.

use crate::counterfactual::{
    affected_type_list, changed_edges, changed_nodes, chosen_count, diff_keys, edges_only_in, is_edge_diff,
    is_filtered, is_graph_diff, is_impact, is_node_diff, is_replay, node_property_total, nodes_only_in, occurrences,
    property_differs, replay_count, replayed_graph, steady_nodes, subtree, tallies, CounterfactualFilterResult,
    CounterfactualResult, FIVE, GraphDiff, ImpactScore, NodeDiff, TEN,
};
use crate::event::{EventKind, EventModel};
use crate::event_log::{breadth_first, caused, descendants, found_at, reached};
use crate::ids::texts;
use crate::number::{two_to, Number, LEADING, ONE};
use crate::projection::GraphModel;
use crate::value::{values_equal, ValueModel};
use vstd::prelude::*;

verus! {

/// The property has different values, or only one of the two holds it.
pub open spec fn apart(one: Map<Seq<char>, ValueModel>, other: Map<Seq<char>, ValueModel>, k: Seq<char>) -> bool {
    ||| one.contains_key(k) && !other.contains_key(k)
    ||| !one.contains_key(k) && other.contains_key(k)
    ||| one.contains_key(k) && other.contains_key(k) && !values_equal(one[k], other[k])
}

/// The diff names the property of the node, with the two values as far as they are there.
pub open spec fn names_node_property(diff: GraphDiff, actual: GraphModel, other: GraphModel, t: Seq<char>, k: Seq<char>) -> bool {
    exists|i: int, j: int|
        #![trigger diff.nodes_changed@[i].property_diffs@[j]]
        {
            &&& 0 <= i < diff.nodes_changed@.len()
            &&& diff.nodes_changed@[i].node_id@ == t
            &&& 0 <= j < diff.nodes_changed@[i].property_diffs@.len()
            &&& diff.nodes_changed@[i].property_diffs@[j].key@ == k
            &&& match diff.nodes_changed@[i].property_diffs@[j].actual {
                Some(v) => actual.nodes[t].properties.contains_key(k) && v@ == actual.nodes[t].properties[k],
                None => !actual.nodes[t].properties.contains_key(k),
            }
            &&& match diff.nodes_changed@[i].property_diffs@[j].counterfactual {
                Some(v) => other.nodes[t].properties.contains_key(k) && v@ == other.nodes[t].properties[k],
                None => !other.nodes[t].properties.contains_key(k),
            }
        }
}

/// The diff names the property of the edge, with the two values as far as they are there.
pub open spec fn names_edge_property(diff: GraphDiff, actual: GraphModel, other: GraphModel, t: Seq<char>, k: Seq<char>) -> bool {
    exists|i: int, j: int|
        #![trigger diff.edges_changed@[i].property_diffs@[j]]
        {
            &&& 0 <= i < diff.edges_changed@.len()
            &&& diff.edges_changed@[i].edge_id@ == t
            &&& 0 <= j < diff.edges_changed@[i].property_diffs@.len()
            &&& diff.edges_changed@[i].property_diffs@[j].key@ == k
            &&& match diff.edges_changed@[i].property_diffs@[j].actual {
                Some(v) => actual.edges[t].properties.contains_key(k) && v@ == actual.edges[t].properties[k],
                None => !actual.edges[t].properties.contains_key(k),
            }
            &&& match diff.edges_changed@[i].property_diffs@[j].counterfactual {
                Some(v) => other.edges[t].properties.contains_key(k) && v@ == other.edges[t].properties[k],
                None => !other.edges[t].properties.contains_key(k),
            }
        }
}

/// A property of a node that both graphs hold is named exactly where its values are apart. Where
/// one is named, something differs.
pub proof fn law_node_properties_that_differ_are_named(
    diff: GraphDiff,
    actual: GraphModel,
    other: GraphModel,
    t: Seq<char>,
    k: Seq<char>,
)
    requires
        is_graph_diff(diff, actual, other),
        actual.nodes.contains_key(t),
        other.nodes.contains_key(t),
    ensures
        names_node_property(diff, actual, other, t, k) <==> apart(
            actual.nodes[t].properties,
            other.nodes[t].properties,
            k,
        ),
        apart(actual.nodes[t].properties, other.nodes[t].properties, k) ==> diff.nodes() > 0,
{
    let p = actual.nodes[t].properties;
    let q = other.nodes[t].properties;
    if apart(p, q, k) {
        assert(property_differs(p, q, k));
        assert(changed_nodes(diff.nodes_changed@).contains(t));
        let i = changed_nodes(diff.nodes_changed@).index_of(t);
        let d = diff.nodes_changed@[i];
        assert(d.node_id@ == t);
        assert(diff_keys(d.property_diffs@).contains(k));
        let j = diff_keys(d.property_diffs@).index_of(k);
        assert(d.property_diffs@[j].key@ == k);
        assert(diff.nodes_changed@[i].property_diffs@[j].key@ == k);
        assert(diff.node_set().contains(t));
        assert(diff.node_set().finite());
        assert(diff.node_set().remove(t).len() + 1 == diff.node_set().len());
    }
    if names_node_property(diff, actual, other, t, k) {
        let (i, j): (int, int) = choose|i: int, j: int|
            #![trigger diff.nodes_changed@[i].property_diffs@[j]]
            0 <= i < diff.nodes_changed@.len() && diff.nodes_changed@[i].node_id@ == t && 0 <= j
                < diff.nodes_changed@[i].property_diffs@.len() && diff.nodes_changed@[i].property_diffs@[j].key@ == k;
        let d = diff.nodes_changed@[i];
        assert(diff_keys(d.property_diffs@)[j] == k);
        assert(diff_keys(d.property_diffs@).contains(k));
        assert(property_differs(p, q, k));
    }
}

/// A property of an edge that both graphs hold is named exactly where its values are apart.
pub proof fn law_edge_properties_that_differ_are_named(
    diff: GraphDiff,
    actual: GraphModel,
    other: GraphModel,
    t: Seq<char>,
    k: Seq<char>,
)
    requires
        is_graph_diff(diff, actual, other),
        actual.edges.contains_key(t),
        other.edges.contains_key(t),
    ensures
        names_edge_property(diff, actual, other, t, k) <==> apart(
            actual.edges[t].properties,
            other.edges[t].properties,
            k,
        ),
        apart(actual.edges[t].properties, other.edges[t].properties, k) ==> diff.edges() > 0,
{
    let p = actual.edges[t].properties;
    let q = other.edges[t].properties;
    if apart(p, q, k) {
        assert(property_differs(p, q, k));
        assert(changed_edges(diff.edges_changed@).contains(t));
        let i = changed_edges(diff.edges_changed@).index_of(t);
        let d = diff.edges_changed@[i];
        assert(d.edge_id@ == t);
        assert(diff_keys(d.property_diffs@).contains(k));
        let j = diff_keys(d.property_diffs@).index_of(k);
        assert(d.property_diffs@[j].key@ == k);
        assert(diff.edges_changed@[i].property_diffs@[j].key@ == k);
        assert(diff.edge_set().contains(t));
        assert(diff.edge_set().finite());
        assert(diff.edge_set().remove(t).len() + 1 == diff.edge_set().len());
    }
    if names_edge_property(diff, actual, other, t, k) {
        let (i, j): (int, int) = choose|i: int, j: int|
            #![trigger diff.edges_changed@[i].property_diffs@[j]]
            0 <= i < diff.edges_changed@.len() && diff.edges_changed@[i].edge_id@ == t && 0 <= j
                < diff.edges_changed@[i].property_diffs@.len() && diff.edges_changed@[i].property_diffs@[j].key@ == k;
        let d = diff.edges_changed@[i];
        assert(diff_keys(d.property_diffs@)[j] == k);
        assert(diff_keys(d.property_diffs@).contains(k));
        assert(property_differs(p, q, k));
    }
}

/// What is alive in one graph only is listed for that graph, once; of what both hold, a change of
/// life is recorded with the two states, and nothing is listed that does not differ.
pub proof fn law_diffs_tell_the_living_apart(diff: GraphDiff, actual: GraphModel, other: GraphModel, t: Seq<char>)
    requires
        is_graph_diff(diff, actual, other),
    ensures
        texts(diff.nodes_only_in_actual@).contains(t) <==> actual.nodes.contains_key(t) && actual.nodes[t].alive && !(
        other.nodes.contains_key(t) && other.nodes[t].alive),
        texts(diff.nodes_only_in_counterfactual@).contains(t) <==> other.nodes.contains_key(t) && other.nodes[t].alive
            && !(actual.nodes.contains_key(t) && actual.nodes[t].alive),
        texts(diff.edges_only_in_actual@).contains(t) <==> actual.edges.contains_key(t) && actual.edges[t].alive && !(
        other.edges.contains_key(t) && other.edges[t].alive),
        texts(diff.edges_only_in_counterfactual@).contains(t) <==> other.edges.contains_key(t) && other.edges[t].alive
            && !(actual.edges.contains_key(t) && actual.edges[t].alive),
        texts(diff.nodes_only_in_actual@).no_duplicates(),
        texts(diff.nodes_only_in_counterfactual@).no_duplicates(),
        texts(diff.edges_only_in_actual@).no_duplicates(),
        texts(diff.edges_only_in_counterfactual@).no_duplicates(),
        changed_nodes(diff.nodes_changed@).contains(t) <==> actual.nodes.contains_key(t) && other.nodes.contains_key(t) && (
        actual.nodes[t].alive != other.nodes[t].alive || exists|k: Seq<char>| #[trigger]
            apart(actual.nodes[t].properties, other.nodes[t].properties, k)),
        changed_edges(diff.edges_changed@).contains(t) <==> actual.edges.contains_key(t) && other.edges.contains_key(t) && (
        actual.edges[t].alive != other.edges[t].alive || exists|k: Seq<char>| #[trigger]
            apart(actual.edges[t].properties, other.edges[t].properties, k)),
        forall|i: int|
            0 <= i < diff.nodes_changed@.len() ==> {
                let id = (#[trigger] diff.nodes_changed@[i]).node_id@;
                &&& actual.nodes[id].alive == other.nodes[id].alive ==> diff.nodes_changed@[i].alive_diff is None
                &&& actual.nodes[id].alive != other.nodes[id].alive ==> diff.nodes_changed@[i].alive_diff == Some(
                    (actual.nodes[id].alive, other.nodes[id].alive),
                )
            },
        forall|i: int|
            0 <= i < diff.edges_changed@.len() ==> {
                let id = (#[trigger] diff.edges_changed@[i]).edge_id@;
                &&& actual.edges[id].alive == other.edges[id].alive ==> diff.edges_changed@[i].alive_diff is None
                &&& actual.edges[id].alive != other.edges[id].alive ==> diff.edges_changed@[i].alive_diff == Some(
                    (actual.edges[id].alive, other.edges[id].alive),
                )
            },
{
    assert(texts(diff.nodes_only_in_actual@).contains(t) <==> nodes_only_in(actual, other).contains(t));
    assert(texts(diff.nodes_only_in_counterfactual@).contains(t) <==> nodes_only_in(other, actual).contains(t));
    assert(texts(diff.edges_only_in_actual@).contains(t) <==> edges_only_in(actual, other).contains(t));
    assert(texts(diff.edges_only_in_counterfactual@).contains(t) <==> edges_only_in(other, actual).contains(t));
    let p = actual.nodes[t].properties;
    let q = other.nodes[t].properties;
    assert forall|k: Seq<char>| #[trigger] apart(p, q, k) <==> property_differs(p, q, k) by {
    }
    if exists|k: Seq<char>| #[trigger] property_differs(p, q, k) {
        let k = choose|k: Seq<char>| #[trigger] property_differs(p, q, k);
        assert(apart(p, q, k));
    }
    if exists|k: Seq<char>| #[trigger] apart(p, q, k) {
        let k = choose|k: Seq<char>| #[trigger] apart(p, q, k);
        assert(property_differs(p, q, k));
    }
    let u = actual.edges[t].properties;
    let v = other.edges[t].properties;
    if exists|k: Seq<char>| #[trigger] property_differs(u, v, k) {
        let k = choose|k: Seq<char>| #[trigger] property_differs(u, v, k);
        assert(apart(u, v, k));
    }
    if exists|k: Seq<char>| #[trigger] apart(u, v, k) {
        let k = choose|k: Seq<char>| #[trigger] apart(u, v, k);
        assert(property_differs(u, v, k));
    }
}

/// An update that gives a living node another value for a property that it has shows in the diff
/// between the graph after it and the graph before it: the property is named, with both values.
pub proof fn law_updates_show_in_the_diff(
    graph: GraphModel,
    kind: EventKind,
    k: Seq<char>,
    diff: GraphDiff,
)
    requires
        kind is NodeUpdated,
        graph.nodes.contains_key(kind->NodeUpdated_node_id@),
        graph.nodes[kind->NodeUpdated_node_id@].alive,
        graph.nodes[kind->NodeUpdated_node_id@].properties.contains_key(k),
        kind->NodeUpdated_changes@.contains_key(k),
        !values_equal(graph.nodes[kind->NodeUpdated_node_id@].properties[k], kind->NodeUpdated_changes@[k]),
        !values_equal(kind->NodeUpdated_changes@[k], graph.nodes[kind->NodeUpdated_node_id@].properties[k]),
        is_graph_diff(diff, graph.after(kind), graph),
    ensures
        names_node_property(diff, graph.after(kind), graph, kind->NodeUpdated_node_id@, k),
        diff.nodes() > 0,
        graph.after(kind).nodes[kind->NodeUpdated_node_id@].properties[k] == kind->NodeUpdated_changes@[k],
{
    crate::laws::graphs::law_updated_nodes_take_the_values(graph, kind, k);
    law_node_properties_that_differ_are_named(diff, graph.after(kind), graph, kind->NodeUpdated_node_id@, k);
}

/// Removed events leave no trace: the graph without them is the graph that the others make.
pub proof fn law_removed_events_leave_no_trace(events: Seq<EventModel>, removed: Set<Seq<char>>)
    ensures
        replayed_graph(events, removed) == replayed_graph(
            events.filter(|e: EventModel| !removed.contains(e.id)),
            Set::empty(),
        ),
        replay_count(events, removed, true) == replay_count(
            events.filter(|e: EventModel| !removed.contains(e.id)),
            Set::empty(),
            true,
        ),
        replay_count(events, removed, false) == replay_count(
            events.filter(|e: EventModel| !removed.contains(e.id)),
            Set::empty(),
            false,
        ),
    decreases events.len(),
{
    reveal(Seq::filter);
    let keep = |e: EventModel| !removed.contains(e.id);
    if events.len() > 0 {
        law_removed_events_leave_no_trace(events.drop_last(), removed);
        let fewer = events.drop_last().filter(keep);
        if keep(events.last()) {
            assert(events.filter(keep).drop_last() =~= fewer);
        }
    } else {
        assert(events.filter(keep) =~= events);
    }
}

/// A replay takes one event after the other, as the graph does, and counts whether it is
/// accepted.
pub proof fn law_replays_follow_the_graph(events: Seq<EventModel>, event: EventModel)
    ensures
        replayed_graph(Seq::empty(), Set::empty()) == GraphModel::empty(),
        replayed_graph(events.push(event), Set::empty()) == replayed_graph(events, Set::empty()).after(event.kind),
        replay_count(events.push(event), Set::empty(), true) == replay_count(events, Set::empty(), true) + if replayed_graph(
            events,
            Set::empty(),
        ).outcome(event.kind) is Ok {
            1nat
        } else {
            0nat
        },
        replay_count(events.push(event), Set::empty(), false) == replay_count(events, Set::empty(), false)
            + if replayed_graph(events, Set::empty()).outcome(event.kind) is Ok {
            0nat
        } else {
            1nat
        },
{
    assert(events.push(event).drop_last() =~= events);
}

/// The identifiers are closed: with an event they hold whatever names it as a cause.
pub open spec fn closed_under_causes(events: Seq<EventModel>, ids: Set<Seq<char>>) -> bool {
    forall|p: int, c: Seq<char>|
        0 <= p < events.len() && #[trigger] events[p].caused_by.contains(c) && ids.contains(c) ==> ids.contains(
            events[p].id,
        )
}

/// What an event brought about is just what must go with it: the identifiers reached from it hold
/// its own, are closed, and are contained in any others that are.
pub proof fn law_descendants_are_the_least_closed_set(
    events: Seq<EventModel>,
    root: Seq<char>,
    found: Seq<EventModel>,
    ids: Set<Seq<char>>,
)
    requires
        descendants(events, root, found),
    ensures
        reached(root, found).to_set().contains(root),
        closed_under_causes(events, reached(root, found).to_set()),
        ids.contains(root) && closed_under_causes(events, ids) ==> reached(root, found).to_set().subset_of(ids),
        reached(root, found).no_duplicates(),
        forall|i: int| 0 <= i < found.len() ==> events.contains(#[trigger] found[i]),
        forall|i: int| 0 <= i < found.len() ==> (#[trigger] found[i]).id != root,
{
    let (by, at): (Seq<int>, Seq<int>) = choose|by: Seq<int>, at: Seq<int>| #[trigger]
        breadth_first(events, root, found, by, at);
    let all = reached(root, found);
    assert(all[0] == root);
    assert(all.contains(root));
    assert forall|p: int, c: Seq<char>|
        0 <= p < events.len() && #[trigger] events[p].caused_by.contains(c) && all.to_set().contains(
            c,
        ) implies all.to_set().contains(events[p].id) by {
        assert(all.contains(c));
        let k = all.index_of(c);
        assert(caused(events[p], all[k]));
        assert(all.contains(events[p].id));
    }
    assert forall|i: int| 0 <= i < found.len() implies events.contains(#[trigger] found[i]) && found[i].id != root by {
        assert(found_at(events, all, found, by[i], at[i], i));
        assert(all[i + 1] == found[i].id);
        assert(all[0] != all[i + 1]);
    }
    if ids.contains(root) && closed_under_causes(events, ids) {
        reached_stay_inside(events, root, found, by, at, ids, all.len());
        assert forall|t: Seq<char>| all.to_set().contains(t) implies ids.contains(t) by {
            let i = all.index_of(t);
            assert(ids.contains(all[i]));
        }
    }
}

proof fn reached_stay_inside(
    events: Seq<EventModel>,
    root: Seq<char>,
    found: Seq<EventModel>,
    by: Seq<int>,
    at: Seq<int>,
    ids: Set<Seq<char>>,
    n: nat,
)
    requires
        breadth_first(events, root, found, by, at),
        ids.contains(root),
        closed_under_causes(events, ids),
        n <= reached(root, found).len(),
    ensures
        forall|i: int| 0 <= i < n ==> ids.contains(#[trigger] reached(root, found)[i]),
    decreases n,
{
    let all = reached(root, found);
    if n > 0 {
        reached_stay_inside(events, root, found, by, at, ids, (n - 1) as nat);
        let i = n - 2;
        if n == 1 {
            assert(all[0] == root);
        } else {
            assert(found_at(events, all, found, by[i], at[i], i));
            assert(all[i + 1] == found[i].id);
            assert(ids.contains(all[by[i]]));
            assert(events[at[i]].caused_by.contains(all[by[i]]));
        }
    }
}

/// What is removed with an event is the event itself and what it brought about, and no more.
pub proof fn law_subtrees_are_the_least_closed_sets(
    events: Seq<EventModel>,
    root: Seq<char>,
    removed: Set<Seq<char>>,
    ids: Set<Seq<char>>,
)
    requires
        subtree(events, root, removed),
    ensures
        removed.contains(root),
        closed_under_causes(events, removed),
        ids.contains(root) && closed_under_causes(events, ids) ==> removed.subset_of(ids),
{
    let found = choose|found: Seq<EventModel>| #[trigger]
        descendants(events, root, found) && removed == reached(root, found).to_set();
    law_descendants_are_the_least_closed_set(events, root, found, ids);
}

/// What is removed with chosen events is contained in every closed set that holds them. What is
/// chosen is counted.
pub proof fn law_filters_remove_no_more_than_they_must(
    r: CounterfactualFilterResult,
    events: Seq<EventModel>,
    chosen: Seq<bool>,
    removed: Set<Seq<char>>,
    ids: Set<Seq<char>>,
)
    requires
        is_filtered(r, events, chosen, removed),
        chosen.len() == events.len(),
    ensures
        closed_under_causes(events, ids) && (forall|i: int|
            0 <= i < chosen.len() && #[trigger] chosen[i] ==> ids.contains(events[i].id)) ==> removed.subset_of(ids),
        r.projection@ == replayed_graph(
            events.filter(|e: EventModel| !removed.contains(e.id)),
            Set::empty(),
        ),
        r.events_removed == removed.len(),
        r.roots_matched <= events.len(),
{
    law_removed_events_leave_no_trace(events, removed);
    chosen_are_at_most_all(chosen);
    if closed_under_causes(events, ids) && (forall|i: int|
        0 <= i < chosen.len() && #[trigger] chosen[i] ==> ids.contains(events[i].id)) {
        assert forall|t: Seq<char>| removed.contains(t) implies ids.contains(t) by {
            let (i, found): (int, Seq<EventModel>) = choose|i: int, found: Seq<EventModel>|
                0 <= i < chosen.len() && #[trigger] chosen[i] && #[trigger] descendants(events, events[i].id, found)
                    && reached(events[i].id, found).contains(t);
            law_descendants_are_the_least_closed_set(events, events[i].id, found, ids);
            assert(reached(events[i].id, found).to_set().contains(t));
        }
    }
}

proof fn chosen_are_at_most_all(chosen: Seq<bool>)
    ensures
        chosen_count(chosen) <= chosen.len(),
    decreases chosen.len(),
{
    if chosen.len() > 0 {
        chosen_are_at_most_all(chosen.drop_last());
    }
}

/// The node is alive in one graph only, or both hold it in states that are apart.
pub open spec fn node_is_apart(actual: GraphModel, other: GraphModel, t: Seq<char>) -> bool {
    ||| (actual.nodes.contains_key(t) && actual.nodes[t].alive) != (other.nodes.contains_key(t) && other.nodes[t].alive)
    ||| actual.nodes.contains_key(t) && other.nodes.contains_key(t) && exists|k: Seq<char>| #[trigger]
        apart(actual.nodes[t].properties, other.nodes[t].properties, k)
}

/// The edge is alive in one graph only, or both hold it in states that are apart.
pub open spec fn edge_is_apart(actual: GraphModel, other: GraphModel, t: Seq<char>) -> bool {
    ||| (actual.edges.contains_key(t) && actual.edges[t].alive) != (other.edges.contains_key(t) && other.edges[t].alive)
    ||| actual.edges.contains_key(t) && other.edges.contains_key(t) && exists|k: Seq<char>| #[trigger]
        apart(actual.edges[t].properties, other.edges[t].properties, k)
}

/// A diff counts every node and every edge that is apart, once.
pub proof fn law_diffs_count_what_is_apart(diff: GraphDiff, actual: GraphModel, other: GraphModel)
    requires
        is_graph_diff(diff, actual, other),
    ensures
        diff.nodes() == Set::new(|t: Seq<char>| node_is_apart(actual, other, t)).len(),
        diff.edges() == Set::new(|t: Seq<char>| edge_is_apart(actual, other, t)).len(),
{
    assert forall|t: Seq<char>| #[trigger] diff.node_set().contains(t) <==> node_is_apart(actual, other, t) by {
        law_diffs_tell_the_living_apart(diff, actual, other, t);
    }
    assert(diff.node_set() =~= Set::new(|t: Seq<char>| node_is_apart(actual, other, t)));
    assert forall|t: Seq<char>| #[trigger] diff.edge_set().contains(t) <==> edge_is_apart(actual, other, t) by {
        law_diffs_tell_the_living_apart(diff, actual, other, t);
    }
    assert(diff.edge_set() =~= Set::new(|t: Seq<char>| edge_is_apart(actual, other, t)));
}

/// The score of an event counts what would be different without the event and what it brought
/// about: each node and each edge once, and the events themselves.
pub proof fn law_impact_counts_what_is_apart(
    score: ImpactScore,
    event_id: Seq<char>,
    events: Seq<EventModel>,
    actual: GraphModel,
    removed: Set<Seq<char>>,
)
    requires
        is_impact(score, event_id, events, actual, removed),
    ensures
        ({
            let other = replayed_graph(events.filter(|e: EventModel| !removed.contains(e.id)), Set::empty());
            &&& score.event_id@ == event_id
            &&& score.causal_subtree_size == removed.len()
            &&& score.nodes_affected == Set::new(|t: Seq<char>| node_is_apart(actual, other, t)).len()
            &&& score.edges_affected == Set::new(|t: Seq<char>| edge_is_apart(actual, other, t)).len()
            &&& is_graph_diff(score.diff, actual, other)
        }),
{
    law_removed_events_leave_no_trace(events, removed);
    law_diffs_count_what_is_apart(score.diff, actual, replayed_graph(events, removed));
}

proof fn occurrences_are_counted(list: Seq<Seq<char>>, t: Seq<char>)
    ensures
        occurrences(list, t) > 0 <==> list.contains(t),
    decreases list.len(),
{
    if list.len() > 0 {
        let fewer = list.drop_last();
        occurrences_are_counted(fewer, t);
        if fewer.contains(t) {
            assert(list[fewer.index_of(t)] == t);
        }
        if list.contains(t) && list.last() != t {
            assert(fewer[list.index_of(t)] == t);
        }
        if list.last() == t {
            assert(list[list.len() - 1] == t);
        }
    }
}

proof fn steady_nodes_are_changed(diffs: Seq<NodeDiff>, i: int)
    requires
        0 <= i < diffs.len(),
        diffs[i].alive_diff is None,
    ensures
        steady_nodes(diffs).contains(diffs[i].node_id@),
    decreases diffs.len(),
{
    let fewer = diffs.drop_last();
    let rest = steady_nodes(fewer);
    if i < diffs.len() - 1 {
        steady_nodes_are_changed(fewer, i);
        let n = rest.index_of(diffs[i].node_id@);
        assert(steady_nodes(diffs)[n] == diffs[i].node_id@);
    } else {
        assert(steady_nodes(diffs)[rest.len() as int] == diffs[i].node_id@);
    }
}

/// The types of all nodes that are apart are counted.
pub proof fn law_impact_counts_the_types(
    score: ImpactScore,
    event_id: Seq<char>,
    events: Seq<EventModel>,
    actual: GraphModel,
    removed: Set<Seq<char>>,
    t: Seq<char>,
)
    requires
        is_impact(score, event_id, events, actual, removed),
        node_is_apart(actual, replayed_graph(events, removed), t),
    ensures
        ({
            let other = replayed_graph(events, removed);
            let type_id = if actual.nodes.contains_key(t) && (actual.nodes[t].alive || !(other.nodes.contains_key(t)
                && other.nodes[t].alive)) {
                actual.nodes[t].type_id
            } else {
                other.nodes[t].type_id
            };
            score.affected_types@.contains_key(type_id) && score.affected_types@[type_id] > 0
        }),
{
    let other = replayed_graph(events, removed);
    let diff = score.diff;
    law_diffs_tell_the_living_apart(diff, actual, other, t);
    let one = texts(diff.nodes_only_in_actual@).map_values(|x: Seq<char>| actual.nodes[x].type_id);
    let two = texts(diff.nodes_only_in_counterfactual@).map_values(|x: Seq<char>| other.nodes[x].type_id);
    let three = steady_nodes(diff.nodes_changed@).map_values(|x: Seq<char>| actual.nodes[x].type_id);
    let list = affected_type_list(diff, actual, other);
    assert(list == one + two + three);
    if texts(diff.nodes_only_in_actual@).contains(t) {
        let i = texts(diff.nodes_only_in_actual@).index_of(t);
        assert(list[i] == one[i]);
        occurrences_are_counted(list, actual.nodes[t].type_id);
    } else if texts(diff.nodes_only_in_counterfactual@).contains(t) {
        let i = texts(diff.nodes_only_in_counterfactual@).index_of(t);
        assert(list[one.len() + i] == two[i]);
        occurrences_are_counted(list, other.nodes[t].type_id);
    } else {
        assert(changed_nodes(diff.nodes_changed@).contains(t));
        let i = changed_nodes(diff.nodes_changed@).index_of(t);
        assert(diff.nodes_changed@[i].node_id@ == t);
        steady_nodes_are_changed(diff.nodes_changed@, i);
        let n = steady_nodes(diff.nodes_changed@).index_of(t);
        assert(list[one.len() + two.len() + n] == three[n]);
        occurrences_are_counted(list, actual.nodes[t].type_id);
    }
    assert(tallies(score.affected_types@, list));
}

/// What a counterfactual reports is the graph without the removed events, how many were removed,
/// and how many of the others the graph took and refused; together these are all events that
/// were kept.
pub proof fn law_counterfactuals_report_the_replay(r: CounterfactualResult, events: Seq<EventModel>, removed: Set<Seq<char>>)
    requires
        is_replay(r, events, removed),
    ensures
        r.projection@ == replayed_graph(events.filter(|e: EventModel| !removed.contains(e.id)), Set::empty()),
        r.events_removed == removed.len(),
        r.events_skipped + r.events_replayed == events.filter(|e: EventModel| !removed.contains(e.id)).len(),
{
    law_removed_events_leave_no_trace(events, removed);
    kept_events_are_counted(events, removed);
}

proof fn kept_events_are_counted(events: Seq<EventModel>, removed: Set<Seq<char>>)
    ensures
        replay_count(events, removed, true) + replay_count(events, removed, false) == events.filter(
            |e: EventModel| !removed.contains(e.id),
        ).len(),
    decreases events.len(),
{
    reveal(Seq::filter);
    if events.len() > 0 {
        kept_events_are_counted(events.drop_last(), removed);
    }
}

/// A filter removes every event that it chose, together with all that these brought about, and
/// says how many it chose, and how many of the others the graph took and refused.
pub proof fn law_filters_remove_what_they_choose(
    r: CounterfactualFilterResult,
    events: Seq<EventModel>,
    chosen: Seq<bool>,
    removed: Set<Seq<char>>,
    i: int,
    found: Seq<EventModel>,
    k: int,
)
    requires
        is_filtered(r, events, chosen, removed),
        chosen.len() == events.len(),
    ensures
        0 <= i < chosen.len() && chosen[i] && descendants(events, events[i].id, found) ==> removed.contains(events[i].id)
            && (0 <= k < found.len() ==> removed.contains(found[k].id)),
        r.roots_matched == chosen.filter(|b: bool| b).len(),
        r.events_skipped == replay_count(
            events.filter(|e: EventModel| !removed.contains(e.id)),
            Set::empty(),
            false,
        ),
        r.events_replayed == replay_count(
            events.filter(|e: EventModel| !removed.contains(e.id)),
            Set::empty(),
            true,
        ),
        r.events_skipped + r.events_replayed == events.filter(|e: EventModel| !removed.contains(e.id)).len(),
{
    law_removed_events_leave_no_trace(events, removed);
    kept_events_are_counted(events, removed);
    chosen_are_counted(chosen);
    if 0 <= i < chosen.len() && chosen[i] && descendants(events, events[i].id, found) {
        let all = reached(events[i].id, found);
        assert(all[0] == events[i].id);
        assert(all.to_set().contains(all[0]));
        if 0 <= k < found.len() {
            assert(all[k + 1] == found[k].id);
            assert(all.to_set().contains(all[k + 1]));
        }
    }
}

proof fn chosen_are_counted(chosen: Seq<bool>)
    ensures
        chosen_count(chosen) == chosen.filter(|b: bool| b).len(),
    decreases chosen.len(),
{
    reveal(Seq::filter);
    if chosen.len() > 0 {
        chosen_are_counted(chosen.drop_last());
    }
}

/// A diff lists each node, each edge and each property once.
pub proof fn law_diffs_list_each_change_once(diff: GraphDiff, actual: GraphModel, other: GraphModel, i: int, j: int, a: int, b: int)
    requires
        is_graph_diff(diff, actual, other),
    ensures
        texts(diff.nodes_only_in_actual@).no_duplicates(),
        texts(diff.nodes_only_in_counterfactual@).no_duplicates(),
        texts(diff.edges_only_in_actual@).no_duplicates(),
        texts(diff.edges_only_in_counterfactual@).no_duplicates(),
        0 <= i < j < diff.nodes_changed@.len() ==> diff.nodes_changed@[i].node_id@ != diff.nodes_changed@[j].node_id@,
        0 <= i < j < diff.edges_changed@.len() ==> diff.edges_changed@[i].edge_id@ != diff.edges_changed@[j].edge_id@,
        0 <= i < diff.nodes_changed@.len() && 0 <= a < b < diff.nodes_changed@[i].property_diffs@.len()
            ==> diff.nodes_changed@[i].property_diffs@[a].key@ != diff.nodes_changed@[i].property_diffs@[b].key@,
        0 <= i < diff.edges_changed@.len() && 0 <= a < b < diff.edges_changed@[i].property_diffs@.len()
            ==> diff.edges_changed@[i].property_diffs@[a].key@ != diff.edges_changed@[i].property_diffs@[b].key@,
{
    if 0 <= i < j < diff.nodes_changed@.len() {
        let all = changed_nodes(diff.nodes_changed@);
        assert(all[i] != all[j]);
    }
    if 0 <= i < j < diff.edges_changed@.len() {
        let all = changed_edges(diff.edges_changed@);
        assert(all[i] != all[j]);
    }
    if 0 <= i < diff.nodes_changed@.len() && 0 <= a < b < diff.nodes_changed@[i].property_diffs@.len() {
        let d = diff.nodes_changed@[i];
        assert(is_node_diff(d, actual.nodes[d.node_id@], other.nodes[d.node_id@]));
        assert(diff_keys(d.property_diffs@)[a] != diff_keys(d.property_diffs@)[b]);
    }
    if 0 <= i < diff.edges_changed@.len() && 0 <= a < b < diff.edges_changed@[i].property_diffs@.len() {
        let d = diff.edges_changed@[i];
        assert(is_edge_diff(d, actual.edges[d.edge_id@], other.edges[d.edge_id@]));
        assert(diff_keys(d.property_diffs@)[a] != diff_keys(d.property_diffs@)[b]);
    }
}

proof fn five_and_ten()
    ensures
        Number::nearest(10).bits == TEN,
        Number::nearest(5).bits == FIVE,
        Number::nearest(1).bits == ONE,
{
    reveal_with_fuel(two_to, 5);
    crate::number::two_to_values();
    crate::arithmetic::length_is(10, 4);
    crate::arithmetic::length_is(5, 3);
    crate::number::two_to_sum(49, 3);
    crate::number::two_to_sum(50, 2);
    crate::arithmetic::law_one_is_one();
}

/// The weight of an impact counts ten for each node, five for each edge and one for each property,
/// as long as this has at most 53 binary digits.
pub proof fn law_weights_count_nodes_edges_and_properties(score: ImpactScore)
    requires
        10 * score.nodes_affected + 5 * score.edges_affected + score.properties_changed < 2 * LEADING,
    ensures
        score.weight() == Number::nearest(
            (10 * score.nodes_affected + 5 * score.edges_affected + score.properties_changed) as nat,
        ),
{
    let n = score.nodes_affected as u64;
    let e = score.edges_affected as u64;
    let p = score.properties_changed as u64;
    five_and_ten();
    times(n, 10);
    times(e, 5);
    times(p, 1);
    crate::laws::numbers::law_whole_numbers_add_up((n * 10) as u64, (e * 5) as u64);
    crate::laws::numbers::law_whole_numbers_add_up((n * 10 + e * 5) as u64, p);
}

proof fn times(n: u64, k: u64)
    requires
        0 < k < 2 * LEADING,
        n * k < 2 * LEADING,
    ensures
        Number::nearest(n as nat).product(Number::nearest(k as nat)) == Number::nearest((n * k) as nat),
{
    if n == 0 {
        let zero = Number::nearest(0);
        let other = Number::nearest(k as nat);
        crate::arithmetic::grains_of_whole(k);
        assert(zero.bits == 0);
        assert(zero.significand() == 0);
        assert(zero.significand() * other.significand() == 0) by (nonlinear_arith)
            requires
                zero.significand() == 0,
        ;
        assert(crate::arithmetic::nearest_scaled(0, zero.scale() + other.scale()) == 0);
        assert(n * k == 0) by (nonlinear_arith)
            requires
                n == 0,
        ;
    } else {
        assert(n * k >= n) by (nonlinear_arith)
            requires
                k >= 1,
                n >= 0,
        ;
        crate::laws::numbers::law_whole_numbers_are_multiplied(n, k);
    }
}

/// The part removed is zero where nothing was removed, and one where all was.
pub proof fn law_the_part_removed(r: CounterfactualFilterResult)
    requires
        r.events_removed + r.events_skipped + r.events_replayed <= usize::MAX,
    ensures
        r.events_removed == 0 ==> r.removed_part().bits == 0,
        r.events_removed > 0 && r.events_skipped == 0 && r.events_replayed == 0 ==> r.removed_part().bits == ONE,
        r.events_removed > 0 ==> r.removed_part() == Number::part(
            r.events_removed as nat,
            (r.events_removed + r.events_skipped + r.events_replayed) as nat,
        ),
        r.removed_part() == crate::anomaly::removed_part(
            r.events_removed as nat,
            r.events_skipped as nat,
            r.events_replayed as nat,
        ),
{
    let total = (r.events_removed + r.events_skipped + r.events_replayed) as u64;
    if total > 0 && r.events_removed == 0 {
        crate::laws::coverage::law_no_part_of_anything_is_zero(total);
    }
    if r.events_removed > 0 && r.events_skipped == 0 && r.events_replayed == 0 {
        crate::arithmetic::law_whole_numbers_keep_their_worth(total);
    }
}

/// Properties are counted with each node that names them.
pub proof fn law_properties_are_counted_node_by_node(one: Seq<NodeDiff>, diff: NodeDiff)
    ensures
        node_property_total(Seq::empty()) == 0,
        node_property_total(one.push(diff)) == node_property_total(one) + diff.property_diffs@.len(),
{
    assert(one.push(diff).drop_last() =~= one);
}

} // verus!
