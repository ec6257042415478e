//! Laws of the graph: what each event does to it, and what it leaves alone.

use crate::error::ErrorModel;
use crate::event::EventKind;
use crate::projection::GraphModel;
use crate::value::values_equal;
use vstd::prelude::*;

verus! {

/// Nodes and edges other than the given ones are as they were.
pub open spec fn others_stay(before: GraphModel, after: GraphModel, node: Seq<char>, edge: Seq<char>) -> bool {
    &&& forall|t: Seq<char>|
        t != node ==> (#[trigger] after.nodes.contains_key(t) <==> before.nodes.contains_key(t)) && (
        before.nodes.contains_key(t) ==> after.nodes[t] == before.nodes[t])
    &&& forall|t: Seq<char>|
        t != edge ==> (#[trigger] after.edges.contains_key(t) <==> before.edges.contains_key(t)) && (
        before.edges.contains_key(t) ==> after.edges[t] == before.edges[t])
}

/// A node is created exactly where its identifier was never used. It is then alive, of the type
/// and with the properties given, in its first version; nothing else changes, and it is not
/// created again.
pub proof fn law_created_nodes_are_there(graph: GraphModel, kind: EventKind)
    requires
        kind is NodeCreated,
    ensures
        ({
            let id = kind->NodeCreated_node_id@;
            let next = graph.after(kind);
            &&& graph.outcome(kind) is Ok <==> !graph.nodes.contains_key(id)
            &&& graph.nodes.contains_key(id) ==> graph.outcome(kind)->Err_0 == ErrorModel::NodeAlreadyExists(id)
            &&& !graph.nodes.contains_key(id) ==> {
                &&& graph.outcome(kind)->Ok_0.1
                &&& next.nodes.contains_key(id)
                &&& next.nodes[id].alive
                &&& next.nodes[id].id == id
                &&& next.nodes[id].type_id == kind->NodeCreated_type_id@
                &&& next.nodes[id].properties == kind->NodeCreated_properties@
                &&& next.nodes[id].version == 1
                &&& next.edges == graph.edges
                &&& others_stay(graph, next, id, id)
                &&& next.outcome(kind) is Err
                &&& next.nodes_of_type(kind->NodeCreated_type_id@) == graph.nodes_of_type(
                    kind->NodeCreated_type_id@,
                ).insert(id)
            }
        }),
{
    let id = kind->NodeCreated_node_id@;
    if !graph.nodes.contains_key(id) {
        assert(graph.after(kind).nodes_of_type(kind->NodeCreated_type_id@) =~= graph.nodes_of_type(
            kind->NodeCreated_type_id@,
        ).insert(id));
    }
}

/// A node is updated exactly where it is alive. Each property that the update names then has a
/// value equal to the one given, the others are as they were, and so are the type and all else;
/// the version grows by one exactly where a property took a value not equal to the one it had.
pub proof fn law_updated_nodes_take_the_values(graph: GraphModel, kind: EventKind, k: Seq<char>)
    requires
        kind is NodeUpdated,
    ensures
        ({
            let id = kind->NodeUpdated_node_id@;
            let changes = kind->NodeUpdated_changes@;
            let next = graph.after(kind);
            let living = graph.nodes.contains_key(id) && graph.nodes[id].alive;
            &&& graph.outcome(kind) is Ok <==> living
            &&& !living ==> graph.outcome(kind)->Err_0 == ErrorModel::NodeNotFound(id)
            &&& living ==> {
                let old = graph.nodes[id];
                let new = next.nodes[id];
                &&& next.nodes.contains_key(id)
                &&& new.alive && new.id == old.id && new.type_id == old.type_id
                &&& next.edges == graph.edges
                &&& others_stay(graph, next, id, id)
                &&& new.properties.contains_key(k) <==> old.properties.contains_key(k) || changes.contains_key(k)
                &&& changes.contains_key(k) ==> new.properties[k] == changes[k] || (old.properties.contains_key(k)
                    && new.properties[k] == old.properties[k] && values_equal(old.properties[k], changes[k]))
                &&& changes.contains_key(k) && old.properties.contains_key(k) && !values_equal(
                    old.properties[k],
                    changes[k],
                ) ==> new.properties[k] == changes[k]
                &&& old.properties.contains_key(k) && !changes.contains_key(k) ==> new.properties[k]
                    == old.properties[k]
                &&& changes.contains_key(k) && !(old.properties.contains_key(k) && values_equal(
                    old.properties[k],
                    changes[k],
                )) ==> graph.outcome(kind)->Ok_0.1
                &&& graph.outcome(kind)->Ok_0.1 && old.version < u64::MAX ==> new.version == old.version + 1
                &&& !graph.outcome(kind)->Ok_0.1 ==> new == old
            }
        }),
{
    let id = kind->NodeUpdated_node_id@;
    if graph.has_node(id) {
        crate::laws::values::law_changes_are_taken(graph.nodes[id].properties, kind->NodeUpdated_changes@, k);
        if changes_name_at(graph, kind, k) {
            assert(crate::value::changes_name(graph.nodes[id].properties, kind->NodeUpdated_changes@, k));
        }
    }
}

spec fn changes_name_at(graph: GraphModel, kind: EventKind, k: Seq<char>) -> bool {
    crate::value::changes_name(graph.nodes[kind->NodeUpdated_node_id@].properties, kind->NodeUpdated_changes@, k)
}

/// A deleted node keeps its type, its properties and its version. The edges that touch it die
/// with it; all other nodes and edges are as they were. What was never there is not deleted.
pub proof fn law_deleted_nodes_take_their_edges(graph: GraphModel, kind: EventKind, other: Seq<char>, edge: Seq<char>)
    requires
        kind is NodeDeleted,
    ensures
        ({
            let id = kind->NodeDeleted_node_id@;
            let next = graph.after(kind);
            &&& graph.outcome(kind) is Ok <==> graph.nodes.contains_key(id)
            &&& !graph.nodes.contains_key(id) ==> graph.outcome(kind)->Err_0 == ErrorModel::NodeNotFound(id)
            &&& graph.nodes.contains_key(id) ==> {
                &&& graph.outcome(kind)->Ok_0.1 <==> graph.nodes[id].alive
                &&& next.nodes.contains_key(id) && !next.nodes[id].alive
                &&& next.nodes[id].type_id == graph.nodes[id].type_id
                &&& next.nodes[id].properties == graph.nodes[id].properties
                &&& next.nodes[id].version == graph.nodes[id].version
                &&& other != id ==> (next.nodes.contains_key(other) <==> graph.nodes.contains_key(other)) && (
                graph.nodes.contains_key(other) ==> next.nodes[other] == graph.nodes[other])
                &&& next.edges.contains_key(edge) <==> graph.edges.contains_key(edge)
                &&& graph.edges.contains_key(edge) && graph.nodes[id].alive ==> {
                    let old = graph.edges[edge];
                    let new = next.edges[edge];
                    &&& new.id == old.id && new.type_id == old.type_id && new.source == old.source && new.target
                        == old.target && new.properties == old.properties && new.version == old.version
                    &&& new.alive <==> old.alive && old.source != id && old.target != id
                }
            }
        }),
{
}

/// An edge is created exactly where its identifier was never used and both its ends are alive.
/// It is then alive, with what was given, and found from both its ends and by its type; nothing
/// else changes.
pub proof fn law_created_edges_join_living_nodes(graph: GraphModel, kind: EventKind)
    requires
        kind is EdgeCreated,
    ensures
        ({
            let id = kind->EdgeCreated_edge_id@;
            let source = kind->EdgeCreated_source@;
            let target = kind->EdgeCreated_target@;
            let type_id = kind->EdgeCreated_type_id@;
            let next = graph.after(kind);
            let joined = graph.nodes.contains_key(source) && graph.nodes[source].alive && graph.nodes.contains_key(
                target,
            ) && graph.nodes[target].alive;
            &&& graph.outcome(kind) is Ok <==> !graph.edges.contains_key(id) && joined
            &&& graph.edges.contains_key(id) ==> graph.outcome(kind)->Err_0 == ErrorModel::EdgeAlreadyExists(id)
            &&& !graph.edges.contains_key(id) && !joined ==> graph.outcome(kind)->Err_0
                == (ErrorModel::InvalidEdgeEndpoints { source, target })
            &&& graph.outcome(kind) is Ok ==> {
                &&& graph.outcome(kind)->Ok_0.1
                &&& next.edges.contains_key(id)
                &&& next.edges[id].alive
                &&& next.edges[id].id == id
                &&& next.edges[id].type_id == type_id
                &&& next.edges[id].source == source
                &&& next.edges[id].target == target
                &&& next.edges[id].properties == kind->EdgeCreated_properties@
                &&& next.edges[id].version == 1
                &&& next.nodes == graph.nodes
                &&& others_stay(graph, next, id, id)
                &&& next.outcome(kind) is Err
                &&& next.edges_from(source) == graph.edges_from(source).insert(id)
                &&& next.edges_to(target) == graph.edges_to(target).insert(id)
                &&& next.edges_of_type(type_id) == graph.edges_of_type(type_id).insert(id)
            }
        }),
{
    let id = kind->EdgeCreated_edge_id@;
    let next = graph.after(kind);
    if graph.outcome(kind) is Ok {
        assert(next.edges_from(kind->EdgeCreated_source@) =~= graph.edges_from(kind->EdgeCreated_source@).insert(id));
        assert(next.edges_to(kind->EdgeCreated_target@) =~= graph.edges_to(kind->EdgeCreated_target@).insert(id));
        assert(next.edges_of_type(kind->EdgeCreated_type_id@) =~= graph.edges_of_type(
            kind->EdgeCreated_type_id@,
        ).insert(id));
    }
}

/// An edge is updated exactly where it is alive, in the way nodes are.
pub proof fn law_updated_edges_take_the_values(graph: GraphModel, kind: EventKind, k: Seq<char>)
    requires
        kind is EdgeUpdated,
    ensures
        ({
            let id = kind->EdgeUpdated_edge_id@;
            let changes = kind->EdgeUpdated_changes@;
            let next = graph.after(kind);
            let living = graph.edges.contains_key(id) && graph.edges[id].alive;
            &&& graph.outcome(kind) is Ok <==> living
            &&& !living ==> graph.outcome(kind)->Err_0 == ErrorModel::EdgeNotFound(id)
            &&& living ==> {
                let old = graph.edges[id];
                let new = next.edges[id];
                &&& next.edges.contains_key(id)
                &&& new.alive && new.id == old.id && new.type_id == old.type_id && new.source == old.source
                    && new.target == old.target
                &&& next.nodes == graph.nodes
                &&& others_stay(graph, next, id, id)
                &&& new.properties.contains_key(k) <==> old.properties.contains_key(k) || changes.contains_key(k)
                &&& changes.contains_key(k) && !(old.properties.contains_key(k) && values_equal(
                    old.properties[k],
                    changes[k],
                )) ==> new.properties[k] == changes[k] && graph.outcome(kind)->Ok_0.1
                &&& old.properties.contains_key(k) && !(changes.contains_key(k) && !values_equal(
                    old.properties[k],
                    changes[k],
                )) ==> new.properties[k] == old.properties[k]
                &&& graph.outcome(kind)->Ok_0.1 && old.version < u64::MAX ==> new.version == old.version + 1
                &&& !graph.outcome(kind)->Ok_0.1 ==> new == old
            }
        }),
{
    let id = kind->EdgeUpdated_edge_id@;
    if graph.has_edge(id) {
        crate::laws::values::law_changes_are_taken(graph.edges[id].properties, kind->EdgeUpdated_changes@, k);
        if crate::value::changes_name(graph.edges[id].properties, kind->EdgeUpdated_changes@, k) {
            assert(crate::value::changes_something(graph.edges[id].properties, kind->EdgeUpdated_changes@));
        }
    }
}

/// A deleted edge is dead, and all else is as it was.
pub proof fn law_deleted_edges_go_alone(graph: GraphModel, kind: EventKind)
    requires
        kind is EdgeDeleted,
    ensures
        ({
            let id = kind->EdgeDeleted_edge_id@;
            let next = graph.after(kind);
            &&& graph.outcome(kind) is Ok <==> graph.edges.contains_key(id)
            &&& !graph.edges.contains_key(id) ==> graph.outcome(kind)->Err_0 == ErrorModel::EdgeNotFound(id)
            &&& graph.edges.contains_key(id) ==> {
                &&& graph.outcome(kind)->Ok_0.1 <==> graph.edges[id].alive
                &&& next.edges.contains_key(id) && !next.edges[id].alive
                &&& next.edges[id].source == graph.edges[id].source
                &&& next.edges[id].target == graph.edges[id].target
                &&& next.edges[id].type_id == graph.edges[id].type_id
                &&& next.edges[id].properties == graph.edges[id].properties
                &&& next.edges[id].version == graph.edges[id].version
                &&& next.nodes == graph.nodes
                &&& others_stay(graph, next, id, id)
            }
        }),
{
}

/// Whether the event is about nodes and edges.
pub open spec fn is_on_the_graph(kind: EventKind) -> bool {
    ||| kind is NodeCreated
    ||| kind is NodeUpdated
    ||| kind is NodeDeleted
    ||| kind is EdgeCreated
    ||| kind is EdgeUpdated
    ||| kind is EdgeDeleted
}

/// An event that is not about nodes and edges is accepted and changes none of them. Every event
/// counts. One is said to change nothing exactly where it leaves nodes and edges as they were.
pub proof fn law_only_graph_events_change_the_graph(graph: GraphModel, kind: EventKind)
    ensures
        !is_on_the_graph(kind) ==> graph.outcome(kind) is Ok && !graph.outcome(kind)->Ok_0.1,
        graph.outcome(kind) is Err || !graph.outcome(kind)->Ok_0.1 ==> graph.after(kind).nodes == graph.nodes
            && graph.after(kind).edges == graph.edges,
        graph.outcome(kind) is Ok && graph.outcome(kind)->Ok_0.1 && (forall|t: Seq<char>| #[trigger]
            graph.nodes.contains_key(t) ==> graph.nodes[t].version < u64::MAX) && (forall|t: Seq<char>| #[trigger]
            graph.edges.contains_key(t) ==> graph.edges[t].version < u64::MAX) ==> graph.after(kind).nodes
            != graph.nodes || graph.after(kind).edges != graph.edges,
        graph.events_applied < u64::MAX ==> graph.after(kind).events_applied == graph.events_applied + 1,
{
    match kind {
        EventKind::NodeUpdated { node_id, changes } => {
            law_updated_nodes_take_the_values(graph, kind, Seq::empty());
            if graph.has_node(node_id@) && !graph.outcome(kind)->Ok_0.1 {
                assert(graph.after(kind).nodes =~= graph.nodes);
            }
        },
        EventKind::EdgeUpdated { edge_id, changes } => {
            law_updated_edges_take_the_values(graph, kind, Seq::empty());
            if graph.has_edge(edge_id@) && !graph.outcome(kind)->Ok_0.1 {
                assert(graph.after(kind).edges =~= graph.edges);
            }
        },
        EventKind::NodeCreated { node_id, .. } => {
            if !graph.nodes.contains_key(node_id@) {
                assert(graph.after(kind).nodes.contains_key(node_id@));
            }
        },
        EventKind::EdgeCreated { edge_id, .. } => {
            if graph.outcome(kind) is Ok {
                assert(graph.after(kind).edges.contains_key(edge_id@));
            }
        },
        EventKind::NodeDeleted { node_id } => {
            if graph.has_node(node_id@) {
                assert(!graph.after(kind).nodes[node_id@].alive);
            }
        },
        EventKind::EdgeDeleted { edge_id } => {
            if graph.has_edge(edge_id@) {
                assert(!graph.after(kind).edges[edge_id@].alive);
            }
        },
        _ => {},
    }
}

/// An edge is found from the node that it leaves, from the one that it leads to and by its type,
/// as long as it is alive; a node is found by its type.
pub proof fn law_queries_find_what_is_alive(graph: GraphModel, t: Seq<char>, key: Seq<char>)
    ensures
        graph.edges_from(key).contains(t) <==> graph.edges.contains_key(t) && graph.edges[t].alive
            && graph.edges[t].source == key,
        graph.edges_to(key).contains(t) <==> graph.edges.contains_key(t) && graph.edges[t].alive
            && graph.edges[t].target == key,
        graph.edges_of_type(key).contains(t) <==> graph.edges.contains_key(t) && graph.edges[t].alive
            && graph.edges[t].type_id == key,
        graph.nodes_of_type(key).contains(t) <==> graph.nodes.contains_key(t) && graph.nodes[t].alive
            && graph.nodes[t].type_id == key,
{
}

} // verus!
