//! The current graph, derived from the events applied so far.

use crate::error::{ErrorModel, HydraError};
use crate::event::{Event, EventKind};
use crate::graph::{Edge, EdgeModel, Node, NodeModel};
use crate::ids::{ascending, texts, EdgeId, Id, NodeId};
use crate::index::{remove_from_index, Index};
use crate::table::{all_records, filed, lists, lists_in_order, map_views, views, Table};
use crate::text::{str_same, text_less, text_less_irreflexive};
use crate::value::changes_something;
use vstd::prelude::*;

verus! {

/// What a graph stands for: its nodes and edges, deleted ones included, and the
/// number of events applied to it.
pub struct GraphModel {
    pub nodes: Map<Seq<char>, NodeModel>,
    pub edges: Map<Seq<char>, EdgeModel>,
    pub events_applied: nat,
}

/// A number, or the greatest that a counter holds where it is greater.
pub open spec fn counted(n: nat) -> nat {
    if n > u64::MAX {
        u64::MAX as nat
    } else {
        n
    }
}

impl GraphModel {
    /// The graph before any event.
    pub open spec fn empty() -> GraphModel {
        GraphModel { nodes: Map::empty(), edges: Map::empty(), events_applied: 0 }
    }

    /// Whether the node is there and alive.
    pub open spec fn has_node(self, id: Seq<char>) -> bool {
        self.nodes.contains_key(id) && self.nodes[id].alive
    }

    /// Whether the edge is there and alive.
    pub open spec fn has_edge(self, id: Seq<char>) -> bool {
        self.edges.contains_key(id) && self.edges[id].alive
    }

    /// Every edge that is alive joins two nodes that are alive, and every node and
    /// edge stands under its own identifier.
    pub open spec fn sound(self) -> bool {
        &&& forall|t: Seq<char>| #[trigger] self.nodes.contains_key(t) ==> self.nodes[t].id == t
        &&& forall|t: Seq<char>| #[trigger] self.edges.contains_key(t) ==> self.edges[t].id == t
        &&& forall|t: Seq<char>| #[trigger]
            self.has_edge(t) ==> self.has_node(self.edges[t].source) && self.has_node(self.edges[t].target)
    }

    /// The edges after a node was deleted: those that touch it are dead.
    pub open spec fn edges_without(self, node: Seq<char>) -> Map<Seq<char>, EdgeModel> {
        Map::new(
            |t: Seq<char>| self.edges.contains_key(t),
            |t: Seq<char>|
                if self.edges[t].source == node || self.edges[t].target == node {
                    self.edges[t].dead()
                } else {
                    self.edges[t]
                },
        )
    }

    /// The nodes and edges after an event, or why it is refused. `true` says that
    /// something changed.
    pub open spec fn outcome(self, kind: EventKind) -> Result<(GraphModel, bool), ErrorModel> {
        match kind {
            EventKind::NodeCreated { node_id, type_id, properties } => {
                if self.nodes.contains_key(node_id@) {
                    Err(ErrorModel::NodeAlreadyExists(node_id@))
                } else {
                    let node = NodeModel {
                        id: node_id@,
                        type_id: type_id@,
                        properties: properties@,
                        alive: true,
                        version: 1,
                    };
                    Ok((GraphModel { nodes: self.nodes.insert(node_id@, node), ..self }, true))
                }
            },
            EventKind::NodeUpdated { node_id, changes } => {
                if !self.has_node(node_id@) {
                    Err(ErrorModel::NodeNotFound(node_id@))
                } else {
                    let node = self.nodes[node_id@];
                    Ok(
                        (
                            GraphModel { nodes: self.nodes.insert(node_id@, node.changed(changes@)), ..self },
                            changes_something(node.properties, changes@),
                        ),
                    )
                }
            },
            EventKind::NodeDeleted { node_id } => {
                if !self.nodes.contains_key(node_id@) {
                    Err(ErrorModel::NodeNotFound(node_id@))
                } else if !self.nodes[node_id@].alive {
                    Ok((self, false))
                } else {
                    Ok(
                        (
                            GraphModel {
                                nodes: self.nodes.insert(node_id@, self.nodes[node_id@].dead()),
                                edges: self.edges_without(node_id@),
                                ..self
                            },
                            true,
                        ),
                    )
                }
            },
            EventKind::EdgeCreated { edge_id, source, target, type_id, properties } => {
                if self.edges.contains_key(edge_id@) {
                    Err(ErrorModel::EdgeAlreadyExists(edge_id@))
                } else if !self.has_node(source@) || !self.has_node(target@) {
                    Err(ErrorModel::InvalidEdgeEndpoints { source: source@, target: target@ })
                } else {
                    let edge = EdgeModel {
                        id: edge_id@,
                        type_id: type_id@,
                        source: source@,
                        target: target@,
                        properties: properties@,
                        alive: true,
                        version: 1,
                    };
                    Ok((GraphModel { edges: self.edges.insert(edge_id@, edge), ..self }, true))
                }
            },
            EventKind::EdgeUpdated { edge_id, changes } => {
                if !self.has_edge(edge_id@) {
                    Err(ErrorModel::EdgeNotFound(edge_id@))
                } else {
                    let edge = self.edges[edge_id@];
                    Ok(
                        (
                            GraphModel { edges: self.edges.insert(edge_id@, edge.changed(changes@)), ..self },
                            changes_something(edge.properties, changes@),
                        ),
                    )
                }
            },
            EventKind::EdgeDeleted { edge_id } => {
                if !self.edges.contains_key(edge_id@) {
                    Err(ErrorModel::EdgeNotFound(edge_id@))
                } else if !self.edges[edge_id@].alive {
                    Ok((self, false))
                } else {
                    Ok(
                        (
                            GraphModel {
                                edges: self.edges.insert(edge_id@, self.edges[edge_id@].dead()),
                                ..self
                            },
                            true,
                        ),
                    )
                }
            },
            _ => Ok((self, false)),
        }
    }

    /// The graph with one more event counted.
    pub open spec fn counted(self) -> GraphModel {
        GraphModel { events_applied: counted(self.events_applied + 1), ..self }
    }

    /// The graph after an event. A refused event is counted and changes nothing else.
    pub open spec fn after(self, kind: EventKind) -> GraphModel {
        match self.outcome(kind) {
            Ok((next, _)) => next.counted(),
            Err(_) => self.counted(),
        }
    }
}

/// The materialized graph, with indexes for topology queries.
pub struct Projection {
    pub nodes: Table<Node>,
    pub edges: Table<Edge>,
    /// Nodes that are alive, by type.
    pub type_index: Index<String>,
    /// Edges that are alive, by type.
    pub edge_type_index: Index<String>,
    /// Edges that are alive, by the node they leave.
    pub outgoing_index: Index<Id>,
    /// Edges that are alive, by the node they lead to.
    pub incoming_index: Index<Id>,
    pub events_applied: u64,
}

impl View for Projection {
    type V = GraphModel;

    open spec fn view(&self) -> GraphModel {
        GraphModel {
            nodes: map_views(self.nodes@),
            edges: map_views(self.edges@),
            events_applied: self.events_applied as nat,
        }
    }
}

impl GraphModel {
    /// The nodes of a type that are alive.
    pub open spec fn nodes_of_type(self, type_id: Seq<char>) -> Set<Seq<char>> {
        Set::new(|t: Seq<char>| self.has_node(t) && self.nodes[t].type_id == type_id)
    }

    /// The edges of a type that are alive.
    pub open spec fn edges_of_type(self, type_id: Seq<char>) -> Set<Seq<char>> {
        Set::new(|t: Seq<char>| self.has_edge(t) && self.edges[t].type_id == type_id)
    }

    /// The edges that leave a node and are alive.
    pub open spec fn edges_from(self, node: Seq<char>) -> Set<Seq<char>> {
        Set::new(|t: Seq<char>| self.has_edge(t) && self.edges[t].source == node)
    }

    /// The edges that lead to a node and are alive.
    pub open spec fn edges_to(self, node: Seq<char>) -> Set<Seq<char>> {
        Set::new(|t: Seq<char>| self.has_edge(t) && self.edges[t].target == node)
    }
}

impl Projection {
    /// The tables are well formed, the indexes file exactly what is alive under its
    /// type and endpoints, and the graph is sound.
    pub open spec fn inv(&self) -> bool {
        &&& self.nodes.wf()
        &&& self.edges.wf()
        &&& self.type_index.wf()
        &&& self.edge_type_index.wf()
        &&& self.outgoing_index.wf()
        &&& self.incoming_index.wf()
        &&& self@.sound()
        &&& forall|k: Seq<char>, t: Seq<char>| #[trigger]
            self.type_index.has(k, t) <==> self@.has_node(t) && self@.nodes[t].type_id == k
        &&& forall|k: Seq<char>, t: Seq<char>| #[trigger]
            self.edge_type_index.has(k, t) <==> self@.has_edge(t) && self@.edges[t].type_id == k
        &&& forall|k: Seq<char>, t: Seq<char>| #[trigger]
            self.outgoing_index.has(k, t) <==> self@.has_edge(t) && self@.edges[t].source == k
        &&& forall|k: Seq<char>, t: Seq<char>| #[trigger]
            self.incoming_index.has(k, t) <==> self@.has_edge(t) && self@.edges[t].target == k
    }

    /// A graph without nodes and edges.
    pub fn new() -> (r: Self)
        ensures
            r.inv(),
            r@ == GraphModel::empty(),
    {
        let r = Projection {
            nodes: Table::new(),
            edges: Table::new(),
            type_index: Index::new(),
            edge_type_index: Index::new(),
            outgoing_index: Index::new(),
            incoming_index: Index::new(),
            events_applied: 0,
        };
        assert(r@.nodes =~= Map::<Seq<char>, NodeModel>::empty());
        assert(r@.edges =~= Map::<Seq<char>, EdgeModel>::empty());
        r
    }

    fn create_node(&mut self, node: Node)
        requires
            old(self).inv(),
            !old(self)@.nodes.contains_key(node@.id),
            node@.alive,
        ensures
            final(self).inv(),
            final(self)@ == (GraphModel { nodes: old(self)@.nodes.insert(node@.id, node@), ..old(self)@ }),
    {
        let ghost before = self@;
        let ghost model = node@;
        let id = node.id.clone();
        self.type_index.insert(node.type_id.clone(), node.id.clone());
        self.nodes.insert(id, node);
        proof {
            assert(self@.nodes =~= before.nodes.insert(model.id, model));
            assert forall|t: Seq<char>| #[trigger] self@.has_edge(t) implies self@.has_node(self@.edges[t].source)
                && self@.has_node(self@.edges[t].target) by {
                assert(before.has_edge(t));
            }
        }
    }

    fn create_edge(&mut self, edge: Edge)
        requires
            old(self).inv(),
            !old(self)@.edges.contains_key(edge@.id),
            edge@.alive,
            old(self)@.has_node(edge@.source),
            old(self)@.has_node(edge@.target),
        ensures
            final(self).inv(),
            final(self)@ == (GraphModel { edges: old(self)@.edges.insert(edge@.id, edge@), ..old(self)@ }),
    {
        let ghost before = self@;
        let ghost model = edge@;
        let id = edge.id.clone();
        self.outgoing_index.insert(edge.source.clone(), edge.id.clone());
        self.incoming_index.insert(edge.target.clone(), edge.id.clone());
        self.edge_type_index.insert(edge.type_id.clone(), edge.id.clone());
        self.edges.insert(id, edge);
        proof {
            assert(self@.edges =~= before.edges.insert(model.id, model));
            assert forall|t: Seq<char>| #[trigger] self@.has_edge(t) implies self@.has_node(self@.edges[t].source)
                && self@.has_node(self@.edges[t].target) by {
                if t != model.id {
                    assert(before.has_edge(t));
                }
            }
        }
    }

    fn kill_edge(&mut self, slot: usize)
        requires
            old(self).inv(),
            slot < old(self).edges.entries@.len(),
            old(self).edges.entries@[slot as int].value.alive,
        ensures
            final(self).inv(),
            ({
                let id = old(self).edges.entries@[slot as int].id@;
                final(self)@ == (GraphModel {
                    edges: old(self)@.edges.insert(id, old(self)@.edges[id].dead()),
                    ..old(self)@
                })
            }),
    {
        let ghost before = self@;
        let ghost eid = self.edges.entries@[slot as int].id@;
        proof {
            assert(self.edges.slots@.contains_key(eid));
            assert(self@.edges.contains_key(eid));
            assert(self@.has_edge(eid));
        }
        let edge = &self.edges.entries[slot].value;
        let id = edge.id.clone();
        let source = edge.source.clone();
        let target = edge.target.clone();
        let type_id = edge.type_id.clone();
        remove_from_index(&mut self.outgoing_index, &source, &id);
        remove_from_index(&mut self.incoming_index, &target, &id);
        remove_from_index(&mut self.edge_type_index, &type_id, &id);
        let edge = self.edges.at_mut(slot);
        edge.delete();
        proof {
            assert(self@.edges =~= before.edges.insert(eid, before.edges[eid].dead()));
            assert(self@.nodes == before.nodes);
            assert forall|t: Seq<char>| #[trigger] self@.has_edge(t) implies self@.has_node(self@.edges[t].source)
                && self@.has_node(self@.edges[t].target) by {
                assert(before.has_edge(t));
            }
        }
    }

    fn kill_edges(&mut self, ids: &Vec<Id>)
        requires
            old(self).inv(),
            forall|t: Seq<char>| #[trigger] texts(ids@).contains(t) ==> old(self)@.edges.contains_key(t),
        ensures
            final(self).inv(),
            final(self)@ == (GraphModel {
                edges: edges_cut(old(self)@.edges, texts(ids@)),
                ..old(self)@
            }),
    {
        let ghost before = self@;
        let mut i: usize = 0;
        assert(self@.edges =~= edges_cut(before.edges, texts(ids@).take(0)));
        while i < ids.len()
            invariant
                i <= ids@.len(),
                self.inv(),
                forall|t: Seq<char>| #[trigger] texts(ids@).contains(t) ==> before.edges.contains_key(t),
                self@ == (GraphModel { edges: edges_cut(before.edges, texts(ids@).take(i as int)), ..before }),
            decreases ids@.len() - i,
        {
            let ghost t = ids@[i as int]@;
            proof {
                assert(texts(ids@)[i as int] == t);
                assert(texts(ids@).contains(t));
                assert(texts(ids@).take(i + 1) =~= texts(ids@).take(i as int).push(t));
                assert forall|u: Seq<char>| #[trigger] texts(ids@).take(i + 1).contains(u) <==> texts(ids@).take(
                    i as int,
                ).contains(u) || u == t by {
                    let shorter = texts(ids@).take(i as int);
                    if shorter.contains(u) {
                        assert(shorter.push(t)[shorter.index_of(u)] == u);
                    }
                    assert(shorter.push(t)[i as int] == t);
                }
            }
            if let Some(slot) = self.edges.slot(&ids[i]) {
                if self.edges.entries[slot].value.alive {
                    self.kill_edge(slot);
                }
            }
            proof {
                assert(self@.edges =~= edges_cut(before.edges, texts(ids@).take(i + 1)));
            }
            i += 1;
        }
        assert(texts(ids@).take(ids@.len() as int) =~= texts(ids@));
    }

    fn delete_node(&mut self, slot: usize)
        requires
            old(self).inv(),
            slot < old(self).nodes.entries@.len(),
            old(self).nodes.entries@[slot as int].value.alive,
        ensures
            final(self).inv(),
            ({
                let id = old(self).nodes.entries@[slot as int].id@;
                final(self)@ == (GraphModel {
                    nodes: old(self)@.nodes.insert(id, old(self)@.nodes[id].dead()),
                    edges: old(self)@.edges_without(id),
                    ..old(self)@
                })
            }),
    {
        let ghost before = self@;
        let ghost nid = self.nodes.entries@[slot as int].id@;
        let node = &self.nodes.entries[slot].value;
        let id = node.id.clone();
        let type_id = node.type_id.clone();
        proof {
            assert(self.nodes.slots@.contains_key(nid));
            assert(self@.nodes.contains_key(nid));
            assert(id@ == nid);
        }
        let outgoing = self.outgoing_index.ids(&id);
        let incoming = self.incoming_index.ids(&id);
        proof {
            assert forall|t: Seq<char>| #[trigger] texts(outgoing@).contains(t) implies before.edges.contains_key(
                t,
            ) by {
                assert(self.outgoing_index.has(id@, t));
                assert(before.has_edge(t));
            }
            assert forall|t: Seq<char>| #[trigger] texts(incoming@).contains(t) implies before.edges.contains_key(
                t,
            ) by {
                assert(self.incoming_index.has(id@, t));
                assert(before.has_edge(t));
            }
            assert forall|t: Seq<char>| #[trigger] before.has_edge(t) && (before.edges[t].source == nid
                || before.edges[t].target == nid) implies texts(outgoing@).contains(t) || texts(incoming@).contains(
                t,
            ) by {
                if before.edges[t].source == nid {
                    assert(self.outgoing_index.has(nid, t));
                } else {
                    assert(self.incoming_index.has(nid, t));
                }
            }
            assert forall|t: Seq<char>| #[trigger] texts(outgoing@).contains(t) implies before.edges[t].source == nid by {
                assert(self.outgoing_index.has(id@, t));
            }
            assert forall|t: Seq<char>| #[trigger] texts(incoming@).contains(t) implies before.edges[t].target == nid by {
                assert(self.incoming_index.has(id@, t));
            }
        }
        self.kill_edges(&outgoing);
        self.kill_edges(&incoming);
        proof {
            assert(self@.edges =~= before.edges_without(nid)) by {
                assert forall|t: Seq<char>| #[trigger] before.edges.contains_key(t) implies self@.edges[t]
                    == before.edges_without(nid)[t] by {
                    let e = before.edges[t];
                    if e.alive && (e.source == nid || e.target == nid) {
                        assert(before.has_edge(t));
                        assert(texts(outgoing@).contains(t) || texts(incoming@).contains(t));
                    }
                }
            }
            assert forall|t: Seq<char>| #[trigger] self@.has_edge(t) implies self@.edges[t].source != nid
                && self@.edges[t].target != nid by {
                assert(before.edges.contains_key(t));
            }
        }
        let ghost middle = self@;
        assert(middle.nodes == before.nodes);
        remove_from_index(&mut self.type_index, &type_id, &id);
        if let Some(at) = self.nodes.slot(&id) {
            let node = self.nodes.at_mut(at);
            node.delete();
        }
        proof {
            assert(self@.nodes =~= before.nodes.insert(nid, before.nodes[nid].dead()));
            assert(self@.edges == middle.edges);
            assert forall|t: Seq<char>| #[trigger] self@.has_edge(t) implies self@.has_node(self@.edges[t].source)
                && self@.has_node(self@.edges[t].target) by {
                assert(middle.has_edge(t));
                assert(middle.has_node(middle.edges[t].source));
                assert(middle.has_node(middle.edges[t].target));
            }
        }
    }

    /// Applies an event and says whether the graph changed. An event that is refused
    /// is counted all the same.
    pub fn apply(&mut self, event: &Event) -> (r: Result<bool, HydraError>)
        requires
            old(self).inv(),
        ensures
            final(self).inv(),
            final(self)@ == old(self)@.after(event.kind),
            match (r, old(self)@.outcome(event.kind)) {
                (Ok(changed), Ok((_, expected))) => changed == expected,
                (Err(e), Err(m)) => e@ == m,
                _ => false,
            },
    {
        let ghost before = self@;
        self.events_applied = self.events_applied.saturating_add(1);
        assert(self@ == before.counted());
        proof {
            assert forall|t: Seq<char>| #[trigger] self@.has_edge(t) implies self@.has_node(self@.edges[t].source)
                && self@.has_node(self@.edges[t].target) by {
                assert(before.has_edge(t));
            }
        }
        match &event.kind {
            EventKind::NodeCreated { node_id, type_id, properties } => {
                if self.nodes.contains(node_id) {
                    return Err(HydraError::NodeAlreadyExists(node_id.clone()));
                }
                let node = Node::new(node_id.clone(), type_id.clone(), properties.clone());
                self.create_node(node);
                Ok(true)
            },
            EventKind::NodeUpdated { node_id, changes } => {
                let slot = match self.nodes.slot(node_id) {
                    Some(slot) => slot,
                    None => {
                        return Err(HydraError::NodeNotFound(node_id.clone()));
                    },
                };
                if !self.nodes.entries[slot].value.alive {
                    return Err(HydraError::NodeNotFound(node_id.clone()));
                }
                let node = self.nodes.at_mut(slot);
                let changed = node.apply_changes(changes);
                proof {
                    let t = node_id@;
                    assert(self@.nodes =~= before.nodes.insert(t, before.nodes[t].changed(changes@)));
                    assert(self@.nodes.dom() =~= before.nodes.dom());
                    self.lemma_same_shape(before);
                }
                Ok(changed)
            },
            EventKind::NodeDeleted { node_id } => {
                let slot = match self.nodes.slot(node_id) {
                    Some(slot) => slot,
                    None => {
                        return Err(HydraError::NodeNotFound(node_id.clone()));
                    },
                };
                if !self.nodes.entries[slot].value.alive {
                    return Ok(false);
                }
                self.delete_node(slot);
                proof {
                    assert(before.counted().edges_without(node_id@) =~= before.edges_without(node_id@));
                }
                Ok(true)
            },
            EventKind::EdgeCreated { edge_id, source, target, type_id, properties } => {
                if self.edges.contains(edge_id) {
                    return Err(HydraError::EdgeAlreadyExists(edge_id.clone()));
                }
                if !self.has_node(source) || !self.has_node(target) {
                    return Err(
                        HydraError::InvalidEdgeEndpoints { source: source.clone(), target: target.clone() },
                    );
                }
                let edge = Edge::new(
                    edge_id.clone(),
                    type_id.clone(),
                    source.clone(),
                    target.clone(),
                    properties.clone(),
                );
                self.create_edge(edge);
                Ok(true)
            },
            EventKind::EdgeUpdated { edge_id, changes } => {
                let slot = match self.edges.slot(edge_id) {
                    Some(slot) => slot,
                    None => {
                        return Err(HydraError::EdgeNotFound(edge_id.clone()));
                    },
                };
                if !self.edges.entries[slot].value.alive {
                    return Err(HydraError::EdgeNotFound(edge_id.clone()));
                }
                let edge = self.edges.at_mut(slot);
                let changed = edge.apply_changes(changes);
                proof {
                    let t = edge_id@;
                    assert(self@.edges =~= before.edges.insert(t, before.edges[t].changed(changes@)));
                    assert(self@.edges.dom() =~= before.edges.dom());
                    self.lemma_same_shape(before);
                }
                Ok(changed)
            },
            EventKind::EdgeDeleted { edge_id } => {
                let slot = match self.edges.slot(edge_id) {
                    Some(slot) => slot,
                    None => {
                        return Err(HydraError::EdgeNotFound(edge_id.clone()));
                    },
                };
                if !self.edges.entries[slot].value.alive {
                    return Ok(false);
                }
                self.kill_edge(slot);
                Ok(true)
            },
            _ => Ok(false),
        }
    }

    proof fn lemma_same_shape(&self, before: GraphModel)
        requires
            before.sound(),
            self@.nodes.dom() == before.nodes.dom(),
            self@.edges.dom() == before.edges.dom(),
            forall|t: Seq<char>| #[trigger]
                before.nodes.contains_key(t) ==> {
                    &&& self@.nodes[t].id == before.nodes[t].id
                    &&& self@.nodes[t].alive == before.nodes[t].alive
                },
            forall|t: Seq<char>| #[trigger]
                before.edges.contains_key(t) ==> {
                    &&& self@.edges[t].id == before.edges[t].id
                    &&& self@.edges[t].alive == before.edges[t].alive
                    &&& self@.edges[t].source == before.edges[t].source
                    &&& self@.edges[t].target == before.edges[t].target
                },
        ensures
            self@.sound(),
    {
        assert forall|t: Seq<char>| #[trigger] self@.nodes.contains_key(t) implies self@.nodes[t].id == t by {
            assert(before.nodes.contains_key(t));
        }
        assert forall|t: Seq<char>| #[trigger] self@.edges.contains_key(t) implies self@.edges[t].id == t by {
            assert(before.edges.contains_key(t));
        }
        assert forall|t: Seq<char>| #[trigger] self@.has_edge(t) implies self@.has_node(self@.edges[t].source)
            && self@.has_node(self@.edges[t].target) by {
            assert(before.edges.contains_key(t));
            assert(before.has_edge(t));
            assert(before.has_node(before.edges[t].source));
            assert(before.has_node(before.edges[t].target));
        }
    }

    /// Whether the node is there and alive.
    pub fn has_node(&self, id: &NodeId) -> (r: bool)
        requires
            self.inv(),
        ensures
            r == self@.has_node(id@),
    {
        match self.nodes.get(id) {
            Some(node) => node.alive,
            None => false,
        }
    }

    /// Whether the edge is there and alive.
    pub fn has_edge(&self, id: &EdgeId) -> (r: bool)
        requires
            self.inv(),
        ensures
            r == self@.has_edge(id@),
    {
        match self.edges.get(id) {
            Some(edge) => edge.alive,
            None => false,
        }
    }
}

/// The edges with those of the list dead.
pub open spec fn edges_cut(
    edges: Map<Seq<char>, EdgeModel>,
    ids: Seq<Seq<char>>,
) -> Map<Seq<char>, EdgeModel> {
    Map::new(
        |t: Seq<char>| edges.contains_key(t),
        |t: Seq<char>|
            if ids.contains(t) {
                edges[t].dead()
            } else {
                edges[t]
            },
    )
}

impl Projection {
    /// How many events have been applied.
    pub fn events_applied(&self) -> (r: u64)
        ensures
            r == self@.events_applied,
    {
        self.events_applied
    }

    /// The node with the identifier, alive or deleted.
    pub fn node(&self, id: &NodeId) -> (r: Option<&Node>)
        requires
            self.inv(),
        ensures
            match r {
                Some(node) => self@.nodes.contains_key(id@) && node@ == self@.nodes[id@],
                None => !self@.nodes.contains_key(id@),
            },
    {
        self.nodes.get(id)
    }

    /// The edge with the identifier, alive or deleted.
    pub fn edge(&self, id: &EdgeId) -> (r: Option<&Edge>)
        requires
            self.inv(),
        ensures
            match r {
                Some(edge) => self@.edges.contains_key(id@) && edge@ == self@.edges[id@],
                None => !self@.edges.contains_key(id@),
            },
    {
        self.edges.get(id)
    }

    /// The identifiers of all nodes, deleted ones included, each once.
    pub fn all_node_ids(&self) -> (r: Vec<NodeId>)
        requires
            self.inv(),
        ensures
            texts(r@).no_duplicates(),
            forall|t: Seq<char>| #[trigger] texts(r@).contains(t) <==> self@.nodes.contains_key(t),
            texts(r@) == self.nodes.order(),
    {
        proof {
            self.nodes.order_is_domain();
        }
        let mut r: Vec<NodeId> = Vec::new();
        let mut i: usize = 0;
        while i < self.nodes.entries.len()
            invariant
                i <= self.nodes.entries@.len(),
                r@.len() == i,
                forall|j: int| 0 <= j < i ==> (#[trigger] r@[j])@ == self.nodes.entries@[j].id@,
            decreases self.nodes.entries@.len() - i,
        {
            r.push(self.nodes.entries[i].id.clone());
            i += 1;
        }
        assert(texts(r@) =~= self.nodes.order());
        r
    }

    /// The identifiers of all edges, deleted ones included, each once.
    pub fn all_edge_ids(&self) -> (r: Vec<EdgeId>)
        requires
            self.inv(),
        ensures
            texts(r@).no_duplicates(),
            forall|t: Seq<char>| #[trigger] texts(r@).contains(t) <==> self@.edges.contains_key(t),
            texts(r@) == self.edges.order(),
    {
        proof {
            self.edges.order_is_domain();
        }
        let mut r: Vec<EdgeId> = Vec::new();
        let mut i: usize = 0;
        while i < self.edges.entries.len()
            invariant
                i <= self.edges.entries@.len(),
                r@.len() == i,
                forall|j: int| 0 <= j < i ==> (#[trigger] r@[j])@ == self.edges.entries@[j].id@,
            decreases self.edges.entries@.len() - i,
        {
            r.push(self.edges.entries[i].id.clone());
            i += 1;
        }
        assert(texts(r@) =~= self.edges.order());
        r
    }

    /// All nodes, deleted ones included, in the order in which they were created.
    pub fn all_nodes(&self) -> (r: Vec<&Node>)
        requires
            self.inv(),
        ensures
            r@.len() == self.nodes.order().len(),
            self.nodes.order().no_duplicates(),
            forall|t: Seq<char>| #[trigger] self.nodes.order().contains(t) <==> self@.nodes.contains_key(t),
            forall|i: int| 0 <= i < r@.len() ==> #[trigger] views(r@)[i] == self@.nodes[self.nodes.order()[i]],
    {
        all_records(&self.nodes)
    }

    /// All edges, deleted ones included, in the order in which they were created.
    pub fn all_edges(&self) -> (r: Vec<&Edge>)
        requires
            self.inv(),
        ensures
            r@.len() == self.edges.order().len(),
            self.edges.order().no_duplicates(),
            forall|t: Seq<char>| #[trigger] self.edges.order().contains(t) <==> self@.edges.contains_key(t),
            forall|i: int| 0 <= i < r@.len() ==> #[trigger] views(r@)[i] == self@.edges[self.edges.order()[i]],
    {
        all_records(&self.edges)
    }

    /// The nodes of a type that are alive.
    pub fn nodes_by_type(&self, type_id: &str) -> (r: Vec<&Node>)
        requires
            self.inv(),
        ensures
            lists(views(r@), self@.nodes, self@.nodes_of_type(type_id@)),
    {
        let key = type_id.to_owned();
        let r = filed(&self.nodes, &self.type_index, &key);
        assert(Set::new(|t: Seq<char>| self.type_index.has(key@, t)) =~= self@.nodes_of_type(type_id@));
        r
    }

    /// The edges of a type that are alive.
    pub fn edges_by_type(&self, type_id: &str) -> (r: Vec<&Edge>)
        requires
            self.inv(),
        ensures
            lists(views(r@), self@.edges, self@.edges_of_type(type_id@)),
    {
        let key = type_id.to_owned();
        let r = filed(&self.edges, &self.edge_type_index, &key);
        assert(Set::new(|t: Seq<char>| self.edge_type_index.has(key@, t)) =~= self@.edges_of_type(type_id@));
        r
    }

    /// The edges that leave a node and are alive.
    pub fn outgoing_edges(&self, node_id: &NodeId) -> (r: Vec<&Edge>)
        requires
            self.inv(),
        ensures
            lists(views(r@), self@.edges, self@.edges_from(node_id@)),
    {
        let r = filed(&self.edges, &self.outgoing_index, node_id);
        assert(Set::new(|t: Seq<char>| self.outgoing_index.has(node_id@, t)) =~= self@.edges_from(node_id@));
        r
    }

    /// The edges that lead to a node and are alive.
    pub fn incoming_edges(&self, node_id: &NodeId) -> (r: Vec<&Edge>)
        requires
            self.inv(),
        ensures
            lists(views(r@), self@.edges, self@.edges_to(node_id@)),
    {
        let r = filed(&self.edges, &self.incoming_index, node_id);
        assert(Set::new(|t: Seq<char>| self.incoming_index.has(node_id@, t)) =~= self@.edges_to(node_id@));
        r
    }

    /// The number of nodes that are alive.
    pub fn node_count(&self) -> (r: usize)
        requires
            self.inv(),
        ensures
            r == Set::new(|t: Seq<char>| self@.has_node(t)).len(),
            Set::new(|t: Seq<char>| self@.has_node(t)).finite(),
    {
        let mut count: usize = 0;
        let mut i: usize = 0;
        let ghost mut seen: Set<Seq<char>> = Set::empty();
        while i < self.nodes.entries.len()
            invariant
                self.inv(),
                i <= self.nodes.entries@.len(),
                count <= i,
                count == seen.len(),
                seen.finite(),
                forall|t: Seq<char>| #[trigger]
                    seen.contains(t) <==> exists|j: int|
                        0 <= j < i && (#[trigger] self.nodes.entries@[j]).id@ == t && self.nodes.entries@[j].value.alive,
            decreases self.nodes.entries@.len() - i,
        {
            let ghost t = self.nodes.entries@[i as int].id@;
            let ghost before = seen;
            if self.nodes.entries[i].value.alive {
                count += 1;
                proof {
                    if seen.contains(t) {
                        let j = choose|j: int|
                            0 <= j < i && (#[trigger] self.nodes.entries@[j]).id@ == t && self.nodes.entries@[j].value.alive;
                        assert(self.nodes.slots@[self.nodes.entries@[j].id@] == j);
                        assert(self.nodes.slots@[self.nodes.entries@[i as int].id@] == i);
                    }
                    seen = seen.insert(t);
                }
            }
            proof {
                assert forall|u: Seq<char>| #[trigger] seen.contains(u) <==> exists|j: int|
                    0 <= j < i + 1 && (#[trigger] self.nodes.entries@[j]).id@ == u && self.nodes.entries@[j].value.alive by {
                    if before.contains(u) {
                        let j = choose|j: int|
                            0 <= j < i && (#[trigger] self.nodes.entries@[j]).id@ == u && self.nodes.entries@[j].value.alive;
                        assert(self.nodes.entries@[j].id@ == u);
                    }
                }
            }
            i += 1;
        }
        proof {
            let alive = Set::new(|t: Seq<char>| self@.has_node(t));
            assert forall|t: Seq<char>| #[trigger] seen.contains(t) <==> alive.contains(t) by {
                if seen.contains(t) {
                    let j = choose|j: int|
                        0 <= j < i && (#[trigger] self.nodes.entries@[j]).id@ == t && self.nodes.entries@[j].value.alive;
                    assert(self.nodes.slots@.contains_key(self.nodes.entries@[j].id@));
                }
                if alive.contains(t) {
                    assert(self.nodes.slots@.contains_key(t));
                    let j = self.nodes.slots@[t] as int;
                    assert(self.nodes.entries@[j].id@ == t);
                }
            }
            assert(seen =~= alive);
        }
        count
    }

    /// The number of edges that are alive.
    pub fn edge_count(&self) -> (r: usize)
        requires
            self.inv(),
        ensures
            r == Set::new(|t: Seq<char>| self@.has_edge(t)).len(),
            Set::new(|t: Seq<char>| self@.has_edge(t)).finite(),
    {
        let mut count: usize = 0;
        let mut i: usize = 0;
        let ghost mut seen: Set<Seq<char>> = Set::empty();
        while i < self.edges.entries.len()
            invariant
                self.inv(),
                i <= self.edges.entries@.len(),
                count <= i,
                count == seen.len(),
                seen.finite(),
                forall|t: Seq<char>| #[trigger]
                    seen.contains(t) <==> exists|j: int|
                        0 <= j < i && (#[trigger] self.edges.entries@[j]).id@ == t && self.edges.entries@[j].value.alive,
            decreases self.edges.entries@.len() - i,
        {
            let ghost t = self.edges.entries@[i as int].id@;
            let ghost before = seen;
            if self.edges.entries[i].value.alive {
                count += 1;
                proof {
                    if seen.contains(t) {
                        let j = choose|j: int|
                            0 <= j < i && (#[trigger] self.edges.entries@[j]).id@ == t && self.edges.entries@[j].value.alive;
                        assert(self.edges.slots@[self.edges.entries@[j].id@] == j);
                        assert(self.edges.slots@[self.edges.entries@[i as int].id@] == i);
                    }
                    seen = seen.insert(t);
                }
            }
            proof {
                assert forall|u: Seq<char>| #[trigger] seen.contains(u) <==> exists|j: int|
                    0 <= j < i + 1 && (#[trigger] self.edges.entries@[j]).id@ == u && self.edges.entries@[j].value.alive by {
                    if before.contains(u) {
                        let j = choose|j: int|
                            0 <= j < i && (#[trigger] self.edges.entries@[j]).id@ == u && self.edges.entries@[j].value.alive;
                        assert(self.edges.entries@[j].id@ == u);
                    }
                }
            }
            i += 1;
        }
        proof {
            let alive = Set::new(|t: Seq<char>| self@.has_edge(t));
            assert forall|t: Seq<char>| #[trigger] seen.contains(t) <==> alive.contains(t) by {
                if seen.contains(t) {
                    let j = choose|j: int|
                        0 <= j < i && (#[trigger] self.edges.entries@[j]).id@ == t && self.edges.entries@[j].value.alive;
                    assert(self.edges.slots@.contains_key(self.edges.entries@[j].id@));
                }
                if alive.contains(t) {
                    assert(self.edges.slots@.contains_key(t));
                    let j = self.edges.slots@[t] as int;
                    assert(self.edges.entries@[j].id@ == t);
                }
            }
            assert(seen =~= alive);
        }
        count
    }

    /// The edges of a type that leave a node and are alive.
    pub fn outgoing_edges_of_type(&self, node_id: &NodeId, type_id: &str) -> (r: Vec<&Edge>)
        requires
            self.inv(),
        ensures
            lists(views(r@), self@.edges, self@.edges_from(node_id@).intersect(self@.edges_of_type(type_id@))),
    {
        let edges = self.outgoing_edges(node_id);
        let r = edges_typed(&edges, type_id, Ghost(self@), Ghost(self@.edges_from(node_id@)));
        r
    }

    /// The edges of a type that lead to a node and are alive.
    pub fn incoming_edges_of_type(&self, node_id: &NodeId, type_id: &str) -> (r: Vec<&Edge>)
        requires
            self.inv(),
        ensures
            lists(views(r@), self@.edges, self@.edges_to(node_id@).intersect(self@.edges_of_type(type_id@))),
    {
        let edges = self.incoming_edges(node_id);
        let r = edges_typed(&edges, type_id, Ghost(self@), Ghost(self@.edges_to(node_id@)));
        r
    }

    /// The number of nodes of a type that are alive.
    pub fn count_nodes_by_type(&self, type_id: &str) -> (r: usize)
        requires
            self.inv(),
        ensures
            r == self@.nodes_of_type(type_id@).len(),
    {
        let nodes = self.nodes_by_type(type_id);
        proof {
            lemma_listed_count(views(nodes@), self@.nodes, self@.nodes_of_type(type_id@));
        }
        nodes.len()
    }

    /// The nodes that the edges leaving a node lead to, one for each edge.
    pub fn outgoing_neighbors(&self, node_id: &NodeId) -> (r: Vec<&Node>)
        requires
            self.inv(),
        ensures
            exists|edges: Seq<EdgeModel>|
                #![trigger lists(edges, self@.edges, self@.edges_from(node_id@))]
                {
                    &&& lists(edges, self@.edges, self@.edges_from(node_id@))
                    &&& r@.len() == edges.len()
                    &&& forall|i: int| 0 <= i < edges.len() ==> #[trigger] views(r@)[i] == self@.nodes[edges[i].target]
                },
    {
        let edges = self.outgoing_edges(node_id);
        let mut r: Vec<&Node> = Vec::new();
        let mut i: usize = 0;
        proof {
            let ids = choose|ids: Seq<Seq<char>>| #[trigger]
                lists_in_order(views(edges@), self@.edges, self@.edges_from(node_id@), ids);
            assert forall|j: int| 0 <= j < edges@.len() implies self@.has_node((#[trigger] edges@[j])@.target) by {
                assert(views(edges@)[j] == self@.edges[ids[j]]);
                assert(ids.contains(ids[j]));
                assert(self@.has_edge(ids[j]));
            }
        }
        while i < edges.len()
            invariant
                self.inv(),
                i <= edges@.len(),
                r@.len() == i,
                forall|j: int| 0 <= j < edges@.len() ==> self@.has_node((#[trigger] edges@[j])@.target),
                forall|j: int| 0 <= j < i ==> (#[trigger] r@[j])@ == self@.nodes[edges@[j]@.target],
            decreases edges@.len() - i,
        {
            match self.nodes.get(&edges[i].target) {
                Some(node) => r.push(node),
                None => {
                    assert(self@.has_node(edges@[i as int]@.target));
                },
            }
            i += 1;
        }
        assert forall|j: int| 0 <= j < views(edges@).len() implies #[trigger] views(r@)[j]
            == self@.nodes[views(edges@)[j].target] by {
            assert(r@[j]@ == self@.nodes[edges@[j]@.target]);
        }
        r
    }

    /// The nodes that the edges leading to a node leave, one for each edge.
    pub fn incoming_neighbors(&self, node_id: &NodeId) -> (r: Vec<&Node>)
        requires
            self.inv(),
        ensures
            exists|edges: Seq<EdgeModel>|
                #![trigger lists(edges, self@.edges, self@.edges_to(node_id@))]
                {
                    &&& lists(edges, self@.edges, self@.edges_to(node_id@))
                    &&& r@.len() == edges.len()
                    &&& forall|i: int| 0 <= i < edges.len() ==> #[trigger] views(r@)[i] == self@.nodes[edges[i].source]
                },
    {
        let edges = self.incoming_edges(node_id);
        let mut r: Vec<&Node> = Vec::new();
        let mut i: usize = 0;
        proof {
            let ids = choose|ids: Seq<Seq<char>>| #[trigger]
                lists_in_order(views(edges@), self@.edges, self@.edges_to(node_id@), ids);
            assert forall|j: int| 0 <= j < edges@.len() implies self@.has_node((#[trigger] edges@[j])@.source) by {
                assert(views(edges@)[j] == self@.edges[ids[j]]);
                assert(ids.contains(ids[j]));
                assert(self@.has_edge(ids[j]));
            }
        }
        while i < edges.len()
            invariant
                self.inv(),
                i <= edges@.len(),
                r@.len() == i,
                forall|j: int| 0 <= j < edges@.len() ==> self@.has_node((#[trigger] edges@[j])@.source),
                forall|j: int| 0 <= j < i ==> (#[trigger] r@[j])@ == self@.nodes[edges@[j]@.source],
            decreases edges@.len() - i,
        {
            match self.nodes.get(&edges[i].source) {
                Some(node) => r.push(node),
                None => {
                    assert(self@.has_node(edges@[i as int]@.source));
                },
            }
            i += 1;
        }
        assert forall|j: int| 0 <= j < views(edges@).len() implies #[trigger] views(r@)[j]
            == self@.nodes[views(edges@)[j].source] by {
            assert(r@[j]@ == self@.nodes[edges@[j]@.source]);
        }
        r
    }
}

impl Default for Projection {
    fn default() -> (r: Self)
        ensures
            r.inv(),
            r@ == GraphModel::empty(),
    {
        Projection::new()
    }
}

fn edges_typed<'a>(
    edges: &Vec<&'a Edge>,
    type_id: &str,
    Ghost(graph): Ghost<GraphModel>,
    Ghost(wanted): Ghost<Set<Seq<char>>>,
) -> (r: Vec<&'a Edge>)
    requires
        lists(views(edges@), graph.edges, wanted),
        forall|t: Seq<char>| #[trigger] wanted.contains(t) ==> graph.has_edge(t),
    ensures
        lists(views(r@), graph.edges, wanted.intersect(graph.edges_of_type(type_id@))),
{
    let ghost ids = choose|ids: Seq<Seq<char>>| #[trigger]
        lists_in_order(views(edges@), graph.edges, wanted, ids);
    let mut r: Vec<&'a Edge> = Vec::new();
    let ghost mut kept: Seq<Seq<char>> = Seq::empty();
    let mut i: usize = 0;
    while i < edges.len()
        invariant
            i <= edges@.len(),
            edges@.len() == ids.len(),
            lists_in_order(views(edges@), graph.edges, wanted, ids),
            ascending(kept),
            kept.len() == r@.len(),
            forall|j: int| 0 <= j < kept.len() ==> (#[trigger] r@[j])@ == graph.edges[kept[j]],
            forall|j: int| 0 <= j < kept.len() ==> exists|k: int| 0 <= k < i && ids[k] == #[trigger] kept[j],
            forall|t: Seq<char>| #[trigger]
                kept.contains(t) <==> exists|k: int| 0 <= k < i && #[trigger] ids[k] == t && graph.edges[t].type_id == type_id@,
        decreases edges@.len() - i,
    {
        let ghost t = ids[i as int];
        let ghost before = kept;
        assert(views(edges@)[i as int] == graph.edges[t]);
        if str_same(edges[i].type_id.as_str(), type_id) {
            r.push(edges[i]);
            proof {
                kept = kept.push(t);
                assert forall|a: int, b: int| 0 <= a < b < kept.len() implies text_less(
                    #[trigger] kept[a],
                    #[trigger] kept[b],
                ) by {
                    if b == before.len() {
                        assert(before[a] == kept[a]);
                        let k = choose|k: int| 0 <= k < i && ids[k] == #[trigger] before[a];
                        assert(text_less(ids[k], ids[i as int]));
                    } else {
                        assert(before[a] == kept[a] && before[b] == kept[b]);
                    }
                }
                assert forall|j: int| 0 <= j < kept.len() implies exists|k: int| 0 <= k < i + 1 && ids[k] == #[trigger] kept[j] by {
                    if j < before.len() {
                        assert(before[j] == kept[j]);
                        let k = choose|k: int| 0 <= k < i && ids[k] == #[trigger] before[j];
                        assert(ids[k] == kept[j]);
                    } else {
                        assert(ids[i as int] == kept[j]);
                    }
                }
                assert forall|j: int| 0 <= j < kept.len() implies (#[trigger] r@[j])@ == graph.edges[kept[j]] by {
                    if j < before.len() {
                        assert(before[j] == kept[j]);
                    }
                }
            }
        }
        proof {
            assert forall|u: Seq<char>| #[trigger] kept.contains(u) <==> exists|k: int|
                0 <= k < i + 1 && #[trigger] ids[k] == u && graph.edges[u].type_id == type_id@ by {
                if before.contains(u) {
                    let k = choose|k: int| 0 <= k < i && #[trigger] ids[k] == u && graph.edges[u].type_id == type_id@;
                    assert(ids[k] == u);
                    if kept.len() > before.len() {
                        assert(kept[before.index_of(u)] == u);
                    }
                }
                if kept.len() > before.len() {
                    assert(kept[before.len() as int] == t);
                }
                if kept.contains(u) && !before.contains(u) {
                    let j = kept.index_of(u);
                    if j < before.len() {
                        assert(before[j] == u);
                    }
                    assert(ids[i as int] == u);
                }
                if exists|k: int| 0 <= k < i + 1 && #[trigger] ids[k] == u && graph.edges[u].type_id == type_id@ {
                    let k = choose|k: int| 0 <= k < i + 1 && #[trigger] ids[k] == u && graph.edges[u].type_id == type_id@;
                    if k < i {
                        assert(before.contains(u));
                    }
                }
            }
        }
        i += 1;
    }
    proof {
        let all = wanted.intersect(graph.edges_of_type(type_id@));
        assert forall|t: Seq<char>| #[trigger] kept.contains(t) <==> all.contains(t) by {
            if kept.contains(t) {
                let k = choose|k: int| 0 <= k < i && #[trigger] ids[k] == t && graph.edges[t].type_id == type_id@;
                assert(ids.contains(t));
                assert(wanted.contains(t));
                assert(graph.has_edge(t));
            }
            if all.contains(t) {
                assert(wanted.contains(t));
                assert(ids.contains(t));
                let k = ids.index_of(t);
                assert(ids[k] == t);
            }
        }
        assert forall|j: int| 0 <= j < kept.len() implies #[trigger] views(r@)[j] == graph.edges[kept[j]] by {
            assert(r@[j]@ == graph.edges[kept[j]]);
        }
        assert(lists_in_order(views(r@), graph.edges, all, kept));
    }
    r
}

/// A list of the wanted records is as long as the set of wanted identifiers.
pub proof fn lemma_listed_count<M>(list: Seq<M>, records: Map<Seq<char>, M>, wanted: Set<Seq<char>>)
    requires
        lists(list, records, wanted),
    ensures
        wanted.finite(),
        list.len() == wanted.len(),
{
    let ids = choose|ids: Seq<Seq<char>>| #[trigger] lists_in_order(list, records, wanted, ids);
    assert forall|i: int, j: int| 0 <= i < j < ids.len() implies ids[i] != ids[j] by {
        assert(text_less(ids[i], ids[j]));
        text_less_irreflexive(ids[i]);
    }
    ids.unique_seq_to_set();
    vstd::seq_lib::seq_to_set_is_finite(ids);
    assert(ids.to_set() =~= wanted);
}

/// The graph stays sound under every event.
pub proof fn law_events_keep_soundness(graph: GraphModel, kind: EventKind)
    requires
        graph.sound(),
    ensures
        graph.after(kind).sound(),
{
    let next = graph.after(kind);
    assert forall|t: Seq<char>| #[trigger] next.has_edge(t) implies next.has_node(next.edges[t].source)
        && next.has_node(next.edges[t].target) by {
        if graph.has_edge(t) {
            assert(graph.has_node(graph.edges[t].source));
            assert(graph.has_node(graph.edges[t].target));
        }
    }
    assert forall|t: Seq<char>| #[trigger] next.edges.contains_key(t) implies next.edges[t].id == t by {
        if graph.edges.contains_key(t) {
            assert(graph.edges[t].id == t);
        }
    }
    assert forall|t: Seq<char>| #[trigger] next.nodes.contains_key(t) implies next.nodes[t].id == t by {
        if graph.nodes.contains_key(t) {
            assert(graph.nodes[t].id == t);
        }
    }
}

/// Nothing is forgotten and nothing comes back to life: after any event every node
/// and edge is still there, with the type and the endpoints it had, and what was
/// deleted stays deleted.
pub proof fn law_history_is_kept(graph: GraphModel, kind: EventKind)
    requires
        graph.sound(),
    ensures
        forall|t: Seq<char>| #[trigger]
            graph.nodes.contains_key(t) ==> {
                &&& graph.after(kind).nodes.contains_key(t)
                &&& graph.after(kind).nodes[t].type_id == graph.nodes[t].type_id
                &&& graph.after(kind).nodes[t].alive ==> graph.nodes[t].alive
                &&& graph.nodes[t].version <= graph.after(kind).nodes[t].version
            },
        forall|t: Seq<char>| #[trigger]
            graph.edges.contains_key(t) ==> {
                &&& graph.after(kind).edges.contains_key(t)
                &&& graph.after(kind).edges[t].type_id == graph.edges[t].type_id
                &&& graph.after(kind).edges[t].source == graph.edges[t].source
                &&& graph.after(kind).edges[t].target == graph.edges[t].target
                &&& graph.after(kind).edges[t].alive ==> graph.edges[t].alive
                &&& graph.edges[t].version <= graph.after(kind).edges[t].version
            },
{
}

/// Once a node has been deleted, no living edge leaves it or leads to it, and
/// deleting it again changes nothing.
pub proof fn law_deletion_is_complete(graph: GraphModel, node_id: NodeId)
    requires
        graph.sound(),
        graph.nodes.contains_key(node_id@),
    ensures
        ({
            let next = graph.after(EventKind::NodeDeleted { node_id });
            &&& !next.has_node(node_id@)
            &&& next.edges_from(node_id@) == Set::<Seq<char>>::empty()
            &&& next.edges_to(node_id@) == Set::<Seq<char>>::empty()
            &&& next.outcome(EventKind::NodeDeleted { node_id }) == Ok::<(GraphModel, bool), ErrorModel>((next, false))
        }),
{
    let next = graph.after(EventKind::NodeDeleted { node_id });
    law_events_keep_soundness(graph, EventKind::NodeDeleted { node_id });
    assert forall|t: Seq<char>| !next.edges_from(node_id@).contains(t) by {
        if next.has_edge(t) && next.edges[t].source == node_id@ {
            assert(next.has_node(next.edges[t].source));
        }
    }
    assert forall|t: Seq<char>| !next.edges_to(node_id@).contains(t) by {
        if next.has_edge(t) && next.edges[t].target == node_id@ {
            assert(next.has_node(next.edges[t].target));
        }
    }
    assert(next.edges_from(node_id@) =~= Set::<Seq<char>>::empty());
    assert(next.edges_to(node_id@) =~= Set::<Seq<char>>::empty());
}

/// A refused event leaves nodes and edges as they were.
pub proof fn law_refused_events_change_nothing(graph: GraphModel, kind: EventKind)
    requires
        graph.outcome(kind) is Err,
    ensures
        graph.after(kind).nodes == graph.nodes,
        graph.after(kind).edges == graph.edges,
        graph.after(kind).events_applied == counted(graph.events_applied + 1),
{
}

} // verus!
