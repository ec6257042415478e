//! Counterfactual analysis: what the graph would look like without certain events.

use crate::error::HydraError;
use crate::event::{borrowed_models, Event, EventModel};
use crate::event_log::{descendants, last_position, reached, EventLog};
use crate::graph::{Edge, EdgeModel, Node, NodeModel};
use crate::ids::{texts, EdgeId, EventId, Id, NodeId};
use crate::projection::{counted, GraphModel, Projection};
use crate::table::Table;
use crate::value::{values_equal, Properties, Value, ValueModel};
use vstd::hash_map::StringHashMap;
use crate::arithmetic::law_parts_are_at_most_one;
use crate::number::{Number, ONE};
use vstd::prelude::*;

verus! {

/// A property that differs between two states.
#[derive(Debug, PartialEq)]
pub struct PropertyDiff {
    pub key: String,
    /// The value in the actual graph, if the property is there.
    pub actual: Option<Value>,
    /// The value in the counterfactual graph, if the property is there.
    pub counterfactual: Option<Value>,
}

/// A node that differs between two states.
#[derive(Debug, PartialEq)]
pub struct NodeDiff {
    pub node_id: NodeId,
    pub property_diffs: Vec<PropertyDiff>,
    /// Whether the node is alive in the actual and in the counterfactual graph, where
    /// the two differ.
    pub alive_diff: Option<(bool, bool)>,
}

/// An edge that differs between two states.
#[derive(Debug, PartialEq)]
pub struct EdgeDiff {
    pub edge_id: EdgeId,
    pub property_diffs: Vec<PropertyDiff>,
    /// Whether the edge is alive in the actual and in the counterfactual graph, where
    /// the two differ.
    pub alive_diff: Option<(bool, bool)>,
}

/// The difference between two graphs.
#[derive(Debug, PartialEq)]
pub struct GraphDiff {
    /// Nodes alive in the actual graph only.
    pub nodes_only_in_actual: Vec<NodeId>,
    /// Nodes alive in the counterfactual graph only.
    pub nodes_only_in_counterfactual: Vec<NodeId>,
    /// Nodes known to both, with different properties or not both alive.
    pub nodes_changed: Vec<NodeDiff>,
    /// Edges alive in the actual graph only.
    pub edges_only_in_actual: Vec<EdgeId>,
    /// Edges alive in the counterfactual graph only.
    pub edges_only_in_counterfactual: Vec<EdgeId>,
    /// Edges known to both, with different properties or not both alive.
    pub edges_changed: Vec<EdgeDiff>,
}

/// The sum, or the greatest number where it is greater.
pub open spec fn capped(n: nat) -> nat {
    if n > usize::MAX {
        usize::MAX as nat
    } else {
        n
    }
}

impl GraphDiff {
    /// The nodes that differ.
    pub open spec fn node_set(&self) -> Set<Seq<char>> {
        texts(self.nodes_only_in_actual@).to_set().union(texts(self.nodes_only_in_counterfactual@).to_set()).union(
            changed_nodes(self.nodes_changed@).to_set(),
        )
    }

    /// The edges that differ.
    pub open spec fn edge_set(&self) -> Set<Seq<char>> {
        texts(self.edges_only_in_actual@).to_set().union(texts(self.edges_only_in_counterfactual@).to_set()).union(
            changed_edges(self.edges_changed@).to_set(),
        )
    }

    /// The number of nodes that differ. One that is named twice counts once.
    pub open spec fn nodes(&self) -> nat {
        self.node_set().len()
    }

    /// The number of edges that differ. One that is named twice counts once.
    pub open spec fn edges(&self) -> nat {
        self.edge_set().len()
    }

    /// Whether nothing differs.
    pub fn is_empty(&self) -> (r: bool)
        ensures
            r == (self.nodes() + self.edges() == 0),
    {
        proof {
            three_lists(
                texts(self.nodes_only_in_actual@),
                texts(self.nodes_only_in_counterfactual@),
                changed_nodes(self.nodes_changed@),
            );
            three_lists(
                texts(self.edges_only_in_actual@),
                texts(self.edges_only_in_counterfactual@),
                changed_edges(self.edges_changed@),
            );
        }
        self.nodes_only_in_actual.len() == 0 && self.nodes_only_in_counterfactual.len() == 0
            && self.nodes_changed.len() == 0 && self.edges_only_in_actual.len() == 0
            && self.edges_only_in_counterfactual.len() == 0 && self.edges_changed.len() == 0
    }

    /// The number of nodes that differ.
    pub fn nodes_affected(&self) -> (r: usize)
        ensures
            r == self.nodes(),
    {
        let mut changed: Vec<Id> = Vec::new();
        let mut i: usize = 0;
        assert(texts(changed@) =~= changed_nodes(self.nodes_changed@).take(0));
        while i < self.nodes_changed.len()
            invariant
                i <= self.nodes_changed@.len(),
                texts(changed@) == changed_nodes(self.nodes_changed@).take(i as int),
            decreases self.nodes_changed@.len() - i,
        {
            let ghost before = texts(changed@);
            changed.push(self.nodes_changed[i].node_id.clone());
            proof {
                assert(texts(changed@) =~= before.push(self.nodes_changed@[i as int].node_id@));
                assert(texts(changed@) =~= changed_nodes(self.nodes_changed@).take(i + 1));
            }
            i += 1;
        }
        assert(texts(changed@) =~= changed_nodes(self.nodes_changed@));
        count_distinct(&self.nodes_only_in_actual, &self.nodes_only_in_counterfactual, &changed)
    }

    /// The number of edges that differ.
    pub fn edges_affected(&self) -> (r: usize)
        ensures
            r == self.edges(),
    {
        let mut changed: Vec<Id> = Vec::new();
        let mut i: usize = 0;
        assert(texts(changed@) =~= changed_edges(self.edges_changed@).take(0));
        while i < self.edges_changed.len()
            invariant
                i <= self.edges_changed@.len(),
                texts(changed@) == changed_edges(self.edges_changed@).take(i as int),
            decreases self.edges_changed@.len() - i,
        {
            let ghost before = texts(changed@);
            changed.push(self.edges_changed[i].edge_id.clone());
            proof {
                assert(texts(changed@) =~= before.push(self.edges_changed@[i as int].edge_id@));
                assert(texts(changed@) =~= changed_edges(self.edges_changed@).take(i + 1));
            }
            i += 1;
        }
        assert(texts(changed@) =~= changed_edges(self.edges_changed@));
        count_distinct(&self.edges_only_in_actual, &self.edges_only_in_counterfactual, &changed)
    }

    /// The number of nodes and edges that differ, up to the greatest number.
    pub fn total_affected(&self) -> (r: usize)
        ensures
            r == capped(self.nodes() + self.edges()),
    {
        self.nodes_affected().saturating_add(self.edges_affected())
    }
}

proof fn three_lists(one: Seq<Seq<char>>, two: Seq<Seq<char>>, three: Seq<Seq<char>>)
    ensures
        (one.to_set().union(two.to_set()).union(three.to_set()).len() == 0) == (one.len() == 0 && two.len() == 0
            && three.len() == 0),
{
    let all = one.to_set().union(two.to_set()).union(three.to_set());
    if all.len() == 0 {
        assert(all.finite());
        assert forall|t: Seq<char>| !all.contains(t) by {
            if all.contains(t) {
                assert(all.remove(t).len() + 1 == all.len());
            }
        }
        if one.len() > 0 {
            assert(one.contains(one[0]));
            assert(all.contains(one[0]));
        }
        if two.len() > 0 {
            assert(two.contains(two[0]));
            assert(all.contains(two[0]));
        }
        if three.len() > 0 {
            assert(three.contains(three[0]));
            assert(all.contains(three[0]));
        }
    }
    if one.len() == 0 && two.len() == 0 && three.len() == 0 {
        assert(all =~= Set::<Seq<char>>::empty());
    }
}

fn count_distinct(one: &Vec<Id>, two: &Vec<Id>, three: &Vec<Id>) -> (r: usize)
    ensures
        r == texts(one@).to_set().union(texts(two@).to_set()).union(texts(three@).to_set()).len(),
{
    let mut all: Vec<Id> = Vec::new();
    let mut set: StringHashMap<bool> = StringHashMap::new();
    assert(texts(all@) =~= Seq::<Seq<char>>::empty());
    add_ids(&mut all, &mut set, one);
    add_ids(&mut all, &mut set, two);
    add_ids(&mut all, &mut set, three);
    proof {
        texts(all@).unique_seq_to_set();
        let wanted = texts(one@).to_set().union(texts(two@).to_set()).union(texts(three@).to_set());
        assert forall|t: Seq<char>| #[trigger] texts(all@).to_set().contains(t) <==> wanted.contains(t) by {
            assert(texts(all@).contains(t) <==> texts(all@).to_set().contains(t));
        }
        assert(texts(all@).to_set() =~= wanted);
    }
    all.len()
}

/// Whether a property has different values in two states, or is in one of them only.
pub open spec fn property_differs(
    actual: Map<Seq<char>, ValueModel>,
    other: Map<Seq<char>, ValueModel>,
    key: Seq<char>,
) -> bool {
    if actual.contains_key(key) && other.contains_key(key) {
        !values_equal(actual[key], other[key])
    } else {
        actual.contains_key(key) || other.contains_key(key)
    }
}

/// Whether the optional value is the one that the properties hold under the key.
pub open spec fn holds_value(
    value: Option<Value>,
    properties: Map<Seq<char>, ValueModel>,
    key: Seq<char>,
) -> bool {
    match value {
        Some(v) => properties.contains_key(key) && properties[key] == v@,
        None => !properties.contains_key(key),
    }
}

/// The keys of a list of differences.
pub open spec fn diff_keys(diffs: Seq<PropertyDiff>) -> Seq<Seq<char>> {
    diffs.map_values(|d: PropertyDiff| d.key@)
}

/// The list names every property that differs, once, with its two values.
pub open spec fn property_diffs(
    diffs: Seq<PropertyDiff>,
    actual: Map<Seq<char>, ValueModel>,
    other: Map<Seq<char>, ValueModel>,
) -> bool {
    &&& diff_keys(diffs).no_duplicates()
    &&& forall|k: Seq<char>| #[trigger] diff_keys(diffs).contains(k) <==> property_differs(actual, other, k)
    &&& forall|i: int|
        0 <= i < diffs.len() ==> {
            &&& holds_value((#[trigger] diffs[i]).actual, actual, diffs[i].key@)
            &&& holds_value(diffs[i].counterfactual, other, diffs[i].key@)
        }
}

/// Whether two states of an element differ in liveness, and how.
pub open spec fn liveness_diff(actual: bool, other: bool) -> Option<(bool, bool)> {
    if actual == other {
        None
    } else {
        Some((actual, other))
    }
}

/// Whether two states of a node differ in properties or liveness.
pub open spec fn node_differs(actual: NodeModel, other: NodeModel) -> bool {
    ||| actual.alive != other.alive
    ||| exists|k: Seq<char>| #[trigger] property_differs(actual.properties, other.properties, k)
}

/// Whether two states of an edge differ in properties or liveness.
pub open spec fn edge_differs(actual: EdgeModel, other: EdgeModel) -> bool {
    ||| actual.alive != other.alive
    ||| exists|k: Seq<char>| #[trigger] property_differs(actual.properties, other.properties, k)
}

/// The record says how two states of a node differ.
pub open spec fn is_node_diff(diff: NodeDiff, actual: NodeModel, other: NodeModel) -> bool {
    &&& diff.node_id@ == actual.id
    &&& property_diffs(diff.property_diffs@, actual.properties, other.properties)
    &&& diff.alive_diff == liveness_diff(actual.alive, other.alive)
}

/// The record says how two states of an edge differ.
pub open spec fn is_edge_diff(diff: EdgeDiff, actual: EdgeModel, other: EdgeModel) -> bool {
    &&& diff.edge_id@ == actual.id
    &&& property_diffs(diff.property_diffs@, actual.properties, other.properties)
    &&& diff.alive_diff == liveness_diff(actual.alive, other.alive)
}

/// The list names the identifiers with the property, each once.
pub open spec fn names_all(ids: Seq<Id>, wanted: Set<Seq<char>>) -> bool {
    &&& texts(ids).no_duplicates()
    &&& forall|t: Seq<char>| #[trigger] texts(ids).contains(t) <==> wanted.contains(t)
}

/// The nodes alive in the first graph and not in the second.
pub open spec fn nodes_only_in(one: GraphModel, other: GraphModel) -> Set<Seq<char>> {
    Set::new(|t: Seq<char>| one.has_node(t) && !other.has_node(t))
}

/// The edges alive in the first graph and not in the second.
pub open spec fn edges_only_in(one: GraphModel, other: GraphModel) -> Set<Seq<char>> {
    Set::new(|t: Seq<char>| one.has_edge(t) && !other.has_edge(t))
}

/// The nodes known to both graphs, in different states.
pub open spec fn nodes_differing(one: GraphModel, other: GraphModel) -> Set<Seq<char>> {
    Set::new(
        |t: Seq<char>|
            one.nodes.contains_key(t) && other.nodes.contains_key(t) && node_differs(one.nodes[t], other.nodes[t]),
    )
}

/// The edges known to both graphs, in different states.
pub open spec fn edges_differing(one: GraphModel, other: GraphModel) -> Set<Seq<char>> {
    Set::new(
        |t: Seq<char>|
            one.edges.contains_key(t) && other.edges.contains_key(t) && edge_differs(one.edges[t], other.edges[t]),
    )
}

/// The nodes of a list of differences.
pub open spec fn changed_nodes(diffs: Seq<NodeDiff>) -> Seq<Seq<char>> {
    diffs.map_values(|d: NodeDiff| d.node_id@)
}

/// The edges of a list of differences.
pub open spec fn changed_edges(diffs: Seq<EdgeDiff>) -> Seq<Seq<char>> {
    diffs.map_values(|d: EdgeDiff| d.edge_id@)
}

/// The record says how two graphs differ: every difference is named, once.
pub open spec fn is_graph_diff(diff: GraphDiff, actual: GraphModel, other: GraphModel) -> bool {
    &&& names_all(diff.nodes_only_in_actual@, nodes_only_in(actual, other))
    &&& names_all(diff.nodes_only_in_counterfactual@, nodes_only_in(other, actual))
    &&& changed_nodes(diff.nodes_changed@).no_duplicates()
    &&& forall|t: Seq<char>| #[trigger]
        changed_nodes(diff.nodes_changed@).contains(t) <==> nodes_differing(actual, other).contains(t)
    &&& forall|i: int|
        0 <= i < diff.nodes_changed@.len() ==> {
            let d = #[trigger] diff.nodes_changed@[i];
            is_node_diff(d, actual.nodes[d.node_id@], other.nodes[d.node_id@])
        }
    &&& names_all(diff.edges_only_in_actual@, edges_only_in(actual, other))
    &&& names_all(diff.edges_only_in_counterfactual@, edges_only_in(other, actual))
    &&& changed_edges(diff.edges_changed@).no_duplicates()
    &&& forall|t: Seq<char>| #[trigger]
        changed_edges(diff.edges_changed@).contains(t) <==> edges_differing(actual, other).contains(t)
    &&& forall|i: int|
        0 <= i < diff.edges_changed@.len() ==> {
            let d = #[trigger] diff.edges_changed@[i];
            is_edge_diff(d, actual.edges[d.edge_id@], other.edges[d.edge_id@])
        }
}

fn clone_found(value: Option<&Value>) -> (r: Option<Value>)
    ensures
        match (value, r) {
            (Some(v), Some(w)) => w@ == v@,
            (None, None) => true,
            _ => false,
        },
{
    match value {
        Some(v) => Some(v.clone()),
        None => None,
    }
}

fn add_diff(diffs: &mut Vec<PropertyDiff>, key: &String, actual: &Properties, other: &Properties)
    requires
        diff_keys(old(diffs)@).no_duplicates(),
        !diff_keys(old(diffs)@).contains(key@),
        forall|i: int|
            0 <= i < old(diffs)@.len() ==> {
                &&& holds_value((#[trigger] old(diffs)@[i]).actual, actual@, old(diffs)@[i].key@)
                &&& holds_value(old(diffs)@[i].counterfactual, other@, old(diffs)@[i].key@)
            },
    ensures
        diff_keys(final(diffs)@).no_duplicates(),
        forall|k: Seq<char>| #[trigger]
            diff_keys(final(diffs)@).contains(k) <==> diff_keys(old(diffs)@).contains(k) || (k == key@
                && property_differs(actual@, other@, key@)),
        forall|i: int|
            0 <= i < final(diffs)@.len() ==> {
                &&& holds_value((#[trigger] final(diffs)@[i]).actual, actual@, final(diffs)@[i].key@)
                &&& holds_value(final(diffs)@[i].counterfactual, other@, final(diffs)@[i].key@)
            },
{
    let a = actual.get(key.as_str());
    let c = other.get(key.as_str());
    let differs = match (a, c) {
        (Some(x), Some(y)) => !x.equals(y),
        (None, None) => false,
        _ => true,
    };
    if differs {
        let ghost before = diffs@;
        diffs.push(PropertyDiff { key: key.clone(), actual: clone_found(a), counterfactual: clone_found(c) });
        proof {
            let keys = diff_keys(before);
            assert(diff_keys(diffs@) =~= keys.push(key@));
            assert forall|k: Seq<char>| #[trigger] keys.push(key@).contains(k) <==> keys.contains(k) || k == key@ by {
                if keys.contains(k) {
                    assert(keys.push(key@)[keys.index_of(k)] == k);
                }
                assert(keys.push(key@)[keys.len() as int] == key@);
            }
            assert forall|i: int, j: int| 0 <= i < j < keys.push(key@).len() implies keys.push(key@)[i] != keys.push(
                key@,
            )[j] by {
                if j == keys.len() {
                    assert(keys.contains(keys[i]));
                }
            }
        }
    }
}

fn diff_properties(actual: &Properties, other: &Properties) -> (r: Vec<PropertyDiff>)
    ensures
        property_diffs(r@, actual@, other@),
{
    let mut r: Vec<PropertyDiff> = Vec::new();
    let n: usize = actual.len();
    let mut i: usize = 0;
    assert(diff_keys(r@) =~= Seq::<Seq<char>>::empty());
    while i < n
        invariant
            i <= n,
            n == actual.names().len(),
            actual.names().no_duplicates(),
            diff_keys(r@).no_duplicates(),
            forall|k: Seq<char>| #[trigger]
                diff_keys(r@).contains(k) <==> actual.names().take(i as int).contains(k) && property_differs(
                    actual@,
                    other@,
                    k,
                ),
            forall|j: int|
                0 <= j < r@.len() ==> {
                    &&& holds_value((#[trigger] r@[j]).actual, actual@, r@[j].key@)
                    &&& holds_value(r@[j].counterfactual, other@, r@[j].key@)
                },
        decreases n - i,
    {
        let ghost k = actual.names()[i as int];
        let ghost shorter = actual.names().take(i as int);
        proof {
            assert(actual.names().take(i + 1) =~= shorter.push(k));
            if shorter.contains(k) {
                let j = shorter.index_of(k);
                assert(actual.names()[j] == k);
            }
            assert forall|u: Seq<char>| #[trigger] shorter.push(k).contains(u) <==> shorter.contains(u) || u == k by {
                if shorter.contains(u) {
                    assert(shorter.push(k)[shorter.index_of(u)] == u);
                }
                assert(shorter.push(k)[i as int] == k);
            }
        }
        add_diff(&mut r, actual.name_at(i), actual, other);
        i += 1;
    }
    assert(actual.names().take(n as int) =~= actual.names());
    let m: usize = other.len();
    let mut j: usize = 0;
    assert(other.names().take(0) =~= Seq::<Seq<char>>::empty());
    while j < m
        invariant
            j <= m,
            m == other.names().len(),
            other.names().no_duplicates(),
            forall|k: Seq<char>| #[trigger] other.names().contains(k) <==> other@.contains_key(k),
            forall|k: Seq<char>| #[trigger] actual.names().contains(k) <==> actual@.contains_key(k),
            diff_keys(r@).no_duplicates(),
            forall|k: Seq<char>| #[trigger]
                diff_keys(r@).contains(k) <==> (actual@.contains_key(k) || other.names().take(j as int).contains(k))
                    && property_differs(actual@, other@, k),
            forall|i: int|
                0 <= i < r@.len() ==> {
                    &&& holds_value((#[trigger] r@[i]).actual, actual@, r@[i].key@)
                    &&& holds_value(r@[i].counterfactual, other@, r@[i].key@)
                },
        decreases m - j,
    {
        let ghost k = other.names()[j as int];
        let ghost shorter = other.names().take(j as int);
        proof {
            assert(other.names().take(j + 1) =~= shorter.push(k));
            if shorter.contains(k) {
                let x = shorter.index_of(k);
                assert(other.names()[x] == k);
            }
            assert forall|u: Seq<char>| #[trigger] shorter.push(k).contains(u) <==> shorter.contains(u) || u == k by {
                if shorter.contains(u) {
                    assert(shorter.push(k)[shorter.index_of(u)] == u);
                }
                assert(shorter.push(k)[j as int] == k);
            }
        }
        if actual.get(other.name_at(j).as_str()).is_none() {
            add_diff(&mut r, other.name_at(j), actual, other);
        }
        j += 1;
    }
    proof {
        assert(other.names().take(m as int) =~= other.names());
        assert forall|k: Seq<char>| #[trigger] diff_keys(r@).contains(k) <==> property_differs(actual@, other@, k) by {
        }
    }
    r
}

/// How two states of a node differ; nothing where they do not.
pub fn diff_nodes(actual: &Node, cf: &Node) -> (r: Option<NodeDiff>)
    ensures
        match r {
            Some(diff) => node_differs(actual@, cf@) && is_node_diff(diff, actual@, cf@),
            None => !node_differs(actual@, cf@),
        },
{
    let property_diffs = diff_properties(&actual.properties, &cf.properties);
    let alive_diff = if actual.alive != cf.alive {
        Some((actual.alive, cf.alive))
    } else {
        None
    };
    proof {
        if property_diffs@.len() > 0 {
            let k = diff_keys(property_diffs@)[0];
            assert(diff_keys(property_diffs@).contains(k));
            assert(property_differs(actual@.properties, cf@.properties, k));
        } else {
            assert forall|k: Seq<char>| !#[trigger] property_differs(actual@.properties, cf@.properties, k) by {
                assert(!diff_keys(property_diffs@).contains(k));
            }
        }
    }
    if property_diffs.len() == 0 && alive_diff.is_none() {
        None
    } else {
        Some(NodeDiff { node_id: actual.id.clone(), property_diffs, alive_diff })
    }
}

/// How two states of an edge differ; nothing where they do not.
pub fn diff_edges(actual: &Edge, cf: &Edge) -> (r: Option<EdgeDiff>)
    ensures
        match r {
            Some(diff) => edge_differs(actual@, cf@) && is_edge_diff(diff, actual@, cf@),
            None => !edge_differs(actual@, cf@),
        },
{
    let property_diffs = diff_properties(&actual.properties, &cf.properties);
    let alive_diff = if actual.alive != cf.alive {
        Some((actual.alive, cf.alive))
    } else {
        None
    };
    proof {
        if property_diffs@.len() > 0 {
            let k = diff_keys(property_diffs@)[0];
            assert(diff_keys(property_diffs@).contains(k));
            assert(property_differs(actual@.properties, cf@.properties, k));
        } else {
            assert forall|k: Seq<char>| !#[trigger] property_differs(actual@.properties, cf@.properties, k) by {
                assert(!diff_keys(property_diffs@).contains(k));
            }
        }
    }
    if property_diffs.len() == 0 && alive_diff.is_none() {
        None
    } else {
        Some(EdgeDiff { edge_id: actual.id.clone(), property_diffs, alive_diff })
    }
}

proof fn pushed_contains(s: Seq<Seq<char>>, t: Seq<char>)
    ensures
        forall|u: Seq<char>| #[trigger] s.push(t).contains(u) <==> s.contains(u) || u == t,
        s.no_duplicates() && !s.contains(t) ==> s.push(t).no_duplicates(),
{
    assert forall|u: Seq<char>| #[trigger] s.push(t).contains(u) <==> s.contains(u) || u == t by {
        if s.contains(u) {
            assert(s.push(t)[s.index_of(u)] == u);
        }
        assert(s.push(t)[s.len() as int] == t);
    }
    if s.no_duplicates() && !s.contains(t) {
        assert forall|i: int, j: int| 0 <= i < j < s.push(t).len() implies s.push(t)[i] != s.push(t)[j] by {
            if j == s.len() {
                assert(s.contains(s[i]));
            }
        }
    }
}

fn living_nodes_only_in(one: &Projection, other: &Projection) -> (r: Vec<NodeId>)
    requires
        one.inv(),
        other.inv(),
    ensures
        names_all(r@, nodes_only_in(one@, other@)),
{
    let ids = one.all_node_ids();
    let mut r: Vec<NodeId> = Vec::new();
    let mut i: usize = 0;
    assert(texts(r@) =~= Seq::<Seq<char>>::empty());
    while i < ids.len()
        invariant
            one.inv(),
            other.inv(),
            i <= ids@.len(),
            texts(ids@).no_duplicates(),
            texts(r@).no_duplicates(),
            forall|t: Seq<char>| #[trigger]
                texts(r@).contains(t) <==> texts(ids@).take(i as int).contains(t) && nodes_only_in(one@, other@).contains(t),
        decreases ids@.len() - i,
    {
        let ghost t = ids@[i as int]@;
        let ghost shorter = texts(ids@).take(i as int);
        let ghost before = texts(r@);
        proof {
            assert(texts(ids@)[i as int] == t);
            assert(texts(ids@).take(i + 1) =~= shorter.push(t));
            pushed_contains(shorter, t);
            if shorter.contains(t) {
                assert(texts(ids@)[shorter.index_of(t)] == t);
            }
        }
        if one.has_node(&ids[i]) && !other.has_node(&ids[i]) {
            r.push(ids[i].clone());
            proof {
                assert(texts(r@) =~= before.push(t));
                pushed_contains(before, t);
            }
        }
        i += 1;
    }
    proof {
        assert(texts(ids@).take(ids@.len() as int) =~= texts(ids@));
        assert forall|t: Seq<char>| #[trigger] texts(r@).contains(t) <==> nodes_only_in(one@, other@).contains(t) by {
            if nodes_only_in(one@, other@).contains(t) {
                assert(texts(ids@).contains(t));
            }
        }
    }
    r
}

fn living_edges_only_in(one: &Projection, other: &Projection) -> (r: Vec<EdgeId>)
    requires
        one.inv(),
        other.inv(),
    ensures
        names_all(r@, edges_only_in(one@, other@)),
{
    let ids = one.all_edge_ids();
    let mut r: Vec<EdgeId> = Vec::new();
    let mut i: usize = 0;
    assert(texts(r@) =~= Seq::<Seq<char>>::empty());
    while i < ids.len()
        invariant
            one.inv(),
            other.inv(),
            i <= ids@.len(),
            texts(ids@).no_duplicates(),
            texts(r@).no_duplicates(),
            forall|t: Seq<char>| #[trigger]
                texts(r@).contains(t) <==> texts(ids@).take(i as int).contains(t) && edges_only_in(one@, other@).contains(t),
        decreases ids@.len() - i,
    {
        let ghost t = ids@[i as int]@;
        let ghost shorter = texts(ids@).take(i as int);
        let ghost before = texts(r@);
        proof {
            assert(texts(ids@)[i as int] == t);
            assert(texts(ids@).take(i + 1) =~= shorter.push(t));
            pushed_contains(shorter, t);
            if shorter.contains(t) {
                assert(texts(ids@)[shorter.index_of(t)] == t);
            }
        }
        if one.has_edge(&ids[i]) && !other.has_edge(&ids[i]) {
            r.push(ids[i].clone());
            proof {
                assert(texts(r@) =~= before.push(t));
                pushed_contains(before, t);
            }
        }
        i += 1;
    }
    proof {
        assert(texts(ids@).take(ids@.len() as int) =~= texts(ids@));
        assert forall|t: Seq<char>| #[trigger] texts(r@).contains(t) <==> edges_only_in(one@, other@).contains(t) by {
            if edges_only_in(one@, other@).contains(t) {
                assert(texts(ids@).contains(t));
            }
        }
    }
    r
}

/// The difference between two graphs.
pub fn diff_projections(actual: &Projection, counterfactual: &Projection) -> (r: GraphDiff)
    requires
        actual.inv(),
        counterfactual.inv(),
    ensures
        is_graph_diff(r, actual@, counterfactual@),
{
    let nodes_only_in_actual = living_nodes_only_in(actual, counterfactual);
    let nodes_only_in_counterfactual = living_nodes_only_in(counterfactual, actual);
    let edges_only_in_actual = living_edges_only_in(actual, counterfactual);
    let edges_only_in_counterfactual = living_edges_only_in(counterfactual, actual);

    let node_ids = actual.all_node_ids();
    let mut nodes_changed: Vec<NodeDiff> = Vec::new();
    let mut i: usize = 0;
    assert(changed_nodes(nodes_changed@) =~= Seq::<Seq<char>>::empty());
    while i < node_ids.len()
        invariant
            actual.inv(),
            counterfactual.inv(),
            i <= node_ids@.len(),
            texts(node_ids@).no_duplicates(),
            changed_nodes(nodes_changed@).no_duplicates(),
            forall|t: Seq<char>| #[trigger]
                changed_nodes(nodes_changed@).contains(t) <==> texts(node_ids@).take(i as int).contains(t)
                    && nodes_differing(actual@, counterfactual@).contains(t),
            forall|j: int|
                0 <= j < nodes_changed@.len() ==> {
                    let d = #[trigger] nodes_changed@[j];
                    is_node_diff(d, actual@.nodes[d.node_id@], counterfactual@.nodes[d.node_id@])
                },
        decreases node_ids@.len() - i,
    {
        let ghost t = node_ids@[i as int]@;
        let ghost shorter = texts(node_ids@).take(i as int);
        let ghost before = changed_nodes(nodes_changed@);
        proof {
            assert(texts(node_ids@)[i as int] == t);
            assert(texts(node_ids@).take(i + 1) =~= shorter.push(t));
            pushed_contains(shorter, t);
            if shorter.contains(t) {
                assert(texts(node_ids@)[shorter.index_of(t)] == t);
            }
        }
        if let Some(a) = actual.node(&node_ids[i]) {
            if let Some(c) = counterfactual.node(&node_ids[i]) {
                if let Some(diff) = diff_nodes(a, c) {
                    assert(actual@.nodes.contains_key(t));
                    nodes_changed.push(diff);
                    proof {
                        assert(changed_nodes(nodes_changed@) =~= before.push(t));
                        pushed_contains(before, t);
                    }
                }
            }
        }
        i += 1;
    }
    proof {
        assert(texts(node_ids@).take(node_ids@.len() as int) =~= texts(node_ids@));
        assert forall|t: Seq<char>| #[trigger] changed_nodes(nodes_changed@).contains(t) <==> nodes_differing(
            actual@,
            counterfactual@,
        ).contains(t) by {
            if nodes_differing(actual@, counterfactual@).contains(t) {
                assert(texts(node_ids@).contains(t));
            }
        }
    }

    let edge_ids = actual.all_edge_ids();
    let mut edges_changed: Vec<EdgeDiff> = Vec::new();
    let mut k: usize = 0;
    assert(changed_edges(edges_changed@) =~= Seq::<Seq<char>>::empty());
    while k < edge_ids.len()
        invariant
            actual.inv(),
            counterfactual.inv(),
            k <= edge_ids@.len(),
            texts(edge_ids@).no_duplicates(),
            changed_edges(edges_changed@).no_duplicates(),
            forall|t: Seq<char>| #[trigger]
                changed_edges(edges_changed@).contains(t) <==> texts(edge_ids@).take(k as int).contains(t)
                    && edges_differing(actual@, counterfactual@).contains(t),
            forall|j: int|
                0 <= j < edges_changed@.len() ==> {
                    let d = #[trigger] edges_changed@[j];
                    is_edge_diff(d, actual@.edges[d.edge_id@], counterfactual@.edges[d.edge_id@])
                },
        decreases edge_ids@.len() - k,
    {
        let ghost t = edge_ids@[k as int]@;
        let ghost shorter = texts(edge_ids@).take(k as int);
        let ghost before = changed_edges(edges_changed@);
        proof {
            assert(texts(edge_ids@)[k as int] == t);
            assert(texts(edge_ids@).take(k + 1) =~= shorter.push(t));
            pushed_contains(shorter, t);
            if shorter.contains(t) {
                assert(texts(edge_ids@)[shorter.index_of(t)] == t);
            }
        }
        if let Some(a) = actual.edge(&edge_ids[k]) {
            if let Some(c) = counterfactual.edge(&edge_ids[k]) {
                if let Some(diff) = diff_edges(a, c) {
                    assert(actual@.edges.contains_key(t));
                    edges_changed.push(diff);
                    proof {
                        assert(changed_edges(edges_changed@) =~= before.push(t));
                        pushed_contains(before, t);
                    }
                }
            }
        }
        k += 1;
    }
    proof {
        assert(texts(edge_ids@).take(edge_ids@.len() as int) =~= texts(edge_ids@));
        assert forall|t: Seq<char>| #[trigger] changed_edges(edges_changed@).contains(t) <==> edges_differing(
            actual@,
            counterfactual@,
        ).contains(t) by {
            if edges_differing(actual@, counterfactual@).contains(t) {
                assert(texts(edge_ids@).contains(t));
            }
        }
    }
    GraphDiff {
        nodes_only_in_actual,
        nodes_only_in_counterfactual,
        nodes_changed,
        edges_only_in_actual,
        edges_only_in_counterfactual,
        edges_changed,
    }
}

/// The graph made by the events that are not removed, refused ones passed over.
pub open spec fn replayed_graph(events: Seq<EventModel>, removed: Set<Seq<char>>) -> GraphModel
    decreases events.len(),
{
    if events.len() == 0 {
        GraphModel::empty()
    } else if removed.contains(events.last().id) {
        replayed_graph(events.drop_last(), removed)
    } else {
        replayed_graph(events.drop_last(), removed).after(events.last().kind)
    }
}

/// How many of the events that are not removed the graph accepts, where `accepted` is
/// true, or refuses, where it is false.
pub open spec fn replay_count(events: Seq<EventModel>, removed: Set<Seq<char>>, accepted: bool) -> nat
    decreases events.len(),
{
    if events.len() == 0 {
        0
    } else {
        let before = replay_count(events.drop_last(), removed, accepted);
        let outcome = replayed_graph(events.drop_last(), removed).outcome(events.last().kind);
        if !removed.contains(events.last().id) && (outcome is Ok) == accepted {
            before + 1
        } else {
            before
        }
    }
}

/// A graph without certain events, and what became of the others.
pub struct CounterfactualResult {
    pub projection: Projection,
    /// The number of events removed.
    pub events_removed: usize,
    /// The number of other events that the graph refused.
    pub events_skipped: usize,
    /// The number of other events that the graph accepted.
    pub events_replayed: usize,
}

/// The identifiers removed with an event: its own, and those of all it brought about.
pub open spec fn subtree(events: Seq<EventModel>, root: Seq<char>, ids: Set<Seq<char>>) -> bool {
    exists|found: Seq<EventModel>| #[trigger]
        descendants(events, root, found) && ids == reached(root, found).to_set()
}

/// The identifiers of the event and of all that it brought about; none where the log
/// does not hold the event.
pub fn causal_subtree(event_log: &EventLog, root_id: &EventId) -> (r: Vec<EventId>)
    requires
        event_log.inv(),
    ensures
        match last_position(event_log@.events, root_id@) {
            None => r@.len() == 0,
            Some(_) => exists|found: Seq<EventModel>| #[trigger]
                descendants(event_log@.events, root_id@, found) && texts(r@) == reached(root_id@, found),
        },
        texts(r@).no_duplicates(),
{
    let mut r: Vec<EventId> = Vec::new();
    assert(texts(r@) =~= Seq::<Seq<char>>::empty());
    if event_log.get(root_id).is_none() {
        return r;
    }
    r.push(root_id.clone());
    let found = event_log.causal_chain(root_id);
    let ghost models = borrowed_models(found@);
    let mut i: usize = 0;
    assert(texts(r@) =~= reached(root_id@, models.take(0)));
    while i < found.len()
        invariant
            i <= found@.len(),
            models == borrowed_models(found@),
            texts(r@) == reached(root_id@, models.take(i as int)),
        decreases found@.len() - i,
    {
        let ghost before = texts(r@);
        r.push(found[i].id.clone());
        proof {
            assert(texts(r@) =~= before.push(models[i as int].id));
            assert(reached(root_id@, models.take(i + 1)) =~= before.push(models[i as int].id));
        }
        i += 1;
    }
    assert(models.take(found@.len() as int) =~= models);
    r
}

fn id_set(ids: &Vec<Id>) -> (r: StringHashMap<bool>)
    ensures
        forall|t: Seq<char>| #[trigger] r@.contains_key(t) <==> texts(ids@).contains(t),
{
    let mut r: StringHashMap<bool> = StringHashMap::new();
    let mut i: usize = 0;
    assert(texts(ids@).take(0) =~= Seq::<Seq<char>>::empty());
    while i < ids.len()
        invariant
            i <= ids@.len(),
            forall|t: Seq<char>| #[trigger] r@.contains_key(t) <==> texts(ids@).take(i as int).contains(t),
        decreases ids@.len() - i,
    {
        r.insert(ids[i].text.clone(), true);
        proof {
            let shorter = texts(ids@).take(i as int);
            assert(texts(ids@).take(i + 1) =~= shorter.push(ids@[i as int]@));
            pushed_contains(shorter, ids@[i as int]@);
        }
        i += 1;
    }
    assert(texts(ids@).take(ids@.len() as int) =~= texts(ids@));
    r
}

fn replay(event_log: &EventLog, removed_ids: &Vec<Id>) -> (r: CounterfactualResult)
    requires
        event_log.inv(),
    ensures
        r.projection.inv(),
        r.projection@ == replayed_graph(event_log@.events, texts(removed_ids@).to_set()),
        r.events_removed == removed_ids@.len(),
        r.events_skipped == replay_count(event_log@.events, texts(removed_ids@).to_set(), false),
        r.events_replayed == replay_count(event_log@.events, texts(removed_ids@).to_set(), true),
{
    let ghost events = event_log@.events;
    let ghost removed = texts(removed_ids@).to_set();
    let set = id_set(removed_ids);
    let mut projection = Projection::new();
    let mut skipped: usize = 0;
    let mut replayed: usize = 0;
    let n: usize = event_log.events.len();
    let mut i: usize = 0;
    while i < n
        invariant
            i <= n,
            event_log.inv(),
            n == event_log.events@.len(),
            events == event_log@.events,
            n == events.len(),
            removed == texts(removed_ids@).to_set(),
            forall|t: Seq<char>| #[trigger] set@.contains_key(t) <==> texts(removed_ids@).contains(t),
            projection.inv(),
            projection@ == replayed_graph(events.take(i as int), removed),
            skipped + replayed <= i,
            skipped == replay_count(events.take(i as int), removed, false),
            replayed == replay_count(events.take(i as int), removed, true),
        decreases n - i,
    {
        let event = &event_log.events[i];
        proof {
            assert(events.take(i + 1).drop_last() =~= events.take(i as int));
            assert(events.take(i + 1).last() == events[i as int]);
            assert(events[i as int] == event@);
        }
        if !set.contains_key(event.id.as_str()) {
            match projection.apply(event) {
                Ok(_) => {
                    replayed += 1;
                },
                Err(_) => {
                    skipped += 1;
                },
            }
        }
        i += 1;
    }
    assert(events.take(n as int) =~= events);
    CounterfactualResult {
        projection,
        events_removed: removed_ids.len(),
        events_skipped: skipped,
        events_replayed: replayed,
    }
}

/// The result holds the graph replayed without the identifiers, and the counts.
pub open spec fn is_replay(r: CounterfactualResult, events: Seq<EventModel>, removed: Set<Seq<char>>) -> bool {
    &&& r.projection.inv()
    &&& r.projection@ == replayed_graph(events, removed)
    &&& r.events_removed == removed.len()
    &&& r.events_skipped == replay_count(events, removed, false)
    &&& r.events_replayed == replay_count(events, removed, true)
}

/// The graph as it would be if the event, and all it brought about, had not happened.
/// Events that the graph then refuses are passed over.
pub fn counterfactual(event_log: &EventLog, target_event_id: &EventId) -> (r: Result<CounterfactualResult, HydraError>)
    requires
        event_log.inv(),
    ensures
        match r {
            Ok(result) => {
                &&& last_position(event_log@.events, target_event_id@) is Some
                &&& exists|ids: Set<Seq<char>>| #[trigger]
                    subtree(event_log@.events, target_event_id@, ids) && is_replay(result, event_log@.events, ids)
            },
            Err(e) => {
                &&& last_position(event_log@.events, target_event_id@) is None
                &&& e == HydraError::EventNotFound(*target_event_id)
            },
        },
{
    let ids = causal_subtree(event_log, target_event_id);
    if ids.len() == 0 {
        proof {
            if last_position(event_log@.events, target_event_id@) is Some {
                let found = choose|found: Seq<EventModel>| #[trigger]
                    descendants(event_log@.events, target_event_id@, found) && texts(ids@) == reached(target_event_id@, found);
                assert(reached(target_event_id@, found).len() == found.len() + 1);
            }
        }
        return Err(HydraError::EventNotFound(target_event_id.clone()));
    }
    let result = replay(event_log, &ids);
    proof {
        texts(ids@).unique_seq_to_set();
        let found = choose|found: Seq<EventModel>| #[trigger]
            descendants(event_log@.events, target_event_id@, found) && texts(ids@) == reached(target_event_id@, found);
        assert(subtree(event_log@.events, target_event_id@, texts(ids@).to_set()));
    }
    Ok(result)
}

/// How often the text occurs in the list.
pub open spec fn occurrences(list: Seq<Seq<char>>, t: Seq<char>) -> nat
    decreases list.len(),
{
    if list.len() == 0 {
        0
    } else if list.last() == t {
        occurrences(list.drop_last(), t) + 1
    } else {
        occurrences(list.drop_last(), t)
    }
}

/// The table counts the texts of the list, up to the greatest number.
pub open spec fn tallies(counts: Map<Seq<char>, usize>, list: Seq<Seq<char>>) -> bool {
    forall|t: Seq<char>|
        #![trigger counts.contains_key(t)]
        #![trigger occurrences(list, t)]
        if occurrences(list, t) > 0 {
            counts.contains_key(t) && counts[t] == capped(occurrences(list, t))
        } else {
            !counts.contains_key(t)
        }
}

fn tally(counts: &mut Table<usize>, text: &str, Ghost(list): Ghost<Seq<Seq<char>>>)
    requires
        old(counts).wf(),
        tallies(old(counts)@, list),
    ensures
        final(counts).wf(),
        tallies(final(counts)@, list.push(text@)),
{
    let ghost before = counts@;
    let id = Id::from_str(text);
    let count: usize = match counts.get(&id) {
        Some(n) => n.saturating_add(1),
        None => 1,
    };
    counts.insert(id, count);
    proof {
        let longer = list.push(text@);
        assert(longer.drop_last() =~= list);
        assert forall|t: Seq<char>|
            #![trigger counts@.contains_key(t)]
            #![trigger occurrences(longer, t)]
            if occurrences(longer, t) > 0 {
                counts@.contains_key(t) && counts@[t] == capped(occurrences(longer, t))
            } else {
                !counts@.contains_key(t)
            } by {
            assert(before.contains_key(t) == (occurrences(list, t) > 0));
        }
    }
}

/// The nodes of a list of differences that are alive in both graphs or in neither.
pub open spec fn steady_nodes(diffs: Seq<NodeDiff>) -> Seq<Seq<char>>
    decreases diffs.len(),
{
    if diffs.len() == 0 {
        Seq::empty()
    } else if diffs.last().alive_diff is None {
        steady_nodes(diffs.drop_last()).push(diffs.last().node_id@)
    } else {
        steady_nodes(diffs.drop_last())
    }
}

/// The types of the nodes that differ: of those alive in the actual graph only, of those
/// alive in the other only, and of the others that changed. Each node is there once.
pub open spec fn affected_type_list(diff: GraphDiff, actual: GraphModel, other: GraphModel) -> Seq<Seq<char>> {
    texts(diff.nodes_only_in_actual@).map_values(|t: Seq<char>| actual.nodes[t].type_id)
        + texts(diff.nodes_only_in_counterfactual@).map_values(|t: Seq<char>| other.nodes[t].type_id)
        + steady_nodes(diff.nodes_changed@).map_values(|t: Seq<char>| actual.nodes[t].type_id)
}

/// The number of properties that the differences of nodes name.
pub open spec fn node_property_total(diffs: Seq<NodeDiff>) -> nat
    decreases diffs.len(),
{
    if diffs.len() == 0 {
        0
    } else {
        node_property_total(diffs.drop_last()) + diffs.last().property_diffs@.len()
    }
}

/// How much an event changed the graph. Counts stop at the greatest number.
pub struct ImpactScore {
    pub event_id: EventId,
    /// The number of events in the subtree of the event, itself included.
    pub causal_subtree_size: usize,
    pub nodes_affected: usize,
    pub edges_affected: usize,
    /// The number of properties of nodes that differ.
    pub properties_changed: usize,
    /// How many nodes of each type are affected.
    pub affected_types: Table<usize>,
    pub diff: GraphDiff,
}

/// Ten, five and one as numbers.
pub const TEN: u64 = 0x4024_0000_0000_0000;

pub const FIVE: u64 = 0x4014_0000_0000_0000;

impl ImpactScore {
    /// How large the impact is: nodes weigh more than edges, and edges more than properties.
    pub open spec fn weight(self) -> Number {
        Number::nearest(self.nodes_affected as nat).product(Number { bits: TEN }).sum(
            Number::nearest(self.edges_affected as nat).product(Number { bits: FIVE }),
        ).sum(Number::nearest(self.properties_changed as nat).product(Number { bits: ONE }))
    }

    /// How large the impact is: zero for none.
    pub fn magnitude(&self) -> (r: Number)
        ensures
            r == self.weight(),
    {
        let nodes = Number::from_nat(self.nodes_affected as u64).times(Number::from_bits(TEN));
        let edges = Number::from_nat(self.edges_affected as u64).times(Number::from_bits(FIVE));
        let properties = Number::from_nat(self.properties_changed as u64).times(Number::from_bits(ONE));
        nodes.plus(edges).plus(properties)
    }
}

fn tally_nodes(
    counts: &mut Table<usize>,
    graph: &Projection,
    ids: &Vec<NodeId>,
    Ghost(list): Ghost<Seq<Seq<char>>>,
)
    requires
        old(counts).wf(),
        tallies(old(counts)@, list),
        graph.inv(),
        forall|t: Seq<char>| #[trigger] texts(ids@).contains(t) ==> graph@.nodes.contains_key(t),
    ensures
        final(counts).wf(),
        tallies(final(counts)@, list + texts(ids@).map_values(|t: Seq<char>| graph@.nodes[t].type_id)),
{
    let ghost types = texts(ids@).map_values(|t: Seq<char>| graph@.nodes[t].type_id);
    let mut i: usize = 0;
    assert(list + types.take(0) =~= list);
    while i < ids.len()
        invariant
            i <= ids@.len(),
            graph.inv(),
            counts.wf(),
            types == texts(ids@).map_values(|t: Seq<char>| graph@.nodes[t].type_id),
            forall|t: Seq<char>| #[trigger] texts(ids@).contains(t) ==> graph@.nodes.contains_key(t),
            tallies(counts@, list + types.take(i as int)),
        decreases ids@.len() - i,
    {
        assert(texts(ids@)[i as int] == ids@[i as int]@);
        assert(texts(ids@).contains(ids@[i as int]@));
        if let Some(node) = graph.node(&ids[i]) {
            tally(counts, node.type_id.as_str(), Ghost(list + types.take(i as int)));
            assert(types[i as int] == node@.type_id);
            assert((list + types.take(i as int)).push(types[i as int]) =~= list + types.take(i + 1));
        }
        i += 1;
    }
    assert(types.take(ids@.len() as int) =~= types);
}

/// How much the event changed the graph: what the graph would be without it and all it
/// brought about, compared with the actual graph.
pub fn impact_score(event_log: &EventLog, actual: &Projection, target_event_id: &EventId) -> (r: Result<
    ImpactScore,
    HydraError,
>)
    requires
        event_log.inv(),
        actual.inv(),
    ensures
        match r {
            Ok(score) => {
                &&& last_position(event_log@.events, target_event_id@) is Some
                &&& exists|ids: Set<Seq<char>>| #[trigger]
                    subtree(event_log@.events, target_event_id@, ids) && is_impact(
                        score,
                        target_event_id@,
                        event_log@.events,
                        actual@,
                        ids,
                    )
            },
            Err(e) => {
                &&& last_position(event_log@.events, target_event_id@) is None
                &&& e == HydraError::EventNotFound(*target_event_id)
            },
        },
{
    let result = match counterfactual(event_log, target_event_id) {
        Ok(result) => result,
        Err(e) => {
            return Err(e);
        },
    };
    let diff = diff_projections(actual, &result.projection);
    let mut affected_types: Table<usize> = Table::new();
    let ghost other = result.projection@;
    tally_nodes(&mut affected_types, actual, &diff.nodes_only_in_actual, Ghost(Seq::empty()));
    let ghost first = texts(diff.nodes_only_in_actual@).map_values(|t: Seq<char>| actual@.nodes[t].type_id);
    assert(Seq::<Seq<char>>::empty() + first =~= first);
    tally_nodes(&mut affected_types, &result.projection, &diff.nodes_only_in_counterfactual, Ghost(first));
    let ghost second = first + texts(diff.nodes_only_in_counterfactual@).map_values(
        |t: Seq<char>| other.nodes[t].type_id,
    );
    let mut changed: Vec<NodeId> = Vec::new();
    let mut properties: usize = 0;
    let mut i: usize = 0;
    assert(texts(changed@) =~= steady_nodes(diff.nodes_changed@.take(0)));
    while i < diff.nodes_changed.len()
        invariant
            i <= diff.nodes_changed@.len(),
            texts(changed@) == steady_nodes(diff.nodes_changed@.take(i as int)),
            forall|t: Seq<char>| #[trigger]
                texts(changed@).contains(t) ==> changed_nodes(diff.nodes_changed@).contains(t),
            properties == capped(node_property_total(diff.nodes_changed@.take(i as int))),
        decreases diff.nodes_changed@.len() - i,
    {
        let ghost before = texts(changed@);
        let ghost t = diff.nodes_changed@[i as int].node_id@;
        proof {
            assert(diff.nodes_changed@.take(i + 1).drop_last() =~= diff.nodes_changed@.take(i as int));
            assert(changed_nodes(diff.nodes_changed@)[i as int] == t);
        }
        if diff.nodes_changed[i].alive_diff.is_none() {
            changed.push(diff.nodes_changed[i].node_id.clone());
            proof {
                assert(texts(changed@) =~= before.push(t));
                pushed_contains(before, t);
            }
        }
        properties = properties.saturating_add(diff.nodes_changed[i].property_diffs.len());
        i += 1;
    }
    assert(diff.nodes_changed@.take(diff.nodes_changed@.len() as int) =~= diff.nodes_changed@);
    tally_nodes(&mut affected_types, actual, &changed, Ghost(second));
    Ok(
        ImpactScore {
            event_id: target_event_id.clone(),
            causal_subtree_size: result.events_removed,
            nodes_affected: diff.nodes_affected(),
            edges_affected: diff.edges_affected(),
            properties_changed: properties,
            affected_types,
            diff,
        },
    )
}

/// The score compares the graph with the one without the identifiers.
pub open spec fn is_impact(
    score: ImpactScore,
    event_id: Seq<char>,
    events: Seq<EventModel>,
    actual: GraphModel,
    removed: Set<Seq<char>>,
) -> bool {
    let other = replayed_graph(events, removed);
    &&& score.event_id@ == event_id
    &&& score.causal_subtree_size == removed.len()
    &&& is_graph_diff(score.diff, actual, other)
    &&& score.nodes_affected == score.diff.nodes()
    &&& score.edges_affected == score.diff.edges()
    &&& score.properties_changed == capped(node_property_total(score.diff.nodes_changed@))
    &&& score.affected_types.wf()
    &&& tallies(score.affected_types@, affected_type_list(score.diff, actual, other))
}

/// A graph without the events chosen, and what became of the others.
pub struct CounterfactualFilterResult {
    pub projection: Projection,
    /// The number of events chosen.
    pub roots_matched: usize,
    /// The number of events removed: those chosen and all they brought about.
    pub events_removed: usize,
    /// The number of other events that the graph refused.
    pub events_skipped: usize,
    /// The number of other events that the graph accepted.
    pub events_replayed: usize,
}

/// The number of events chosen.
pub open spec fn chosen_count(chosen: Seq<bool>) -> nat
    decreases chosen.len(),
{
    if chosen.len() == 0 {
        0
    } else if chosen.last() {
        chosen_count(chosen.drop_last()) + 1
    } else {
        chosen_count(chosen.drop_last())
    }
}

/// The identifiers are those in the subtrees of the events chosen.
pub open spec fn chosen_subtrees(events: Seq<EventModel>, chosen: Seq<bool>, ids: Set<Seq<char>>) -> bool {
    &&& forall|i: int, found: Seq<EventModel>|
        0 <= i < chosen.len() && #[trigger] chosen[i] && #[trigger] descendants(events, events[i].id, found)
            ==> reached(events[i].id, found).to_set().subset_of(ids)
    &&& forall|t: Seq<char>| #[trigger]
        ids.contains(t) ==> exists|i: int, found: Seq<EventModel>|
            0 <= i < chosen.len() && #[trigger] chosen[i] && #[trigger] descendants(events, events[i].id, found)
                && reached(events[i].id, found).contains(t)
}

/// The result is the graph without the subtrees of the events chosen.
pub open spec fn is_filtered(
    r: CounterfactualFilterResult,
    events: Seq<EventModel>,
    chosen: Seq<bool>,
    ids: Set<Seq<char>>,
) -> bool {
    &&& chosen_subtrees(events, chosen, ids)
    &&& r.projection.inv()
    &&& r.projection@ == replayed_graph(events, ids)
    &&& r.roots_matched == chosen_count(chosen)
    &&& r.events_removed == ids.len()
    &&& r.events_skipped == replay_count(events, ids, false)
    &&& r.events_replayed == replay_count(events, ids, true)
}

impl CounterfactualFilterResult {
    /// The part of all events that was removed.
    pub open spec fn removed_part(self) -> Number {
        let total = capped(self.events_removed as nat + self.events_skipped as nat + self.events_replayed as nat);
        if total == 0 {
            Number { bits: 0 }
        } else {
            Number::part(self.events_removed as nat, total)
        }
    }

    /// The part of all events that was removed.
    pub fn removal_fraction(&self) -> (r: Number)
        ensures
            r == self.removed_part(),
            r.bits <= ONE,
    {
        let total: usize = self.events_removed.saturating_add(self.events_skipped).saturating_add(
            self.events_replayed,
        );
        if total == 0 {
            return Number::from_bits(0);
        }
        proof {
            law_parts_are_at_most_one(self.events_removed as u64, total as u64);
        }
        Number::quotient(self.events_removed as u64, total as u64)
    }
}

fn add_ids(removed: &mut Vec<Id>, set: &mut StringHashMap<bool>, ids: &Vec<Id>)
    requires
        texts(old(removed)@).no_duplicates(),
        forall|t: Seq<char>| #[trigger] old(set)@.contains_key(t) <==> texts(old(removed)@).contains(t),
    ensures
        texts(final(removed)@).no_duplicates(),
        forall|t: Seq<char>| #[trigger] final(set)@.contains_key(t) <==> texts(final(removed)@).contains(t),
        forall|t: Seq<char>| #[trigger]
            texts(final(removed)@).contains(t) <==> texts(old(removed)@).contains(t) || texts(ids@).contains(t),
{
    let ghost before = texts(removed@);
    let mut i: usize = 0;
    assert(texts(ids@).take(0) =~= Seq::<Seq<char>>::empty());
    while i < ids.len()
        invariant
            i <= ids@.len(),
            texts(removed@).no_duplicates(),
            forall|t: Seq<char>| #[trigger] set@.contains_key(t) <==> texts(removed@).contains(t),
            forall|t: Seq<char>| #[trigger]
                texts(removed@).contains(t) <==> before.contains(t) || texts(ids@).take(i as int).contains(t),
        decreases ids@.len() - i,
    {
        let ghost t = ids@[i as int]@;
        let ghost current = texts(removed@);
        proof {
            let shorter = texts(ids@).take(i as int);
            assert(texts(ids@).take(i + 1) =~= shorter.push(t));
            pushed_contains(shorter, t);
        }
        if !set.contains_key(ids[i].as_str()) {
            set.insert(ids[i].text.clone(), true);
            removed.push(ids[i].clone());
            proof {
                assert(texts(removed@) =~= current.push(t));
                pushed_contains(current, t);
            }
        }
        i += 1;
    }
    assert(texts(ids@).take(ids@.len() as int) =~= texts(ids@));
}

/// The graph as it would be without the events that the predicate chooses and all that
/// these brought about.
pub fn counterfactual_filter<F: Fn(&Event) -> bool>(event_log: &EventLog, predicate: F) -> (r: CounterfactualFilterResult)
    requires
        event_log.inv(),
        forall|e: &Event| #[trigger] call_requires(predicate, (e,)),
    ensures
        exists|chosen: Seq<bool>, ids: Set<Seq<char>>| #[trigger]
            is_filtered(r, event_log@.events, chosen, ids) && chosen.len() == event_log@.events.len() && forall|i: int|
                0 <= i < chosen.len() ==> call_ensures(predicate, (&event_log.events@[i],), #[trigger] chosen[i]),
{
    let ghost events = event_log@.events;
    let n: usize = event_log.events.len();
    let ghost mut chosen: Seq<bool> = Seq::empty();
    let mut removed: Vec<Id> = Vec::new();
    let mut set: StringHashMap<bool> = StringHashMap::new();
    let mut roots: usize = 0;
    let mut i: usize = 0;
    assert(texts(removed@) =~= Seq::<Seq<char>>::empty());
    while i < n
        invariant
            i <= n,
            n == event_log.events@.len(),
            event_log.inv(),
            events == event_log@.events,
            n == events.len(),
            forall|e: &Event| #[trigger] call_requires(predicate, (e,)),
            chosen.len() == i,
            forall|j: int| 0 <= j < i ==> call_ensures(predicate, (&event_log.events@[j],), #[trigger] chosen[j]),
            roots <= i,
            roots == chosen_count(chosen),
            texts(removed@).no_duplicates(),
            forall|t: Seq<char>| #[trigger] set@.contains_key(t) <==> texts(removed@).contains(t),
            chosen_subtrees(events, chosen, texts(removed@).to_set()),
        decreases n - i,
    {
        let event = &event_log.events[i];
        let hit = predicate(event);
        let ghost earlier = chosen;
        let ghost before = texts(removed@);
        proof {
            chosen = chosen.push(hit);
            assert(chosen.drop_last() =~= earlier);
            assert(events[i as int] == event@);
        }
        if hit {
            roots += 1;
            let ids = causal_subtree(event_log, &event.id);
            add_ids(&mut removed, &mut set, &ids);
            proof {
                crate::event_log::last_position_bounds(events, event.id@);
                assert(last_position(events, event.id@) is Some);
                let found = choose|found: Seq<EventModel>| #[trigger]
                    descendants(events, event.id@, found) && texts(ids@) == reached(event.id@, found);
                let all = texts(removed@).to_set();
                assert forall|j: int, other: Seq<EventModel>| 0 <= j < chosen.len() && #[trigger] chosen[j]
                    && #[trigger] descendants(events, events[j].id, other) implies reached(
                    events[j].id,
                    other,
                ).to_set().subset_of(all) by {
                    if j < i {
                        assert(earlier[j]);
                        assert(reached(events[j].id, other).to_set().subset_of(before.to_set()));
                        assert forall|t: Seq<char>| reached(events[j].id, other).to_set().contains(t) implies all.contains(
                            t,
                        ) by {
                            assert(before.to_set().contains(t));
                            assert(texts(removed@).contains(t));
                        }
                    } else {
                        crate::event_log::law_descendants_are_unique(events, events[j].id, other, found);
                        assert forall|t: Seq<char>| reached(events[j].id, other).to_set().contains(t) implies all.contains(
                            t,
                        ) by {
                            assert(texts(ids@).contains(t));
                            assert(texts(removed@).contains(t));
                        }
                    }
                }
                assert forall|t: Seq<char>| #[trigger] all.contains(t) implies exists|j: int, other: Seq<EventModel>|
                    0 <= j < chosen.len() && #[trigger] chosen[j] && #[trigger] descendants(events, events[j].id, other)
                        && reached(events[j].id, other).contains(t) by {
                    assert(texts(removed@).contains(t));
                    if before.contains(t) {
                        assert(before.to_set().contains(t));
                        let (j, other): (int, Seq<EventModel>) = choose|j: int, other: Seq<EventModel>|
                            0 <= j < earlier.len() && #[trigger] earlier[j] && #[trigger] descendants(
                                events,
                                events[j].id,
                                other,
                            ) && reached(events[j].id, other).contains(t);
                        assert(chosen[j]);
                        assert(descendants(events, events[j].id, other));
                    } else {
                        assert(chosen[i as int]);
                        assert(descendants(events, events[i as int].id, found));
                    }
                }
            }
        } else {
            proof {
                let all = texts(removed@).to_set();
                assert forall|j: int, other: Seq<EventModel>| 0 <= j < chosen.len() && #[trigger] chosen[j]
                    && #[trigger] descendants(events, events[j].id, other) implies reached(
                    events[j].id,
                    other,
                ).to_set().subset_of(all) by {
                    assert(earlier[j]);
                }
                assert forall|t: Seq<char>| #[trigger] all.contains(t) implies exists|j: int, other: Seq<EventModel>|
                    0 <= j < chosen.len() && #[trigger] chosen[j] && #[trigger] descendants(events, events[j].id, other)
                        && reached(events[j].id, other).contains(t) by {
                    let (j, other): (int, Seq<EventModel>) = choose|j: int, other: Seq<EventModel>|
                        0 <= j < earlier.len() && #[trigger] earlier[j] && #[trigger] descendants(
                            events,
                            events[j].id,
                            other,
                        ) && reached(events[j].id, other).contains(t);
                    assert(chosen[j]);
                    assert(descendants(events, events[j].id, other));
                }
            }
        }
        i += 1;
    }
    let result = replay(event_log, &removed);
    proof {
        texts(removed@).unique_seq_to_set();
    }
    let r = CounterfactualFilterResult {
        projection: result.projection,
        roots_matched: roots,
        events_removed: result.events_removed,
        events_skipped: result.events_skipped,
        events_replayed: result.events_replayed,
    };
    assert(is_filtered(r, events, chosen, texts(removed@).to_set()));
    r
}

/// A value without any float that is not a number.
pub open spec fn comparable(value: ValueModel) -> bool
    decreases value,
{
    match value {
        ValueModel::Float(x) => !x.nan(),
        ValueModel::List(items) => forall|i: int| 0 <= i < items.len() ==> comparable(#[trigger] items[i]),
        _ => true,
    }
}

/// A value equals itself, unless it holds a float that is not a number.
pub proof fn law_values_equal_themselves(value: ValueModel)
    requires
        comparable(value),
    ensures
        values_equal(value, value),
    decreases value,
{
    if let ValueModel::List(items) = value {
        assert forall|i: int| 0 <= i < items.len() implies values_equal(#[trigger] items[i], items[i]) by {
            law_values_equal_themselves(items[i]);
        }
    }
}

/// Every property of every node and edge is comparable.
pub open spec fn comparable_graph(graph: GraphModel) -> bool {
    &&& forall|t: Seq<char>, k: Seq<char>|
        graph.nodes.contains_key(t) && graph.nodes[t].properties.contains_key(k) ==> comparable(
            #[trigger] graph.nodes[t].properties[k],
        )
    &&& forall|t: Seq<char>, k: Seq<char>|
        graph.edges.contains_key(t) && graph.edges[t].properties.contains_key(k) ==> comparable(
            #[trigger] graph.edges[t].properties[k],
        )
}

/// A graph does not differ from itself, as long as no property holds a float that is
/// not a number.
pub proof fn law_no_difference_from_itself(diff: GraphDiff, graph: GraphModel)
    requires
        comparable_graph(graph),
        is_graph_diff(diff, graph, graph),
    ensures
        diff.nodes() == 0,
        diff.edges() == 0,
{
    if diff.nodes_only_in_actual@.len() > 0 {
        assert(texts(diff.nodes_only_in_actual@).contains(texts(diff.nodes_only_in_actual@)[0]));
    }
    if diff.nodes_only_in_counterfactual@.len() > 0 {
        assert(texts(diff.nodes_only_in_counterfactual@).contains(texts(diff.nodes_only_in_counterfactual@)[0]));
    }
    if diff.edges_only_in_actual@.len() > 0 {
        assert(texts(diff.edges_only_in_actual@).contains(texts(diff.edges_only_in_actual@)[0]));
    }
    if diff.edges_only_in_counterfactual@.len() > 0 {
        assert(texts(diff.edges_only_in_counterfactual@).contains(texts(diff.edges_only_in_counterfactual@)[0]));
    }
    if diff.nodes_changed@.len() > 0 {
        let t = changed_nodes(diff.nodes_changed@)[0];
        assert(changed_nodes(diff.nodes_changed@).contains(t));
        let p = graph.nodes[t].properties;
        let k = choose|k: Seq<char>| #[trigger] property_differs(p, p, k);
        law_values_equal_themselves(graph.nodes[t].properties[k]);
    }
    if diff.edges_changed@.len() > 0 {
        let t = changed_edges(diff.edges_changed@)[0];
        assert(changed_edges(diff.edges_changed@).contains(t));
        let p = graph.edges[t].properties;
        let k = choose|k: Seq<char>| #[trigger] property_differs(p, p, k);
        law_values_equal_themselves(graph.edges[t].properties[k]);
    }
    three_lists(
        texts(diff.nodes_only_in_actual@),
        texts(diff.nodes_only_in_counterfactual@),
        changed_nodes(diff.nodes_changed@),
    );
    three_lists(
        texts(diff.edges_only_in_actual@),
        texts(diff.edges_only_in_counterfactual@),
        changed_edges(diff.edges_changed@),
    );
}

/// Every event that is not removed is either replayed or passed over.
pub proof fn law_replay_accounts_for_every_event(events: Seq<EventModel>, removed: Set<Seq<char>>)
    ensures
        replay_count(events, removed, true) + replay_count(events, removed, false) == events.filter(
            |e: EventModel| !removed.contains(e.id),
        ).len(),
        replayed_graph(events, removed).events_applied == counted(
            replay_count(events, removed, true) + replay_count(events, removed, false),
        ),
    decreases events.len(),
{
    reveal(Seq::filter);
    if events.len() > 0 {
        law_replay_accounts_for_every_event(events.drop_last(), removed);
    }
}

/// A replayed graph is sound.
pub proof fn law_replayed_graphs_are_sound(events: Seq<EventModel>, removed: Set<Seq<char>>)
    ensures
        replayed_graph(events, removed).sound(),
    decreases events.len(),
{
    if events.len() > 0 {
        law_replayed_graphs_are_sound(events.drop_last(), removed);
        if !removed.contains(events.last().id) {
            crate::projection::law_events_keep_soundness(
                replayed_graph(events.drop_last(), removed),
                events.last().kind,
            );
        }
    }
}

/// The removed event is in its own subtree, and without a log entry that names it as a
/// cause it is alone there.
pub proof fn law_subtree_of_a_leaf(events: Seq<EventModel>, root: Seq<char>, ids: Set<Seq<char>>)
    requires
        subtree(events, root, ids),
    ensures
        ids.contains(root),
        (forall|p: int| 0 <= p < events.len() ==> !crate::event_log::caused(#[trigger] events[p], root)) ==> ids
            == set![root],
{
    let found = choose|found: Seq<EventModel>| #[trigger]
        descendants(events, root, found) && ids == reached(root, found).to_set();
    assert(reached(root, found)[0] == root);
    assert(reached(root, found).contains(root));
    if forall|p: int| 0 <= p < events.len() ==> !crate::event_log::caused(#[trigger] events[p], root) {
        let (by, at): (Seq<int>, Seq<int>) = choose|by: Seq<int>, at: Seq<int>| #[trigger]
            crate::event_log::breadth_first(events, root, found, by, at);
        if found.len() > 0 {
            assert(crate::event_log::found_at(events, reached(root, found), found, by[0], at[0], 0));
        }
        assert(found =~= Seq::<EventModel>::empty());
        assert(reached(root, found) =~= seq![root]);
        assert forall|t: Seq<char>| #[trigger] ids.contains(t) <==> t == root by {
            assert(seq![root][0] == root);
        }
        assert(ids =~= set![root]);
    }
}

} // verus!
