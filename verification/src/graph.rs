//! Nodes and edges.

use crate::ids::{EdgeId, NodeId};
use crate::value::{changed_properties, changes_something, Properties, Value, ValueModel};
use vstd::prelude::*;

verus! {

/// A node of the graph. A deleted node is kept, no longer alive.
#[derive(Debug, PartialEq)]
pub struct Node {
    pub id: NodeId,
    pub type_id: String,
    pub properties: Properties,
    pub alive: bool,
    pub version: u64,
}

/// What a node stands for.
pub struct NodeModel {
    pub id: Seq<char>,
    pub type_id: Seq<char>,
    pub properties: Map<Seq<char>, ValueModel>,
    pub alive: bool,
    pub version: nat,
}

impl View for Node {
    type V = NodeModel;

    open spec fn view(&self) -> NodeModel {
        NodeModel {
            id: self.id@,
            type_id: self.type_id@,
            properties: self.properties@,
            alive: self.alive,
            version: self.version as nat,
        }
    }
}

/// An edge of the graph. A deleted edge is kept, no longer alive.
#[derive(Debug, PartialEq)]
pub struct Edge {
    pub id: EdgeId,
    pub type_id: String,
    pub source: NodeId,
    pub target: NodeId,
    pub properties: Properties,
    pub alive: bool,
    pub version: u64,
}

/// What an edge stands for.
pub struct EdgeModel {
    pub id: Seq<char>,
    pub type_id: Seq<char>,
    pub source: Seq<char>,
    pub target: Seq<char>,
    pub properties: Map<Seq<char>, ValueModel>,
    pub alive: bool,
    pub version: nat,
}

impl View for Edge {
    type V = EdgeModel;

    open spec fn view(&self) -> EdgeModel {
        EdgeModel {
            id: self.id@,
            type_id: self.type_id@,
            source: self.source@,
            target: self.target@,
            properties: self.properties@,
            alive: self.alive,
            version: self.version as nat,
        }
    }
}

/// The version after a change: one more where anything changed, up to the greatest number.
pub open spec fn next_version(version: nat, changed: bool) -> nat {
    if changed && version < u64::MAX {
        version + 1
    } else {
        version
    }
}

impl NodeModel {
    /// The node after its properties were changed.
    pub open spec fn changed(self, changes: Map<Seq<char>, ValueModel>) -> NodeModel {
        NodeModel {
            properties: changed_properties(self.properties, changes),
            version: next_version(self.version, changes_something(self.properties, changes)),
            ..self
        }
    }

    /// The node after it was deleted.
    pub open spec fn dead(self) -> NodeModel {
        NodeModel { alive: false, ..self }
    }
}

impl EdgeModel {
    /// The edge after its properties were changed.
    pub open spec fn changed(self, changes: Map<Seq<char>, ValueModel>) -> EdgeModel {
        EdgeModel {
            properties: changed_properties(self.properties, changes),
            version: next_version(self.version, changes_something(self.properties, changes)),
            ..self
        }
    }

    /// The edge after it was deleted.
    pub open spec fn dead(self) -> EdgeModel {
        EdgeModel { alive: false, ..self }
    }
}

impl Node {
    /// A new node, alive, in its first version.
    pub fn new(id: NodeId, type_id: String, properties: Properties) -> (r: Node)
        ensures
            r@ == (NodeModel {
                id: id@,
                type_id: type_id@,
                properties: properties@,
                alive: true,
                version: 1,
            }),
    {
        Node { id, type_id, properties, alive: true, version: 1 }
    }

    /// The node's identifier.
    pub fn id(&self) -> (r: &NodeId)
        ensures
            r@ == self@.id,
    {
        &self.id
    }

    /// The node's type.
    pub fn type_id(&self) -> (r: &str)
        ensures
            r@ == self@.type_id,
    {
        self.type_id.as_str()
    }

    /// Whether the node has not been deleted.
    pub fn is_alive(&self) -> (r: bool)
        ensures
            r == self@.alive,
    {
        self.alive
    }

    /// The value of a property.
    pub fn get(&self, key: &str) -> (r: Option<&Value>)
        ensures
            match r {
                Some(v) => self@.properties.contains_key(key@) && v@ == self@.properties[key@],
                None => !self@.properties.contains_key(key@),
            },
    {
        self.properties.get(key)
    }

    /// The value of a property that holds a truth value.
    pub fn get_bool(&self, key: &str) -> (r: Option<bool>)
        ensures
            match r {
                Some(b) => self@.properties.contains_key(key@) && self@.properties[key@] == ValueModel::Bool(b),
                None => !(self@.properties.contains_key(key@) && self@.properties[key@] is Bool),
            },
    {
        match self.properties.get(key) {
            Some(Value::Bool(b)) => Some(*b),
            _ => None,
        }
    }

    /// The value of a property that holds an integer.
    pub fn get_i64(&self, key: &str) -> (r: Option<i64>)
        ensures
            match r {
                Some(n) => self@.properties.contains_key(key@) && self@.properties[key@] == ValueModel::Int(n as int),
                None => !(self@.properties.contains_key(key@) && self@.properties[key@] is Int),
            },
    {
        match self.properties.get(key) {
            Some(Value::Int(n)) => Some(*n),
            _ => None,
        }
    }

    /// The value of a property that holds a text.
    pub fn get_str(&self, key: &str) -> (r: Option<&str>)
        ensures
            match r {
                Some(s) => self@.properties.contains_key(key@) && self@.properties[key@] == ValueModel::Text(s@),
                None => !(self@.properties.contains_key(key@) && self@.properties[key@] is Text),
            },
    {
        match self.properties.get(key) {
            Some(Value::String(s)) => Some(s.as_str()),
            _ => None,
        }
    }

    /// Changes properties; says whether any property changed.
    pub fn apply_changes(&mut self, changes: &Properties) -> (r: bool)
        ensures
            final(self)@ == old(self)@.changed(changes@),
            r == changes_something(old(self)@.properties, changes@),
    {
        let changed = self.properties.apply(changes);
        if changed && self.version < u64::MAX {
            self.version = self.version + 1;
        }
        changed
    }

    /// Marks the node as deleted.
    pub fn delete(&mut self)
        ensures
            final(self)@ == old(self)@.dead(),
    {
        self.alive = false;
    }
}

impl Edge {
    /// A new edge, alive, in its first version.
    pub fn new(id: EdgeId, type_id: String, source: NodeId, target: NodeId, properties: Properties) -> (r: Edge)
        ensures
            r@ == (EdgeModel {
                id: id@,
                type_id: type_id@,
                source: source@,
                target: target@,
                properties: properties@,
                alive: true,
                version: 1,
            }),
    {
        Edge { id, type_id, source, target, properties, alive: true, version: 1 }
    }

    /// The edge's identifier.
    pub fn id(&self) -> (r: &EdgeId)
        ensures
            r@ == self@.id,
    {
        &self.id
    }

    /// The edge's type.
    pub fn type_id(&self) -> (r: &str)
        ensures
            r@ == self@.type_id,
    {
        self.type_id.as_str()
    }

    /// The node that the edge leaves.
    pub fn source(&self) -> (r: &NodeId)
        ensures
            r@ == self@.source,
    {
        &self.source
    }

    /// The node that the edge leads to.
    pub fn target(&self) -> (r: &NodeId)
        ensures
            r@ == self@.target,
    {
        &self.target
    }

    /// Whether the edge has not been deleted.
    pub fn is_alive(&self) -> (r: bool)
        ensures
            r == self@.alive,
    {
        self.alive
    }

    /// The value of a property.
    pub fn get(&self, key: &str) -> (r: Option<&Value>)
        ensures
            match r {
                Some(v) => self@.properties.contains_key(key@) && v@ == self@.properties[key@],
                None => !self@.properties.contains_key(key@),
            },
    {
        self.properties.get(key)
    }

    /// Changes properties; says whether any property changed.
    pub fn apply_changes(&mut self, changes: &Properties) -> (r: bool)
        ensures
            final(self)@ == old(self)@.changed(changes@),
            r == changes_something(old(self)@.properties, changes@),
    {
        let changed = self.properties.apply(changes);
        if changed && self.version < u64::MAX {
            self.version = self.version + 1;
        }
        changed
    }

    /// Marks the edge as deleted.
    pub fn delete(&mut self)
        ensures
            final(self)@ == old(self)@.dead(),
    {
        self.alive = false;
    }
}

} // verus!
