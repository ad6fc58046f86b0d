//! Edges and their keys.

use crate::collections::{Key, StrSet};
use crate::node::{NodeKey, NodeKeyView};
use vstd::prelude::*;

verus! {

/// What an [`EdgeKey`] stands for: the keys of the two nodes that it joins.
pub struct EdgeKeyView {
    pub from_node: NodeKeyView,
    pub to_node: NodeKeyView,
}

/// The identity of an edge: the node it leaves and the node it reaches.
#[derive(Debug, PartialEq, Eq, Hash)]
pub struct EdgeKey {
    pub from_node: NodeKey,
    pub to_node: NodeKey,
}

impl View for EdgeKey {
    type V = EdgeKeyView;

    open spec fn view(&self) -> EdgeKeyView {
        EdgeKeyView { from_node: self.from_node@, to_node: self.to_node@ }
    }
}

impl Clone for EdgeKey {
    fn clone(&self) -> (r: Self)
        ensures
            r == *self,
    {
        EdgeKey { from_node: self.from_node.clone(), to_node: self.to_node.clone() }
    }
}

impl Key for EdgeKey {
    fn same(&self, other: &Self) -> (r: bool) {
        self.from_node.same(&other.from_node) && self.to_node.same(&other.to_node)
    }
}

impl EdgeKey {
    /// The key of the edge from `from_node` to `to_node`.
    pub fn new(from_node: &NodeKey, to_node: &NodeKey) -> (k: EdgeKey)
        ensures
            k.from_node == *from_node,
            k.to_node == *to_node,
    {
        EdgeKey { from_node: from_node.clone(), to_node: to_node.clone() }
    }
}

/// An edge of the graph: the ids of the two nodes that it joins and the
/// entities that went from the one to the other.
pub struct Edge {
    pub id: usize,
    pub from_node: usize,
    pub to_node: usize,
    pub uids: StrSet,
}

impl Edge {
    /// An edge with the given endpoints and members.
    pub fn new(id: usize, from_node: usize, to_node: usize, uids: StrSet) -> (e: Edge)
        ensures
            e == (Edge { id, from_node, to_node, uids }),
    {
        Edge { id, from_node, to_node, uids }
    }
}

} // verus!
