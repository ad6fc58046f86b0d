//! Nodes and their keys.

use crate::collections::{Key, ListSet, StrSet};
use crate::edge::{EdgeKey, EdgeKeyView};
use vstd::prelude::*;

verus! {

/// What a [`NodeKey`] stands for: a version and a state, as texts.
pub struct NodeKeyView {
    pub version: Seq<char>,
    pub state: Seq<char>,
}

/// The identity of a node: the version and the state that an entity has in it.
#[derive(Debug, PartialEq, Eq, Hash)]
pub struct NodeKey {
    pub version: String,
    pub state: String,
}

impl View for NodeKey {
    type V = NodeKeyView;

    open spec fn view(&self) -> NodeKeyView {
        NodeKeyView { version: self.version@, state: self.state@ }
    }
}

impl Clone for NodeKey {
    fn clone(&self) -> (r: Self)
        ensures
            r == *self,
    {
        NodeKey { version: self.version.clone(), state: self.state.clone() }
    }
}

impl Key for NodeKey {
    fn same(&self, other: &Self) -> (r: bool) {
        self.version == other.version && self.state == other.state
    }
}

impl NodeKey {
    /// The key of the node for `state` at `version`.
    pub fn new(version: &str, state: &str) -> (k: NodeKey)
        ensures
            k@ == (NodeKeyView { version: version@, state: state@ }),
    {
        NodeKey { version: version.to_string(), state: state.to_string() }
    }
}

/// A node of the graph: a version and a state, the entities that have that
/// state in that version, and the keys of the edges that leave and reach it.
pub struct Node {
    pub id: usize,
    pub key: NodeKey,
    pub uids: StrSet,
    pub edge_ids_out: ListSet<EdgeKey>,
    pub edge_ids_in: ListSet<EdgeKey>,
}

impl Node {
    /// A node with the given members and no edges.
    pub fn new(id: usize, key: NodeKey, uids: StrSet) -> (n: Node)
        ensures
            n.id == id,
            n.key == key,
            n.uids == uids,
            n.edge_ids_out@ == Set::<EdgeKeyView>::empty(),
            n.edge_ids_in@ == Set::<EdgeKeyView>::empty(),
    {
        Node { id, key, uids, edge_ids_out: ListSet::new(), edge_ids_in: ListSet::new() }
    }

    /// Records `edge` among the edges that leave this node.
    pub fn add_edge_out(&mut self, edge: &EdgeKey)
        ensures
            final(self).edge_ids_out@ == old(self).edge_ids_out@.insert(edge@),
            final(self).id == old(self).id,
            final(self).key == old(self).key,
            final(self).uids == old(self).uids,
            final(self).edge_ids_in == old(self).edge_ids_in,
    {
        self.edge_ids_out.insert(edge.clone());
    }

    /// Records `edge` among the edges that reach this node.
    pub fn add_edge_in(&mut self, edge: &EdgeKey)
        ensures
            final(self).edge_ids_in@ == old(self).edge_ids_in@.insert(edge@),
            final(self).id == old(self).id,
            final(self).key == old(self).key,
            final(self).uids == old(self).uids,
            final(self).edge_ids_out == old(self).edge_ids_out,
    {
        self.edge_ids_in.insert(edge.clone());
    }
}

} // verus!
