//! The store of nodes and edges.

use crate::collections::StrSet;
use crate::edge::{Edge, EdgeKey, EdgeKeyView};
use crate::error::TrackerError;
use crate::index::{EdgeIndex, NodeIndex};
use crate::node::{Node, NodeKey, NodeKeyView};
use vstd::prelude::*;

verus! {

/// The store of nodes and edges. Each node and each edge is held once, at the
/// position that is its id, and is found again by its key.
pub struct Graph {
    pub node_key_to_id: NodeIndex,
    pub edge_key_to_id: EdgeIndex,
    pub nodes: Vec<Node>,
    pub edges: Vec<Edge>,
}

impl Graph {
    /// Whether a node with key `k` is in the store.
    pub open spec fn has_node(&self, k: NodeKeyView) -> bool {
        self.node_key_to_id@.contains_key(k)
    }

    /// The id of the node with key `k`.
    pub open spec fn node_id(&self, k: NodeKeyView) -> int {
        self.node_key_to_id@[k] as int
    }

    /// Whether an edge with key `k` is in the store.
    pub open spec fn has_edge(&self, k: EdgeKeyView) -> bool {
        self.edge_key_to_id@.contains_key(k)
    }

    /// The id of the edge with key `k`.
    pub open spec fn edge_id(&self, k: EdgeKeyView) -> int {
        self.edge_key_to_id@[k] as int
    }

    /// The key of the edge with id `e`: the keys of the nodes that it joins.
    pub open spec fn edge_key_of(&self, e: int) -> EdgeKeyView {
        EdgeKeyView {
            from_node: self.nodes[self.edges[e].from_node as int].key@,
            to_node: self.nodes[self.edges[e].to_node as int].key@,
        }
    }

    /// The keys of the nodes, in the order of their ids.
    pub open spec fn node_keys(&self) -> Seq<NodeKeyView> {
        Seq::new(self.nodes.len() as nat, |i: int| self.nodes[i].key@)
    }

    /// The keys of the edges, in the order of their ids.
    pub open spec fn edge_keys(&self) -> Seq<EdgeKeyView> {
        Seq::new(self.edges.len() as nat, |e: int| self.edge_key_of(e))
    }

    /// The members of the node with id `i`; none where there is no such node.
    pub open spec fn node_members(&self, i: int) -> Set<Seq<char>> {
        if 0 <= i < self.nodes.len() {
            self.nodes[i].uids@
        } else {
            Set::empty()
        }
    }

    /// The members of the edge with id `e`; none where there is no such edge.
    pub open spec fn edge_members(&self, e: int) -> Set<Seq<char>> {
        if 0 <= e < self.edges.len() {
            self.edges[e].uids@
        } else {
            Set::empty()
        }
    }

    /// Every node has its position as id and is the one that its key leads to,
    /// and every known node key leads to a node.
    pub open spec fn nodes_indexed(&self) -> bool {
        &&& forall|i: int|
            0 <= i < self.nodes.len() ==> {
                &&& (#[trigger] self.nodes[i]).id == i
                &&& self.has_node(self.nodes[i].key@)
                &&& self.node_id(self.nodes[i].key@) == i
            }
        &&& forall|k: NodeKeyView| #[trigger]
            self.has_node(k) ==> {
                &&& 0 <= self.node_id(k) < self.nodes.len()
                &&& self.nodes[self.node_id(k)].key@ == k
            }
    }

    /// Every edge has its position as id, joins two nodes of the store and is
    /// the one that its key leads to, and every known edge key leads to an edge.
    pub open spec fn edges_indexed(&self) -> bool {
        &&& forall|e: int|
            0 <= e < self.edges.len() ==> {
                &&& (#[trigger] self.edges[e]).id == e
                &&& self.edges[e].from_node < self.nodes.len()
                &&& self.edges[e].to_node < self.nodes.len()
                &&& self.has_edge(self.edge_key_of(e))
                &&& self.edge_id(self.edge_key_of(e)) == e
            }
        &&& forall|k: EdgeKeyView| #[trigger]
            self.has_edge(k) ==> {
                &&& 0 <= self.edge_id(k) < self.edges.len()
                &&& self.edge_key_of(self.edge_id(k)) == k
            }
    }

    /// A node records as leaving it exactly the edges of the store that leave
    /// it, and as reaching it exactly those that reach it.
    pub open spec fn adjacency_recorded(&self) -> bool {
        &&& forall|e: int|
            0 <= e < self.edges.len() ==> {
                &&& self.nodes[(#[trigger] self.edges[e]).from_node as int].edge_ids_out@.contains(
                    self.edge_key_of(e),
                )
                &&& self.nodes[self.edges[e].to_node as int].edge_ids_in@.contains(
                    self.edge_key_of(e),
                )
            }
        &&& forall|i: int, k: EdgeKeyView|
            0 <= i < self.nodes.len() && #[trigger] self.nodes[i].edge_ids_out@.contains(k) ==> {
                &&& self.has_edge(k)
                &&& k.from_node == self.nodes[i].key@
            }
        &&& forall|i: int, k: EdgeKeyView|
            0 <= i < self.nodes.len() && #[trigger] self.nodes[i].edge_ids_in@.contains(k) ==> {
                &&& self.has_edge(k)
                &&& k.to_node == self.nodes[i].key@
            }
    }

    /// The validity of a store.
    pub open spec fn wf(&self) -> bool {
        &&& self.nodes_indexed()
        &&& self.edges_indexed()
        &&& self.adjacency_recorded()
    }

    /// Whether `other` has the nodes and edges of `self` under the same ids
    /// and keys, with the same endpoints and the same edges recorded at each
    /// node. The members may differ.
    pub open spec fn same_shape(&self, other: &Graph) -> bool {
        &&& other.node_key_to_id@ == self.node_key_to_id@
        &&& other.edge_key_to_id@ == self.edge_key_to_id@
        &&& other.nodes.len() == self.nodes.len()
        &&& other.edges.len() == self.edges.len()
        &&& forall|i: int|
            0 <= i < self.nodes.len() ==> {
                &&& (#[trigger] other.nodes[i]).id == self.nodes[i].id
                &&& other.nodes[i].key@ == self.nodes[i].key@
                &&& other.nodes[i].edge_ids_out@ == self.nodes[i].edge_ids_out@
                &&& other.nodes[i].edge_ids_in@ == self.nodes[i].edge_ids_in@
            }
        &&& forall|e: int|
            0 <= e < self.edges.len() ==> {
                &&& (#[trigger] other.edges[e]).id == self.edges[e].id
                &&& other.edges[e].from_node == self.edges[e].from_node
                &&& other.edges[e].to_node == self.edges[e].to_node
            }
    }

    /// The validity of a store does not depend on the members of its nodes
    /// and edges.
    pub proof fn lemma_same_shape_wf(&self, other: &Graph)
        requires
            self.wf(),
            self.same_shape(other),
        ensures
            other.wf(),
            other.node_keys() == self.node_keys(),
            other.edge_keys() == self.edge_keys(),
    {
        assert forall|k: NodeKeyView| #[trigger] other.has_node(k) implies {
            &&& 0 <= other.node_id(k) < other.nodes.len()
            &&& other.nodes[other.node_id(k)].key@ == k
        } by {
            assert(self.has_node(k));
        }
        assert forall|k: EdgeKeyView| #[trigger] other.has_edge(k) implies {
            &&& 0 <= other.edge_id(k) < other.edges.len()
            &&& other.edge_key_of(other.edge_id(k)) == k
        } by {
            assert(self.has_edge(k));
        }
    }

    /// In a valid store the keys of the nodes are the known node keys, each
    /// once, and the keys of the edges are the known edge keys, each once.
    pub proof fn lemma_keys_distinct(&self)
        requires
            self.wf(),
        ensures
            self.node_keys().no_duplicates(),
            self.edge_keys().no_duplicates(),
            forall|k: NodeKeyView| self.node_keys().contains(k) <==> self.has_node(k),
            forall|k: EdgeKeyView| self.edge_keys().contains(k) <==> self.has_edge(k),
    {
        assert forall|k: NodeKeyView| self.node_keys().contains(k) <==> self.has_node(k) by {
            if self.has_node(k) {
                assert(self.node_keys()[self.node_id(k)] == k);
            }
        }
        assert forall|k: EdgeKeyView| self.edge_keys().contains(k) <==> self.has_edge(k) by {
            if self.has_edge(k) {
                assert(self.edge_keys()[self.edge_id(k)] == k);
            }
        }
    }

    /// The empty store.
    pub fn new() -> (g: Graph)
        ensures
            g.wf(),
            g.nodes@.len() == 0,
            g.edges@.len() == 0,
            g.node_key_to_id@ == Map::<NodeKeyView, usize>::empty(),
            g.edge_key_to_id@ == Map::<EdgeKeyView, usize>::empty(),
    {
        Graph {
            node_key_to_id: NodeIndex::new(),
            edge_key_to_id: EdgeIndex::new(),
            nodes: Vec::new(),
            edges: Vec::new(),
        }
    }

    /// The node with the given key, if the store has one.
    pub fn get_node(&self, key: &NodeKey) -> (r: Option<&Node>)
        requires
            self.nodes_indexed(),
        ensures
            match r {
                Some(n) => self.has_node(key@) && *n == self.nodes[self.node_id(key@)],
                None => !self.has_node(key@),
            },
    {
        match self.node_key_to_id.get(key) {
            Some(id) => {
                assert(self.has_node(key@));
                Some(&self.nodes[id])
            },
            None => None,
        }
    }

    /// The node with the given key, for the caller to change.
    pub fn get_node_mut(&mut self, key: &NodeKey) -> (r: &mut Node)
        requires
            old(self).nodes_indexed(),
            old(self).has_node(key@),
        ensures
            *r == old(self).nodes[old(self).node_id(key@)],
            final(self).nodes@ == old(self).nodes@.update(old(self).node_id(key@), *final(r)),
            final(self).edges == old(self).edges,
            final(self).node_key_to_id == old(self).node_key_to_id,
            final(self).edge_key_to_id == old(self).edge_key_to_id,
    {
        let id = self.node_key_to_id.get(key).unwrap();
        &mut self.nodes[id]
    }

    /// The edge with the given key, if the store has one.
    pub fn get_edge(&self, edge_key: &EdgeKey) -> (r: Option<&Edge>)
        requires
            self.edges_indexed(),
        ensures
            match r {
                Some(e) => self.has_edge(edge_key@) && *e == self.edges[self.edge_id(edge_key@)],
                None => !self.has_edge(edge_key@),
            },
    {
        match self.edge_key_to_id.get(edge_key) {
            Some(id) => {
                assert(self.has_edge(edge_key@));
                Some(&self.edges[id])
            },
            None => None,
        }
    }

    /// The edge with the given key, for the caller to change.
    pub fn get_edge_mut(&mut self, key: &EdgeKey) -> (r: &mut Edge)
        requires
            old(self).edges_indexed(),
            old(self).has_edge(key@),
        ensures
            *r == old(self).edges[old(self).edge_id(key@)],
            final(self).edges@ == old(self).edges@.update(old(self).edge_id(key@), *final(r)),
            final(self).nodes == old(self).nodes,
            final(self).node_key_to_id == old(self).node_key_to_id,
            final(self).edge_key_to_id == old(self).edge_key_to_id,
    {
        let id = self.edge_key_to_id.get(key).unwrap();
        &mut self.edges[id]
    }

    /// What `add_node` answers for a key and a set of members.
    pub open spec fn add_node_outcome(&self, key: NodeKeyView, uids: Set<Seq<char>>) -> Result<
        (),
        TrackerError,
    > {
        if self.has_node(key) && self.nodes[self.node_id(key)].uids@ != uids {
            Err(TrackerError::ConflictingAttributes)
        } else {
            Ok(())
        }
    }

    /// Adds a node for `key` with the members `uids`, under the next id.
    ///
    /// Where the store has a node for `key` already, nothing changes: the call
    /// succeeds if that node has exactly the members `uids`, and is refused
    /// with `ConflictingAttributes` if it has not.
    pub fn add_node(&mut self, key: NodeKey, uids: StrSet) -> (r: Result<(), TrackerError>)
        requires
            old(self).wf(),
        ensures
            final(self).wf(),
            r == old(self).add_node_outcome(key@, uids@),
            old(self).has_node(key@) ==> *final(self) == *old(self),
            !old(self).has_node(key@) ==> {
                &&& final(self).nodes@ == old(self).nodes@.push(final(self).nodes@.last())
                &&& final(self).nodes@.last().id == old(self).nodes.len()
                &&& final(self).nodes@.last().key == key
                &&& final(self).nodes@.last().uids == uids
                &&& final(self).nodes@.last().edge_ids_out@ == Set::<EdgeKeyView>::empty()
                &&& final(self).nodes@.last().edge_ids_in@ == Set::<EdgeKeyView>::empty()
                &&& final(self).node_key_to_id@ == old(self).node_key_to_id@.insert(
                    key@,
                    old(self).nodes.len(),
                )
                &&& final(self).edges == old(self).edges
                &&& final(self).edge_key_to_id == old(self).edge_key_to_id
            },
    {
        let existing = self.get_node(&key);
        if existing.is_some() {
            if existing.unwrap().uids.equals(&uids) {
                return Ok(());
            } else {
                return Err(TrackerError::ConflictingAttributes);
            }
        }
        let node_id = self.nodes.len();
        self.nodes.push(Node::new(node_id, key.clone(), uids));
        self.node_key_to_id.insert(key, node_id);
        proof {
            let before = *old(self);
            let after = *self;
            assert forall|k: NodeKeyView| #[trigger] after.has_node(k) implies {
                &&& 0 <= after.node_id(k) < after.nodes.len()
                &&& after.nodes[after.node_id(k)].key@ == k
            } by {
                if k != key@ {
                    assert(before.has_node(k));
                }
            }
            assert forall|k: EdgeKeyView| #[trigger] after.has_edge(k) implies {
                &&& 0 <= after.edge_id(k) < after.edges.len()
                &&& after.edge_key_of(after.edge_id(k)) == k
            } by {
                assert(before.has_edge(k));
            }
        }
        Ok(())
    }

    /// What `add_edge` answers for two node keys and a set of members.
    pub open spec fn add_edge_outcome(
        &self,
        from_key: NodeKeyView,
        to_key: NodeKeyView,
        uids: Set<Seq<char>>,
    ) -> Result<(), TrackerError> {
        let k = EdgeKeyView { from_node: from_key, to_node: to_key };
        if self.has_edge(k) {
            if self.edges[self.edge_id(k)].uids@ == uids {
                Ok(())
            } else {
                Err(TrackerError::ConflictingAttributes)
            }
        } else if !self.has_node(from_key) || !self.has_node(to_key) {
            Err(TrackerError::MissingNode)
        } else {
            Ok(())
        }
    }

    /// Adds an edge from the node of `from_key` to the node of `to_key` with
    /// the members `uids`, under the next id, and records its key at both nodes.
    ///
    /// Where the store has that edge already, nothing changes: the call
    /// succeeds if the edge has exactly the members `uids`, and is refused with
    /// `ConflictingAttributes` if it has not. Where one of the two keys has no
    /// node, the call is refused with `MissingNode`.
    pub fn add_edge(&mut self, from_key: &NodeKey, to_key: &NodeKey, uids: StrSet) -> (r:
        Result<(), TrackerError>)
        requires
            old(self).wf(),
        ensures
            final(self).wf(),
            r == old(self).add_edge_outcome(from_key@, to_key@, uids@),
            r is Err || old(self).has_edge(
                EdgeKeyView { from_node: from_key@, to_node: to_key@ },
            ) ==> *final(self) == *old(self),
            r is Ok && !old(self).has_edge(
                EdgeKeyView { from_node: from_key@, to_node: to_key@ },
            ) ==> {
                let k = EdgeKeyView { from_node: from_key@, to_node: to_key@ };
                let from_id = old(self).node_id(from_key@);
                let to_id = old(self).node_id(to_key@);
                &&& final(self).edges@ == old(self).edges@.push(
                    Edge {
                        id: old(self).edges.len(),
                        from_node: from_id as usize,
                        to_node: to_id as usize,
                        uids,
                    },
                )
                &&& final(self).edge_key_to_id@ == old(self).edge_key_to_id@.insert(
                    k,
                    old(self).edges.len(),
                )
                &&& final(self).node_key_to_id == old(self).node_key_to_id
                &&& final(self).nodes.len() == old(self).nodes.len()
                &&& forall|i: int|
                    0 <= i < old(self).nodes.len() ==> {
                        let n = #[trigger] final(self).nodes[i];
                        let o = old(self).nodes[i];
                        &&& n.id == o.id
                        &&& n.key == o.key
                        &&& n.uids == o.uids
                        &&& n.edge_ids_out@ == if i == from_id {
                            o.edge_ids_out@.insert(k)
                        } else {
                            o.edge_ids_out@
                        }
                        &&& n.edge_ids_in@ == if i == to_id {
                            o.edge_ids_in@.insert(k)
                        } else {
                            o.edge_ids_in@
                        }
                        &&& i != from_id && i != to_id ==> n == o
                    }
            },
    {
        let edge_key = EdgeKey::new(from_key, to_key);
        let ghost k = edge_key@;
        let existing = self.get_edge(&edge_key);
        if existing.is_some() {
            if existing.unwrap().uids.equals(&uids) {
                return Ok(());
            } else {
                return Err(TrackerError::ConflictingAttributes);
            }
        }
        let from_node = self.get_node(from_key);
        let to_node = self.get_node(to_key);
        if from_node.is_none() || to_node.is_none() {
            return Err(TrackerError::MissingNode);
        }
        let from_id = from_node.unwrap().id;
        let to_id = to_node.unwrap().id;
        let edge_id = self.edges.len();
        self.edges.push(Edge::new(edge_id, from_id, to_id, uids));
        self.edge_key_to_id.insert(edge_key.clone(), edge_id);
        let ghost mid = *self;
        proof {
            assert(mid.nodes_indexed()) by {
                assert forall|k2: NodeKeyView| #[trigger] mid.has_node(k2) implies {
                    &&& 0 <= mid.node_id(k2) < mid.nodes.len()
                    &&& mid.nodes[mid.node_id(k2)].key@ == k2
                } by {
                    assert(old(self).has_node(k2));
                }
            }
        }
        let from_node = self.get_node_mut(from_key);
        from_node.add_edge_out(&edge_key);
        let ghost mid2 = *self;
        proof {
            assert(mid2.nodes_indexed()) by {
                assert forall|k2: NodeKeyView| #[trigger] mid2.has_node(k2) implies {
                    &&& 0 <= mid2.node_id(k2) < mid2.nodes.len()
                    &&& mid2.nodes[mid2.node_id(k2)].key@ == k2
                } by {
                    assert(mid.has_node(k2));
                }
            }
        }
        let to_node = self.get_node_mut(to_key);
        to_node.add_edge_in(&edge_key);
        proof {
            let before = *old(self);
            let after = *self;
            assert(from_id == before.node_id(from_key@));
            assert(to_id == before.node_id(to_key@));
            assert forall|k2: NodeKeyView| #[trigger] after.has_node(k2) implies {
                &&& 0 <= after.node_id(k2) < after.nodes.len()
                &&& after.nodes[after.node_id(k2)].key@ == k2
            } by {
                assert(before.has_node(k2));
            }
            assert forall|k2: EdgeKeyView| #[trigger] after.has_edge(k2) implies {
                &&& 0 <= after.edge_id(k2) < after.edges.len()
                &&& after.edge_key_of(after.edge_id(k2)) == k2
            } by {
                if k2 != k {
                    assert(before.has_edge(k2));
                }
            }
        }
        Ok(())
    }
}

} // verus!
