//! From the graph of a tracker to its flow diagram.

use crate::collections::{ListSet, StrMap, StrSet};
use std::collections::HashSet;
use crate::edge::EdgeKey;
use crate::model::{SankeyD3, SankeyD3View, SankeyLink, SankeyLinkView, SankeyNode, SankeyNodeView};
use crate::node::NodeKey;
use crate::vtracker::VTracker;
use vstd::prelude::*;

verus! {

/// Whether each number of `s` is less than the next.
pub open spec fn ascending(s: Seq<usize>) -> bool {
    forall|i: int, j: int| 0 <= i < j < s.len() ==> s[i] < s[j]
}

/// Whether `s` lists the numbers of `set`, each once, in ascending order.
pub open spec fn lists(s: Seq<usize>, set: Set<usize>) -> bool {
    ascending(s) && s.to_set() == set
}

/// The ids to highlight for a node or edge with the given members: all ids
/// on the path of at least one member.
pub open spec fn highlight(
    members: Set<Seq<char>>,
    paths: Map<Seq<char>, HashSet<usize>>,
) -> Set<usize> {
    Set::new(
        |id: usize| exists|u: Seq<char>| members.contains(u) && #[trigger] paths[u]@.contains(id),
    )
}

/// The ids on the path of at least one of the first `n` of `members`.
pub open spec fn highlight_upto(
    members: Seq<Seq<char>>,
    paths: Map<Seq<char>, HashSet<usize>>,
    n: int,
) -> Set<usize> {
    Set::new(
        |id: usize| exists|j: int| 0 <= j < n && #[trigger] paths[members[j]]@.contains(id),
    )
}

/// Two ascending lists of the same numbers are the same list.
pub proof fn lemma_ascending_unique(a: Seq<usize>, b: Seq<usize>)
    requires
        ascending(a),
        ascending(b),
        a.to_set() == b.to_set(),
    ensures
        a == b,
    decreases a.len(),
{
    if a.len() == 0 {
        if b.len() > 0 {
            assert(a.to_set().contains(b[0]));
        }
    } else if b.len() == 0 {
        assert(b.to_set().contains(a[0]));
    } else {
        let x = a.last();
        let y = b.last();
        assert(b.to_set().contains(x));
        assert(a.to_set().contains(y));
        let a0 = a.drop_last();
        let b0 = b.drop_last();
        assert(a0.to_set() =~= b0.to_set()) by {
            assert forall|v: usize| a0.to_set().contains(v) <==> b0.to_set().contains(v) by {
                if a0.contains(v) {
                    assert(b.to_set().contains(v));
                    let n = choose|n: int| 0 <= n < b.len() && b[n] == v;
                    assert(b0[n] == v);
                }
                if b0.contains(v) {
                    assert(a.to_set().contains(v));
                    let n = choose|n: int| 0 <= n < a.len() && a[n] == v;
                    assert(a0[n] == v);
                }
            }
        }
        lemma_ascending_unique(a0, b0);
        assert(b =~= b0.push(y));
    }
}

/// Puts `x` at its place in the ascending list `v`, unless it is there.
fn insert_sorted(v: &mut Vec<usize>, x: usize)
    requires
        ascending(old(v)@),
    ensures
        ascending(final(v)@),
        final(v)@.to_set() == old(v)@.to_set().insert(x),
{
    let mut lo: usize = 0;
    let mut hi: usize = v.len();
    while lo < hi
        invariant
            lo <= hi <= v.len(),
            v@ == old(v)@,
            ascending(v@),
            forall|i: int| 0 <= i < lo ==> v[i] < x,
            forall|i: int| hi <= i < v.len() ==> v[i] >= x,
        decreases hi - lo,
    {
        let mid = lo + (hi - lo) / 2;
        if v[mid] < x {
            lo = mid + 1;
        } else {
            hi = mid;
        }
    }
    if lo < v.len() && v[lo] == x {
        return ;
    }
    let ghost before = v@;
    v.insert(lo, x);
    proof {
        let after = v@;
        assert forall|y: usize| after.to_set().contains(y) <==> before.to_set().insert(x).contains(
            y,
        ) by {
            if before.contains(y) {
                let i = choose|i: int| 0 <= i < before.len() && before[i] == y;
                if i < lo {
                    assert(after[i] == y);
                } else {
                    assert(after[i + 1] == y);
                }
            }
            if y == x {
                assert(after[lo as int] == y);
            }
        }
    }
}

/// The ids to highlight for the given members, in ascending order.
fn highlight_ids(members: &StrSet, paths: &StrMap<HashSet<usize>>) -> (r: Vec<
    usize,
>)
    requires
        forall|u: Seq<char>| members@.contains(u) ==> paths@.contains_key(u),
    ensures
        lists(r@, highlight(members@, paths@)),
{
    let mut out: Vec<usize> = Vec::new();
    let count = members.len();
    let mut i: usize = 0;
    while i < count
        invariant
            i <= count,
            count == members.seq().len(),
            forall|u: Seq<char>| members@.contains(u) ==> paths@.contains_key(u),
            ascending(out@),
            out@.to_set() == highlight_upto(members.seq(), paths@, i as int),
        decreases count - i,
    {
        let member = members.get(i);
        let ids = paths.get(member.as_str()).unwrap();
        let ghost base = out@.to_set();
        for id in it: ids.iter()
            invariant
                ascending(out@),
                it.seq().unref().to_set() == ids@,
                out@.to_set() == base.union(it.seq().unref().take(it.index()).to_set()),
                it.index() == it.seq().len() ==> out@.to_set() == base.union(ids@),
        {
            insert_sorted(&mut out, *id);
            proof {
                let all = it.seq().unref();
                let done = all.take(it.index());
                assert(all.take(it.index() + 1) =~= done.push(*id));
                done.lemma_push_to_set_commute(*id);
                assert(all.take(all.len() as int) =~= all);
            }
        }
        i += 1;
    }
    proof {
        assert(out@.to_set() =~= highlight(members@, paths@));
    }
    out
}

impl VTracker {
    /// The ids of the nodes that the entity `uid` went through.
    pub open spec fn node_ids_of(&self, uid: Seq<char>) -> Set<usize> {
        Set::new(
            |id: usize|
                id < self.graph.nodes.len() && self.visited_nodes(uid).contains(
                    self.graph.nodes[id as int].key@,
                ),
        )
    }

    /// The ids of the edges that the entity `uid` took.
    pub open spec fn edge_ids_of(&self, uid: Seq<char>) -> Set<usize> {
        Set::new(
            |id: usize|
                id < self.graph.edges.len() && self.visited_edges(uid).contains(
                    self.graph.edge_key_of(id as int),
                ),
        )
    }

    /// Whether `paths` gives for every entity the ids of the nodes that it
    /// went through, and has no other entry.
    pub open spec fn is_node_paths(&self, paths: Map<Seq<char>, HashSet<usize>>) -> bool {
        &&& paths.dom() == self.uid_to_node@.dom()
        &&& forall|u: Seq<char>| #[trigger] paths.contains_key(u) ==> paths[u]@ == self.node_ids_of(u)
    }

    /// Whether `paths` gives for every entity the ids of the edges that it
    /// took, and has no other entry.
    pub open spec fn is_edge_paths(&self, paths: Map<Seq<char>, HashSet<usize>>) -> bool {
        &&& paths.dom() == self.uid_to_node@.dom()
        &&& forall|u: Seq<char>| #[trigger] paths.contains_key(u) ==> paths[u]@ == self.edge_ids_of(u)
    }

    /// The ids of the nodes with the given keys.
    fn node_ids(&self, uid: &String, keys: &ListSet<NodeKey>) -> (r: HashSet<usize>)
        requires
            self.wf(),
            self.knows(uid@),
            keys@ == self.visited_nodes(uid@),
        ensures
            r@ == self.node_ids_of(uid@),
    {
        let mut ids: HashSet<usize> = HashSet::new();
        let count = keys.len();
        let mut i: usize = 0;
        while i < count
            invariant
                i <= count,
                count == keys.seq().len(),
                self.wf(),
                self.knows(uid@),
                keys@ == self.visited_nodes(uid@),
                forall|id: usize|
                    ids@.contains(id) <==> exists|j: int|
                        0 <= j < i && self.graph.node_id(#[trigger] keys.seq()[j]) == id,
            decreases count - i,
        {
            let key = keys.get(i);
            let node = self.graph.get_node(key).unwrap();
            ids.insert(node.id);
            i += 1;
        }
        proof {
            assert forall|id: usize| ids@.contains(id) <==> self.node_ids_of(uid@).contains(id) by {
                if ids@.contains(id) {
                    let j = choose|j: int|
                        0 <= j < count && self.graph.node_id(#[trigger] keys.seq()[j]) == id;
                    let k = keys.seq()[j];
                    assert(self.visited_nodes(uid@).contains(k));
                }
            }
        }
        ids
    }

    /// The ids of the edges with the given keys.
    fn edge_ids(&self, uid: &String, keys: &ListSet<EdgeKey>) -> (r: HashSet<usize>)
        requires
            self.wf(),
            self.knows(uid@),
            keys@ == self.visited_edges(uid@),
        ensures
            r@ == self.edge_ids_of(uid@),
    {
        let mut ids: HashSet<usize> = HashSet::new();
        let count = keys.len();
        let mut i: usize = 0;
        while i < count
            invariant
                i <= count,
                count == keys.seq().len(),
                self.wf(),
                self.knows(uid@),
                keys@ == self.visited_edges(uid@),
                forall|id: usize|
                    ids@.contains(id) <==> exists|j: int|
                        0 <= j < i && self.graph.edge_id(#[trigger] keys.seq()[j]) == id,
            decreases count - i,
        {
            let key = keys.get(i);
            let edge = self.graph.get_edge(key).unwrap();
            ids.insert(edge.id);
            i += 1;
        }
        proof {
            assert forall|id: usize| ids@.contains(id) <==> self.edge_ids_of(uid@).contains(id) by {
                if ids@.contains(id) {
                    let j = choose|j: int|
                        0 <= j < count && self.graph.edge_id(#[trigger] keys.seq()[j]) == id;
                    let k = keys.seq()[j];
                    assert(self.visited_edges(uid@).contains(k));
                }
            }
        }
        ids
    }

    /// For every entity, the ids of the nodes that it went through and the
    /// ids of the edges that it took.
    pub fn build_uid_paths(&self) -> (r: (
        StrMap<HashSet<usize>>,
        StrMap<HashSet<usize>>,
    ))
        requires
            self.wf(),
        ensures
            self.is_node_paths(r.0@),
            self.is_edge_paths(r.1@),
    {
        let mut nodes: StrMap<HashSet<usize>> = StrMap::new();
        let mut edges: StrMap<HashSet<usize>> = StrMap::new();
        let count = self.uid_to_node.len();
        let ghost uids = self.uid_to_node.keys();
        let mut i: usize = 0;
        while i < count
            invariant
                i <= count,
                count == uids.len(),
                uids == self.uid_to_node.keys(),
                self.uid_to_node@.dom() == uids.to_set(),
                self.wf(),
                nodes@.dom() == uids.take(i as int).to_set(),
                edges@.dom() == uids.take(i as int).to_set(),
                forall|u: Seq<char>| #[trigger]
                    nodes@.contains_key(u) ==> nodes@[u]@ == self.node_ids_of(u),
                forall|u: Seq<char>| #[trigger]
                    edges@.contains_key(u) ==> edges@[u]@ == self.edge_ids_of(u),
            decreases count - i,
        {
            let uid = self.uid_to_node.key_at(i);
            let node_keys = self.uid_to_node.value_at(i);
            let edge_keys = self.uid_to_edge.get(uid.as_str()).unwrap();
            let node_ids = self.node_ids(uid, node_keys);
            let edge_ids = self.edge_ids(uid, edge_keys);
            nodes.insert(uid.clone(), node_ids);
            edges.insert(uid.clone(), edge_ids);
            proof {
                assert(uids.take(i + 1) =~= uids.take(i as int).push(uid@));
                uids.take(i as int).lemma_push_to_set_commute(uid@);
            }
            i += 1;
        }
        proof {
            assert(uids.take(count as int) =~= uids);
        }
        (nodes, edges)
    }

    /// Whether `paths` has an entry for every entity of the tracker.
    pub open spec fn covers_entities(&self, paths: Map<Seq<char>, HashSet<usize>>) -> bool {
        forall|u: Seq<char>| #[trigger] self.knows(u) ==> paths.contains_key(u)
    }

    /// Whether `n` is the diagram node for the node with id `i`, with the
    /// highlights taken from the given paths of the entities.
    pub open spec fn is_sankey_node(
        &self,
        i: int,
        n: SankeyNodeView,
        node_paths: Map<Seq<char>, HashSet<usize>>,
        edge_paths: Map<Seq<char>, HashSet<usize>>,
    ) -> bool {
        let node = self.graph.nodes[i];
        &&& n.col == node.key.version@
        &&& n.id == i
        &&& n.name == node.key.state@
        &&& n.total == node.uids@.len()
        &&& lists(n.node_highlight_id, highlight(node.uids@, node_paths))
        &&& lists(n.link_highlight_id, highlight(node.uids@, edge_paths))
    }

    /// Whether `l` is the diagram link for the edge with id `e`, with the
    /// highlights taken from the given paths of the entities.
    pub open spec fn is_sankey_link(
        &self,
        e: int,
        l: SankeyLinkView,
        node_paths: Map<Seq<char>, HashSet<usize>>,
        edge_paths: Map<Seq<char>, HashSet<usize>>,
    ) -> bool {
        let edge = self.graph.edges[e];
        &&& l.id == e
        &&& l.source == edge.from_node
        &&& l.target == edge.to_node
        &&& l.value == edge.uids@.len()
        &&& lists(l.node_highlight_id, highlight(edge.uids@, node_paths))
        &&& lists(l.link_highlight_id, highlight(edge.uids@, edge_paths))
    }

    /// The nodes of the flow diagram, in ascending order of id. Each is
    /// highlighted with the nodes and edges on the paths of its members, the
    /// paths as the two maps give them.
    pub fn get_sankey_nodes(
        &self,
        uid_travel_node_id: &StrMap<HashSet<usize>>,
        uid_travel_edge_id: &StrMap<HashSet<usize>>,
    ) -> (r: Vec<SankeyNode>)
        requires
            self.wf(),
            self.covers_entities(uid_travel_node_id@),
            self.covers_entities(uid_travel_edge_id@),
        ensures
            r@.len() == self.graph.nodes.len(),
            forall|i: int|
                0 <= i < r@.len() ==> self.is_sankey_node(
                    i,
                    (#[trigger] r@[i])@,
                    uid_travel_node_id@,
                    uid_travel_edge_id@,
                ),
    {
        let mut out_nodes: Vec<SankeyNode> = Vec::new();
        let count = self.graph.nodes.len();
        let mut i: usize = 0;
        while i < count
            invariant
                i <= count,
                count == self.graph.nodes.len(),
                self.wf(),
                self.covers_entities(uid_travel_node_id@),
                self.covers_entities(uid_travel_edge_id@),
                out_nodes@.len() == i,
                forall|j: int|
                    0 <= j < i ==> self.is_sankey_node(
                        j,
                        (#[trigger] out_nodes@[j])@,
                        uid_travel_node_id@,
                        uid_travel_edge_id@,
                    ),
            decreases count - i,
        {
            let node = &self.graph.nodes[i];
            let node_highlight_id = highlight_ids(&node.uids, uid_travel_node_id);
            let link_highlight_id = highlight_ids(&node.uids, uid_travel_edge_id);
            out_nodes.push(
                SankeyNode {
                    col: node.key.version.clone(),
                    id: node.id,
                    link_highlight_id,
                    name: node.key.state.clone(),
                    node_highlight_id,
                    total: node.uids.len(),
                },
            );
            i += 1;
        }
        out_nodes
    }

    /// The links of the flow diagram, in ascending order of id. Each is
    /// highlighted with the nodes and edges on the paths of its members, the
    /// paths as the two maps give them.
    pub fn get_sankey_edges(
        &self,
        uid_travel_node_id: &StrMap<HashSet<usize>>,
        uid_travel_edge_id: &StrMap<HashSet<usize>>,
    ) -> (r: Vec<SankeyLink>)
        requires
            self.wf(),
            self.covers_entities(uid_travel_node_id@),
            self.covers_entities(uid_travel_edge_id@),
        ensures
            r@.len() == self.graph.edges.len(),
            forall|e: int|
                0 <= e < r@.len() ==> self.is_sankey_link(
                    e,
                    (#[trigger] r@[e])@,
                    uid_travel_node_id@,
                    uid_travel_edge_id@,
                ),
    {
        let mut out: Vec<SankeyLink> = Vec::new();
        let count = self.graph.edges.len();
        let mut i: usize = 0;
        while i < count
            invariant
                i <= count,
                count == self.graph.edges.len(),
                self.wf(),
                self.covers_entities(uid_travel_node_id@),
                self.covers_entities(uid_travel_edge_id@),
                out@.len() == i,
                forall|j: int|
                    0 <= j < i ==> self.is_sankey_link(
                        j,
                        (#[trigger] out@[j])@,
                        uid_travel_node_id@,
                        uid_travel_edge_id@,
                    ),
            decreases count - i,
        {
            let edge = &self.graph.edges[i];
            let node_highlight_id = highlight_ids(&edge.uids, uid_travel_node_id);
            let link_highlight_id = highlight_ids(&edge.uids, uid_travel_edge_id);
            out.push(
                SankeyLink {
                    id: edge.id,
                    link_highlight_id,
                    node_highlight_id,
                    source: edge.from_node,
                    target: edge.to_node,
                    value: edge.uids.len(),
                },
            );
            i += 1;
        }
        out
    }

    /// The ids of the nodes to highlight for the given members: the nodes
    /// that at least one of them went through.
    pub open spec fn node_highlight(&self, members: Set<Seq<char>>) -> Set<usize> {
        Set::new(
            |id: usize|
                exists|u: Seq<char>| members.contains(u) && #[trigger] self.node_ids_of(u).contains(id),
        )
    }

    /// The ids of the edges to highlight for the given members: the edges
    /// that at least one of them took.
    pub open spec fn link_highlight(&self, members: Set<Seq<char>>) -> Set<usize> {
        Set::new(
            |id: usize|
                exists|u: Seq<char>| members.contains(u) && #[trigger] self.edge_ids_of(u).contains(id),
        )
    }

    /// Whether `n` is the node of the flow diagram for the node with id `i`.
    pub open spec fn is_diagram_node(&self, i: int, n: SankeyNodeView) -> bool {
        let node = self.graph.nodes[i];
        &&& n.col == node.key.version@
        &&& n.id == i
        &&& n.name == node.key.state@
        &&& n.total == node.uids@.len()
        &&& lists(n.node_highlight_id, self.node_highlight(node.uids@))
        &&& lists(n.link_highlight_id, self.link_highlight(node.uids@))
    }

    /// Whether `l` is the link of the flow diagram for the edge with id `e`.
    pub open spec fn is_diagram_link(&self, e: int, l: SankeyLinkView) -> bool {
        let edge = self.graph.edges[e];
        &&& l.id == e
        &&& l.source == edge.from_node
        &&& l.target == edge.to_node
        &&& l.value == edge.uids@.len()
        &&& lists(l.node_highlight_id, self.node_highlight(edge.uids@))
        &&& lists(l.link_highlight_id, self.link_highlight(edge.uids@))
    }

    /// Whether `d` is the flow diagram of the tracker: one node for each node
    /// of the graph and one link for each edge, in the order of their ids,
    /// each with the number of its members and with the ids to highlight in
    /// ascending order.
    pub open spec fn is_flow_diagram(&self, d: SankeyD3View) -> bool {
        &&& d.nodes.len() == self.graph.nodes.len()
        &&& forall|i: int| 0 <= i < d.nodes.len() ==> self.is_diagram_node(i, #[trigger] d.nodes[i])
        &&& d.links.len() == self.graph.edges.len()
        &&& forall|e: int| 0 <= e < d.links.len() ==> self.is_diagram_link(e, #[trigger] d.links[e])
    }

    /// With the paths of all entities, the highlights taken from the paths
    /// are the highlights of the tracker.
    proof fn lemma_highlight_of_paths(
        &self,
        members: Set<Seq<char>>,
        node_paths: Map<Seq<char>, HashSet<usize>>,
        edge_paths: Map<Seq<char>, HashSet<usize>>,
    )
        requires
            self.is_node_paths(node_paths),
            self.is_edge_paths(edge_paths),
            forall|u: Seq<char>| members.contains(u) ==> self.knows(u),
        ensures
            highlight(members, node_paths) == self.node_highlight(members),
            highlight(members, edge_paths) == self.link_highlight(members),
    {
    }

    /// The flow diagram of the tracker.
    pub fn as_sankey_json(&self) -> (r: SankeyD3)
        requires
            self.wf(),
        ensures
            self.is_flow_diagram(r@),
    {
        let (uid_travel_node_id, uid_travel_edge_id) = self.build_uid_paths();
        let out_nodes = self.get_sankey_nodes(&uid_travel_node_id, &uid_travel_edge_id);
        let out_edges = self.get_sankey_edges(&uid_travel_node_id, &uid_travel_edge_id);
        let out = SankeyD3 { nodes: out_nodes, links: out_edges };
        proof {
            let d = out@;
            assert forall|i: int| 0 <= i < d.nodes.len() implies self.is_diagram_node(
                i,
                #[trigger] d.nodes[i],
            ) by {
                self.lemma_highlight_of_paths(
                    self.graph.nodes[i].uids@,
                    uid_travel_node_id@,
                    uid_travel_edge_id@,
                );
            }
            assert forall|e: int| 0 <= e < d.links.len() implies self.is_diagram_link(
                e,
                #[trigger] d.links[e],
            ) by {
                self.lemma_highlight_of_paths(
                    self.graph.edges[e].uids@,
                    uid_travel_node_id@,
                    uid_travel_edge_id@,
                );
            }
        }
        out
    }
}

} // verus!
