//! What holds of every tracker, of every entity in it and of its flow
//! diagram.

use crate::edge::EdgeKeyView;
use crate::error::TrackerError;
use crate::model::SankeyD3View;
use crate::node::NodeKeyView;
use crate::path::{edge_path, fresh_keys, node_path};
use crate::sankey::lemma_ascending_unique;
use crate::vtracker::{lemma_version_index_dom, version_index, VTracker};
use std::collections::HashSet;
use vstd::prelude::*;

verus! {

/// With versions that are all different, an entity goes through as many
/// different nodes as there are versions, and takes one edge less, however
/// many of the versions it has a state for.
pub proof fn lemma_path_lengths(
    versions: Seq<Seq<char>>,
    states: Map<Seq<char>, String>,
    na: Seq<char>,
)
    requires
        versions.no_duplicates(),
    ensures
        node_path(versions, states, na).no_duplicates(),
        edge_path(versions, states, na).no_duplicates(),
        node_path(versions, states, na).to_set().len() == versions.len(),
        versions.len() > 0 ==> edge_path(versions, states, na).to_set().len() == versions.len() - 1,
        versions.len() == 0 ==> edge_path(versions, states, na).to_set().len() == 0,
{
    let nodes = node_path(versions, states, na);
    let edges = edge_path(versions, states, na);
    nodes.unique_seq_to_set();
    edges.unique_seq_to_set();
}

/// With versions that are all different, and no more of them than a `usize`
/// can count, the index of the versions gives each of them its position.
pub proof fn lemma_version_index_positions(versions: Seq<Seq<char>>)
    requires
        versions.no_duplicates(),
        versions.len() <= usize::MAX,
    ensures
        version_index(versions).len() == versions.len(),
        forall|i: int|
            0 <= i < versions.len() ==> version_index(versions).contains_key(#[trigger] versions[i])
                && version_index(versions)[versions[i]] == i,
    decreases versions.len(),
{
    if versions.len() > 0 {
        let front = versions.drop_last();
        lemma_version_index_positions(front);
        lemma_version_index_dom(front);
        assert forall|i: int| 0 <= i < versions.len() implies version_index(versions).contains_key(
            #[trigger] versions[i],
        ) && version_index(versions)[versions[i]] == i by {
            if i < front.len() {
                assert(front[i] == versions[i]);
            }
        }
    }
}

impl VTracker {
    /// The keys of the nodes that at least one entity went through.
    pub open spec fn observed_nodes(&self) -> Set<NodeKeyView> {
        Set::new(
            |k: NodeKeyView|
                exists|u: Seq<char>| self.knows(u) && #[trigger] self.visited_nodes(u).contains(k),
        )
    }

    /// The keys of the edges that at least one entity took.
    pub open spec fn observed_edges(&self) -> Set<EdgeKeyView> {
        Set::new(
            |k: EdgeKeyView|
                exists|u: Seq<char>| self.knows(u) && #[trigger] self.visited_edges(u).contains(k),
        )
    }

    /// The graph of a tracker has one node for each pair of version and state
    /// that an entity went through and one edge for each step that an entity
    /// took, however many entities share them.
    pub proof fn lemma_graph_size(&self)
        requires
            self.wf(),
        ensures
            self.graph.node_keys().to_set() == self.observed_nodes(),
            self.graph.edge_keys().to_set() == self.observed_edges(),
            self.graph.nodes.len() == self.observed_nodes().len(),
            self.graph.edges.len() == self.observed_edges().len(),
    {
        let g = self.graph;
        g.lemma_keys_distinct();
        g.node_keys().unique_seq_to_set();
        g.edge_keys().unique_seq_to_set();
    }

    /// In a tracker whose versions are all different, every entity is a member
    /// of exactly as many nodes as there are versions, and of one edge less:
    /// it has one state in each version, be it the state for absence.
    pub proof fn lemma_entity_counts(&self, uid: Seq<char>)
        requires
            self.wf(),
            self.knows(uid),
            self.versions().no_duplicates(),
        ensures
            self.visited_nodes(uid).len() == self.versions().len(),
            self.visited_edges(uid).len() == if self.versions().len() == 0 {
                0
            } else {
                self.versions().len() - 1
            },
            self.node_ids_of(uid).len() == self.versions().len(),
            self.edge_ids_of(uid).len() == self.visited_edges(uid).len(),
    {
        let states = choose|states: Map<Seq<char>, String>| self.walked(uid, states);
        lemma_path_lengths(self.versions(), states, self.str_na@);
        self.lemma_path_ids(uid);
    }

    /// An entity is a member of exactly the nodes that it went through and of
    /// exactly the edges that it took, and these are as many as their keys.
    pub proof fn lemma_path_ids(&self, uid: Seq<char>)
        requires
            self.wf(),
            self.knows(uid),
        ensures
            self.node_ids_of(uid) == Set::new(
                |id: usize| id < self.graph.nodes.len() && self.graph.nodes[id as int].uids@.contains(uid),
            ),
            self.edge_ids_of(uid) == Set::new(
                |id: usize| id < self.graph.edges.len() && self.graph.edges[id as int].uids@.contains(uid),
            ),
            self.visited_nodes(uid).finite(),
            self.visited_edges(uid).finite(),
            self.node_ids_of(uid).len() == self.visited_nodes(uid).len(),
            self.edge_ids_of(uid).len() == self.visited_edges(uid).len(),
    {
        let g = self.graph;
        let nodes = self.visited_nodes(uid);
        let edges = self.visited_edges(uid);
        let node_id = |k: NodeKeyView| g.node_id(k) as usize;
        let edge_id = |k: EdgeKeyView| g.edge_id(k) as usize;
        assert(nodes.map(node_id) =~= self.node_ids_of(uid));
        assert(edges.map(edge_id) =~= self.edge_ids_of(uid));
        vstd::set_lib::lemma_map_size(nodes, self.node_ids_of(uid), node_id);
        vstd::set_lib::lemma_map_size(edges, self.edge_ids_of(uid), edge_id);
    }

    /// Adding an entity takes nothing away: every node and every edge keeps
    /// its id, its key and its ends, and loses no member.
    pub proof fn lemma_add_keeps(
        &self,
        before: &VTracker,
        uid: Seq<char>,
        states: Map<Seq<char>, String>,
    )
        requires
            before.wf(),
            self.graph.wf(),
            self.added(before, uid, states),
        ensures
            before.graph.nodes.len() <= self.graph.nodes.len(),
            before.graph.edges.len() <= self.graph.edges.len(),
            forall|i: int|
                0 <= i < before.graph.nodes.len() ==> {
                    &&& (#[trigger] self.graph.nodes[i]).id == before.graph.nodes[i].id
                    &&& self.graph.nodes[i].key@ == before.graph.nodes[i].key@
                    &&& before.graph.nodes[i].uids@.subset_of(self.graph.nodes[i].uids@)
                },
            forall|e: int|
                0 <= e < before.graph.edges.len() ==> {
                    &&& (#[trigger] self.graph.edges[e]).id == before.graph.edges[e].id
                    &&& self.graph.edges[e].from_node == before.graph.edges[e].from_node
                    &&& self.graph.edges[e].to_node == before.graph.edges[e].to_node
                    &&& before.graph.edges[e].uids@.subset_of(self.graph.edges[e].uids@)
                },
    {
        let g0 = before.graph;
        let g = self.graph;
        let nodes = node_path(before.versions(), states, before.str_na@);
        let edges = edge_path(before.versions(), states, before.str_na@);
        assert(g.node_keys().len() == g0.node_keys().len() + fresh_keys(
            g0.node_keys().to_set(),
            nodes,
        ).len());
        assert(g.edge_keys().len() == g0.edge_keys().len() + fresh_keys(
            g0.edge_keys().to_set(),
            edges,
        ).len());
        assert forall|i: int| 0 <= i < g0.nodes.len() implies {
            &&& (#[trigger] g.nodes[i]).id == g0.nodes[i].id
            &&& g.nodes[i].key@ == g0.nodes[i].key@
            &&& g0.nodes[i].uids@.subset_of(g.nodes[i].uids@)
        } by {
            assert(g.node_keys()[i] == g0.node_keys()[i]);
        }
        assert forall|e: int| 0 <= e < g0.edges.len() implies {
            &&& (#[trigger] g.edges[e]).id == g0.edges[e].id
            &&& g.edges[e].from_node == g0.edges[e].from_node
            &&& g.edges[e].to_node == g0.edges[e].to_node
            &&& g0.edges[e].uids@.subset_of(g.edges[e].uids@)
        } by {
            assert(g.edge_keys()[e] == g0.edge_keys()[e]);
            let f0 = g0.edges[e].from_node as int;
            let t0 = g0.edges[e].to_node as int;
            let f = g.edges[e].from_node as int;
            let t = g.edges[e].to_node as int;
            assert(g.node_id(g.nodes[f0].key@) == f0 && g.node_id(g.nodes[f].key@) == f);
            assert(g.node_id(g.nodes[t0].key@) == t0 && g.node_id(g.nodes[t].key@) == t);
        }
    }

    /// The paths of the entities are given by the tracker: two maps of them
    /// have the same entities and for each the same ids.
    pub proof fn lemma_paths_unique(
        &self,
        a: Map<Seq<char>, HashSet<usize>>,
        b: Map<Seq<char>, HashSet<usize>>,
    )
        requires
            self.is_node_paths(a) && self.is_node_paths(b) || self.is_edge_paths(a)
                && self.is_edge_paths(b),
        ensures
            a.dom() == b.dom(),
            forall|u: Seq<char>| a.contains_key(u) ==> a[u]@ == b[u]@,
    {
    }

    /// An entity that has been added is refused when it comes again, whatever
    /// states it comes with, as long as they are for versions of the tracker.
    pub proof fn lemma_second_add_refused(&self, uid: Seq<char>, states: Map<Seq<char>, String>)
        requires
            self.knows(uid),
            forall|v: Seq<char>| states.contains_key(v) ==> self.versions().contains(v),
        ensures
            self.add_outcome(uid, states) == Err::<(), TrackerError>(TrackerError::DuplicateEntity),
    {
    }

    /// An entity with a state for a version that the tracker was not built
    /// with is refused.
    pub proof fn lemma_unknown_version_refused(
        &self,
        uid: Seq<char>,
        states: Map<Seq<char>, String>,
        version: Seq<char>,
    )
        requires
            states.contains_key(version),
            !self.versions().contains(version),
        ensures
            self.add_outcome(uid, states) == Err::<(), TrackerError>(TrackerError::UnknownVersion),
    {
    }

    /// A node is among the nodes that are highlighted with it, and an edge
    /// among the edges that are highlighted with it.
    pub proof fn lemma_highlight_reflexive(&self, d: SankeyD3View)
        requires
            self.wf(),
            self.is_flow_diagram(d),
        ensures
            forall|i: int|
                0 <= i < self.graph.nodes.len() ==> self.node_highlight(
                    (#[trigger] self.graph.nodes[i]).uids@,
                ).contains(i as usize),
            forall|e: int|
                0 <= e < self.graph.edges.len() ==> self.link_highlight(
                    (#[trigger] self.graph.edges[e]).uids@,
                ).contains(e as usize),
            forall|i: int|
                0 <= i < d.nodes.len() ==> (#[trigger] d.nodes[i]).node_highlight_id.contains(d.nodes[i].id),
            forall|e: int|
                0 <= e < d.links.len() ==> (#[trigger] d.links[e]).link_highlight_id.contains(d.links[e].id),
    {
        let g = self.graph;
        assert forall|i: int| 0 <= i < g.nodes.len() implies self.node_highlight(
            (#[trigger] g.nodes[i]).uids@,
        ).contains(i as usize) by {
            let u = choose|u: Seq<char>| g.nodes[i].uids@.contains(u);
            assert(self.node_ids_of(u).contains(i as usize));
        }
        assert forall|e: int| 0 <= e < g.edges.len() implies self.link_highlight(
            (#[trigger] g.edges[e]).uids@,
        ).contains(e as usize) by {
            let u = choose|u: Seq<char>| g.edges[e].uids@.contains(u);
            assert(self.edge_ids_of(u).contains(e as usize));
        }
    }

    /// A tracker has one flow diagram: as long as no entity is added, two
    /// diagrams of it are the same in every part.
    pub proof fn lemma_flow_diagram_unique(&self, a: SankeyD3View, b: SankeyD3View)
        requires
            self.is_flow_diagram(a),
            self.is_flow_diagram(b),
        ensures
            a == b,
    {
        assert forall|i: int| 0 <= i < a.nodes.len() implies a.nodes[i] == b.nodes[i] by {
            lemma_ascending_unique(a.nodes[i].node_highlight_id, b.nodes[i].node_highlight_id);
            lemma_ascending_unique(a.nodes[i].link_highlight_id, b.nodes[i].link_highlight_id);
        }
        assert forall|e: int| 0 <= e < a.links.len() implies a.links[e] == b.links[e] by {
            lemma_ascending_unique(a.links[e].node_highlight_id, b.links[e].node_highlight_id);
            lemma_ascending_unique(a.links[e].link_highlight_id, b.links[e].link_highlight_id);
        }
        assert(a.nodes =~= b.nodes);
        assert(a.links =~= b.links);
    }
}

} // verus!
