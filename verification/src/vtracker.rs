//! The tracker, and how an entity is added to it.

use crate::collections::{texts, ListSet, StrMap, StrSet};
use crate::edge::{EdgeKey, EdgeKeyView};
use crate::error::TrackerError;
use crate::graph::Graph;
use crate::node::{NodeKey, NodeKeyView};
use crate::path::{
    edge_path, fresh_keys, joined, lemma_fresh_keys, lemma_fresh_keys_step, lemma_merge_step,
    node_key_at, node_path,
};
use vstd::prelude::*;

verus! {

/// Whether a set of entities has a member.
pub open spec fn inhabited(s: Set<Seq<char>>) -> bool {
    exists|u: Seq<char>| s.contains(u)
}

/// The index that a tracker keeps of its versions: each version is entered in
/// turn under the number of distinct versions entered before it.
pub open spec fn version_index(versions: Seq<Seq<char>>) -> Map<Seq<char>, usize>
    decreases versions.len(),
{
    if versions.len() == 0 {
        Map::empty()
    } else {
        let before = version_index(versions.drop_last());
        before.insert(versions.last(), before.len() as usize)
    }
}

/// Makes `uid` a member of the node for `key`, which is added if the graph
/// does not have it yet.
fn merge_node(graph: &mut Graph, key: NodeKey, uid: &str) -> (r: Result<(), TrackerError>)
    requires
        old(graph).wf(),
    ensures
        final(graph).wf(),
        r is Ok,
        final(graph).edges == old(graph).edges,
        final(graph).edge_key_to_id == old(graph).edge_key_to_id,
        final(graph).edge_keys() == old(graph).edge_keys(),
        final(graph).node_keys() == if old(graph).has_node(key@) {
            old(graph).node_keys()
        } else {
            old(graph).node_keys().push(key@)
        },
        forall|i: int|
            0 <= i < final(graph).nodes.len() ==> (#[trigger] final(graph).nodes[i]).uids@ == joined(
                old(graph).node_members(i),
                final(graph).nodes[i].key@ == key@,
                uid@,
            ),
{
    let ghost before = *graph;
    if graph.get_node(&key).is_none() {
        let mut uids: StrSet = StrSet::new();
        uids.insert(uid.to_string());
        graph.add_node(key, uids)
    } else {
        let node = graph.get_node_mut(&key);
        node.uids.insert(uid.to_string());
        proof {
            let after = *graph;
            before.lemma_same_shape_wf(&after);
        }
        Ok(())
    }
}

/// Makes `uid` a member of the edge from the node of `from_key` to the node
/// of `to_key`, which is added if the graph does not have it yet.
fn merge_edge(graph: &mut Graph, from_key: &NodeKey, to_key: &NodeKey, uid: &str) -> (r: Result<
    (),
    TrackerError,
>)
    requires
        old(graph).wf(),
        old(graph).has_node(from_key@),
        old(graph).has_node(to_key@),
    ensures
        final(graph).wf(),
        r is Ok,
        final(graph).node_key_to_id == old(graph).node_key_to_id,
        final(graph).node_keys() == old(graph).node_keys(),
        forall|i: int|
            0 <= i < old(graph).nodes.len() ==> (#[trigger] final(graph).nodes[i]).uids == old(
                graph,
            ).nodes[i].uids,
        final(graph).edge_keys() == if old(graph).has_edge(
            EdgeKeyView { from_node: from_key@, to_node: to_key@ },
        ) {
            old(graph).edge_keys()
        } else {
            old(graph).edge_keys().push(EdgeKeyView { from_node: from_key@, to_node: to_key@ })
        },
        forall|e: int|
            0 <= e < final(graph).edges.len() ==> (#[trigger] final(graph).edges[e]).uids@ == joined(
                old(graph).edge_members(e),
                final(graph).edge_key_of(e) == (EdgeKeyView {
                    from_node: from_key@,
                    to_node: to_key@,
                }),
                uid@,
            ),
{
    let ghost before = *graph;
    let edge_key = EdgeKey::new(from_key, to_key);
    if graph.get_edge(&edge_key).is_none() {
        let mut uids: StrSet = StrSet::new();
        uids.insert(uid.to_string());
        graph.add_edge(from_key, to_key, uids)
    } else {
        let edge = graph.get_edge_mut(&edge_key);
        edge.uids.insert(uid.to_string());
        proof {
            let after = *graph;
            before.lemma_same_shape_wf(&after);
        }
        Ok(())
    }
}

/// The index of a list of versions has an entry for each of them and for
/// nothing else.
pub proof fn lemma_version_index_dom(versions: Seq<Seq<char>>)
    ensures
        version_index(versions).dom() == versions.to_set(),
        version_index(versions).dom().finite(),
    decreases versions.len(),
{
    if versions.len() != 0 {
        let front = versions.drop_last();
        lemma_version_index_dom(front);
        assert(versions =~= front.push(versions.last()));
    }
}

/// The views of a list of node keys.
pub open spec fn node_key_views(keys: Seq<NodeKey>) -> Seq<NodeKeyView> {
    keys.map_values(|k: NodeKey| k@)
}

/// The views of a list of edge keys.
pub open spec fn edge_key_views(keys: Seq<EdgeKey>) -> Seq<EdgeKeyView> {
    keys.map_values(|k: EdgeKey| k@)
}

/// How the nodes of a graph stand after an entity `uid` with the node path
/// `path` has been merged into the graph `before`: the nodes of `before` keep
/// their ids, the keys of `path` that `before` does not have follow in the
/// order in which `path` first has them, and `uid` has become a member of
/// the nodes on `path`, and of no other.
pub open spec fn nodes_merged(
    before: &Graph,
    after: &Graph,
    path: Seq<NodeKeyView>,
    uid: Seq<char>,
) -> bool {
    &&& after.node_keys() == before.node_keys() + fresh_keys(before.node_keys().to_set(), path)
    &&& forall|i: int|
        0 <= i < after.nodes.len() ==> (#[trigger] after.nodes[i]).uids@ == joined(
            before.node_members(i),
            path.contains(after.nodes[i].key@),
            uid,
        )
}

/// How the edges of a graph stand after an entity `uid` with the edge path
/// `path` has been merged into the graph `before`: as `nodes_merged` says of
/// the nodes.
pub open spec fn edges_merged(
    before: &Graph,
    after: &Graph,
    path: Seq<EdgeKeyView>,
    uid: Seq<char>,
) -> bool {
    &&& after.edge_keys() == before.edge_keys() + fresh_keys(before.edge_keys().to_set(), path)
    &&& forall|e: int|
        0 <= e < after.edges.len() ==> (#[trigger] after.edges[e]).uids@ == joined(
            before.edge_members(e),
            path.contains(after.edge_key_of(e)),
            uid,
        )
}

/// Follows how entities move through a fixed list of versions: the graph of
/// the states they had and the steps they took, and for each entity the nodes
/// and edges it went through.
pub struct VTracker {
    pub ver_to_idx: StrMap<usize>,
    pub idx_to_ver: Vec<String>,
    pub graph: Graph,
    pub uid_to_node: StrMap<ListSet<NodeKey>>,
    pub uid_to_edge: StrMap<ListSet<EdgeKey>>,
    pub str_na: String,
}

impl VTracker {
    /// The versions, in their order.
    pub open spec fn versions(&self) -> Seq<Seq<char>> {
        texts(self.idx_to_ver@)
    }

    /// Whether the entity `uid` has been added.
    pub open spec fn knows(&self, uid: Seq<char>) -> bool {
        self.uid_to_node@.contains_key(uid)
    }

    /// The keys of the nodes that the entity `uid` went through.
    pub open spec fn visited_nodes(&self, uid: Seq<char>) -> Set<NodeKeyView> {
        self.uid_to_node@[uid]@
    }

    /// The keys of the edges that the entity `uid` went through.
    pub open spec fn visited_edges(&self, uid: Seq<char>) -> Set<EdgeKeyView> {
        self.uid_to_edge@[uid]@
    }

    /// The members of a node are the entities that went through it, every
    /// node that an entity went through is in the graph, and no node is
    /// without members.
    pub open spec fn node_members_recorded(&self) -> bool {
        &&& forall|i: int, u: Seq<char>|
            0 <= i < self.graph.nodes.len() && #[trigger] self.graph.nodes[i].uids@.contains(u) ==> {
                &&& self.knows(u)
                &&& self.visited_nodes(u).contains(self.graph.nodes[i].key@)
            }
        &&& forall|u: Seq<char>, k: NodeKeyView|
            self.knows(u) && #[trigger] self.visited_nodes(u).contains(k) ==> {
                &&& self.graph.has_node(k)
                &&& self.graph.nodes[self.graph.node_id(k)].uids@.contains(u)
            }
        &&& forall|i: int|
            0 <= i < self.graph.nodes.len() ==> inhabited((#[trigger] self.graph.nodes[i]).uids@)
    }

    /// The members of an edge are the entities that took it, every edge that
    /// an entity took is in the graph, and no edge is without members.
    pub open spec fn edge_members_recorded(&self) -> bool {
        &&& forall|e: int, u: Seq<char>|
            0 <= e < self.graph.edges.len() && #[trigger] self.graph.edges[e].uids@.contains(u) ==> {
                &&& self.knows(u)
                &&& self.visited_edges(u).contains(self.graph.edge_key_of(e))
            }
        &&& forall|u: Seq<char>, k: EdgeKeyView|
            self.knows(u) && #[trigger] self.visited_edges(u).contains(k) ==> {
                &&& self.graph.has_edge(k)
                &&& self.graph.edges[self.graph.edge_id(k)].uids@.contains(u)
            }
        &&& forall|e: int|
            0 <= e < self.graph.edges.len() ==> inhabited((#[trigger] self.graph.edges[e]).uids@)
    }

    /// Whether the entity `uid` went through the nodes and took the edges that
    /// the given states lead through.
    pub open spec fn walked(&self, uid: Seq<char>, states: Map<Seq<char>, String>) -> bool {
        &&& self.visited_nodes(uid) == node_path(self.versions(), states, self.str_na@).to_set()
        &&& self.visited_edges(uid) == edge_path(self.versions(), states, self.str_na@).to_set()
    }

    /// What is recorded of an entity is the way that some states lead through
    /// the versions.
    pub open spec fn paths_recorded(&self) -> bool {
        forall|u: Seq<char>| #[trigger]
            self.knows(u) ==> exists|states: Map<Seq<char>, String>| self.walked(u, states)
    }

    /// The validity of a tracker.
    pub open spec fn wf(&self) -> bool {
        &&& self.graph.wf()
        &&& self.ver_to_idx@ == version_index(self.versions())
        &&& self.uid_to_edge@.dom() == self.uid_to_node@.dom()
        &&& self.paths_recorded()
        &&& self.node_members_recorded()
        &&& self.edge_members_recorded()
    }

    /// A tracker for the given versions, in the given order, with no entity
    /// in it. `str_na` is the state that stands for an entity that a version
    /// does not have; without it that state is "Not Present".
    pub fn new(versions: &Vec<String>, str_na: Option<&String>) -> (t: VTracker)
        ensures
            t.wf(),
            t.versions() == texts(versions@),
            t.ver_to_idx@ == version_index(texts(versions@)),
            t.str_na@ == match str_na {
                Some(s) => s@,
                None => "Not Present"@,
            },
            t.graph.nodes.len() == 0,
            t.graph.edges.len() == 0,
            t.uid_to_node@ == Map::<Seq<char>, ListSet<NodeKey>>::empty(),
            t.uid_to_edge@ == Map::<Seq<char>, ListSet<EdgeKey>>::empty(),
    {
        let mut ver_to_idx: StrMap<usize> = StrMap::new();
        let mut idx_to_ver: Vec<String> = Vec::new();
        let mut i: usize = 0;
        while i < versions.len()
            invariant
                i <= versions.len(),
                idx_to_ver@ == versions@.take(i as int),
                ver_to_idx@ == version_index(texts(versions@.take(i as int))),
            decreases versions.len() - i,
        {
            let count = ver_to_idx.len();
            ver_to_idx.insert(versions[i].clone(), count);
            idx_to_ver.push(versions[i].clone());
            proof {
                let next = versions@.take(i + 1);
                assert(texts(next).drop_last() =~= texts(versions@.take(i as int)));
            }
            i += 1;
        }
        let str_not_available = match str_na {
            Some(s) => s.clone(),
            None => "Not Present".to_string(),
        };
        VTracker {
            ver_to_idx,
            idx_to_ver,
            graph: Graph::new(),
            uid_to_node: StrMap::new(),
            uid_to_edge: StrMap::new(),
            str_na: str_not_available,
        }
    }

    /// The key of the node that an entity with the states `ver_states` visits
    /// in the version at position `i`.
    fn node_key_for(&self, i: usize, ver_states: &StrMap<String>) -> (k: NodeKey)
        requires
            i < self.idx_to_ver.len(),
        ensures
            k@ == node_key_at(self.versions(), ver_states@, self.str_na@, i as int),
    {
        let version = &self.idx_to_ver[i];
        match ver_states.get(version.as_str()) {
            Some(state) => NodeKey::new(version.as_str(), state.as_str()),
            None => NodeKey::new(version.as_str(), self.str_na.as_str()),
        }
    }

    /// Merges the nodes that the entity `uid` visits into the graph, and
    /// returns their keys in the order of the versions.
    fn add_nodes(&mut self, uid: &str, ver_states: &StrMap<String>) -> (r: Result<
        Vec<NodeKey>,
        TrackerError,
    >)
        requires
            old(self).graph.wf(),
        ensures
            final(self).graph.wf(),
            final(self).ver_to_idx == old(self).ver_to_idx,
            final(self).idx_to_ver == old(self).idx_to_ver,
            final(self).uid_to_node == old(self).uid_to_node,
            final(self).uid_to_edge == old(self).uid_to_edge,
            final(self).str_na == old(self).str_na,
            final(self).graph.edges == old(self).graph.edges,
            final(self).graph.edge_key_to_id == old(self).graph.edge_key_to_id,
            final(self).graph.edge_keys() == old(self).graph.edge_keys(),
            r is Ok,
            node_key_views(r->Ok_0@) == node_path(
                old(self).versions(),
                ver_states@,
                old(self).str_na@,
            ),
            nodes_merged(
                &old(self).graph,
                &final(self).graph,
                node_path(old(self).versions(), ver_states@, old(self).str_na@),
                uid@,
            ),
    {
        let ghost before = self.graph;
        let ghost path = node_path(self.versions(), ver_states@, self.str_na@);
        let ghost known = before.node_keys().to_set();
        let mut out: Vec<NodeKey> = Vec::new();
        let mut i: usize = 0;
        while i < self.idx_to_ver.len()
            invariant
                i <= self.idx_to_ver.len(),
                self.graph.wf(),
                before.wf(),
                self.ver_to_idx == old(self).ver_to_idx,
                self.idx_to_ver == old(self).idx_to_ver,
                self.uid_to_node == old(self).uid_to_node,
                self.uid_to_edge == old(self).uid_to_edge,
                self.str_na == old(self).str_na,
                self.graph.edges == before.edges,
                self.graph.edge_key_to_id == before.edge_key_to_id,
                self.graph.edge_keys() == before.edge_keys(),
                path == node_path(self.versions(), ver_states@, self.str_na@),
                known == before.node_keys().to_set(),
                out@.len() == i,
                node_key_views(out@) == path.take(i as int),
                nodes_merged(&before, &self.graph, path.take(i as int), uid@),
            decreases self.idx_to_ver.len() - i,
        {
            let key = self.node_key_for(i, ver_states);
            let ghost g = self.graph;
            let ghost next = path.take(i + 1);
            merge_node(&mut self.graph, key.clone(), uid)?;
            out.push(key);
            proof {
                let g2 = self.graph;
                g.lemma_keys_distinct();
                lemma_merge_step(before.node_keys(), g.node_keys(), path, i as int);
                assert(g2.node_keys() == before.node_keys() + fresh_keys(known, next));
                assert forall|j: int| 0 <= j < g2.nodes.len() implies (#[trigger] g2.nodes[j]).uids@
                    == joined(before.node_members(j), next.contains(g2.nodes[j].key@), uid@) by {
                    assert(g2.node_keys()[j] == g2.nodes[j].key@);
                }
            }
            i += 1;
        }
        proof {
            assert(path.take(i as int) =~= path);
        }
        Ok(out)
    }

    /// Merges the edges that the entity `uid` takes into the graph, and
    /// returns their keys in the order of the versions.
    fn add_edges(&mut self, uid: &str, ver_states: &StrMap<String>) -> (r: Result<
        Vec<EdgeKey>,
        TrackerError,
    >)
        requires
            old(self).graph.wf(),
            forall|i: int|
                0 <= i < old(self).versions().len() ==> old(self).graph.has_node(
                    #[trigger] node_key_at(old(self).versions(), ver_states@, old(self).str_na@, i),
                ),
        ensures
            final(self).graph.wf(),
            final(self).ver_to_idx == old(self).ver_to_idx,
            final(self).idx_to_ver == old(self).idx_to_ver,
            final(self).uid_to_node == old(self).uid_to_node,
            final(self).uid_to_edge == old(self).uid_to_edge,
            final(self).str_na == old(self).str_na,
            final(self).graph.node_key_to_id == old(self).graph.node_key_to_id,
            final(self).graph.node_keys() == old(self).graph.node_keys(),
            forall|i: int|
                0 <= i < old(self).graph.nodes.len() ==> (#[trigger] final(self).graph.nodes[i]).uids
                    == old(self).graph.nodes[i].uids,
            r is Ok,
            edge_key_views(r->Ok_0@) == edge_path(
                old(self).versions(),
                ver_states@,
                old(self).str_na@,
            ),
            edges_merged(
                &old(self).graph,
                &final(self).graph,
                edge_path(old(self).versions(), ver_states@, old(self).str_na@),
                uid@,
            ),
    {
        let ghost before = self.graph;
        let ghost path = edge_path(self.versions(), ver_states@, self.str_na@);
        let ghost known = before.edge_keys().to_set();
        let mut out: Vec<EdgeKey> = Vec::new();
        let n = self.idx_to_ver.len();
        let mut i: usize = 0;
        while i + 1 < n
            invariant
                n == self.idx_to_ver.len(),
                i <= path.len(),
                self.graph.wf(),
                before.wf(),
                self.ver_to_idx == old(self).ver_to_idx,
                self.idx_to_ver == old(self).idx_to_ver,
                self.uid_to_node == old(self).uid_to_node,
                self.uid_to_edge == old(self).uid_to_edge,
                self.str_na == old(self).str_na,
                self.graph.node_key_to_id == before.node_key_to_id,
                self.graph.node_keys() == before.node_keys(),
                self.graph.nodes.len() == before.nodes.len(),
                forall|j: int|
                    0 <= j < before.nodes.len() ==> (#[trigger] self.graph.nodes[j]).uids
                        == before.nodes[j].uids,
                forall|j: int|
                    0 <= j < self.versions().len() ==> before.has_node(
                        #[trigger] node_key_at(self.versions(), ver_states@, self.str_na@, j),
                    ),
                path == edge_path(self.versions(), ver_states@, self.str_na@),
                known == before.edge_keys().to_set(),
                out@.len() == i,
                edge_key_views(out@) == path.take(i as int),
                edges_merged(&before, &self.graph, path.take(i as int), uid@),
            decreases n - i,
        {
            let key_from = self.node_key_for(i, ver_states);
            let key_to = self.node_key_for(i + 1, ver_states);
            let edge_key = EdgeKey::new(&key_from, &key_to);
            let ghost g = self.graph;
            let ghost next = path.take(i + 1);
            merge_edge(&mut self.graph, &key_from, &key_to, uid)?;
            out.push(edge_key);
            proof {
                let g2 = self.graph;
                assert(path[i as int] == edge_key@);
                assert forall|j: int| 0 <= j < before.nodes.len() implies (#[trigger] g2.nodes[j]).uids
                    == before.nodes[j].uids by {
                    assert(g.nodes[j].uids == before.nodes[j].uids);
                }
                g.lemma_keys_distinct();
                lemma_merge_step(before.edge_keys(), g.edge_keys(), path, i as int);
                assert(g2.edge_keys() == before.edge_keys() + fresh_keys(known, next));
                assert forall|e: int| 0 <= e < g2.edges.len() implies (#[trigger] g2.edges[e]).uids@
                    == joined(before.edge_members(e), next.contains(g2.edge_key_of(e)), uid@) by {
                    assert(g2.edge_keys()[e] == g2.edge_key_of(e));
                }
            }
            i += 1;
        }
        Ok(out)
    }

    /// Records the nodes that the entity `uid` went through.
    fn add_uid_to_node(&mut self, uid: &str, keys: &Vec<NodeKey>)
        ensures
            final(self).uid_to_node@ == old(self).uid_to_node@.insert(
                uid@,
                final(self).uid_to_node@[uid@],
            ),
            final(self).visited_nodes(uid@) == node_key_views(keys@).to_set(),
            final(self).uid_to_node@[uid@].seq() == fresh_keys(Set::empty(), node_key_views(keys@)),
            final(self).ver_to_idx == old(self).ver_to_idx,
            final(self).idx_to_ver == old(self).idx_to_ver,
            final(self).graph == old(self).graph,
            final(self).uid_to_edge == old(self).uid_to_edge,
            final(self).str_na == old(self).str_na,
    {
        let ghost views = node_key_views(keys@);
        let mut set: ListSet<NodeKey> = ListSet::new();
        let mut i: usize = 0;
        while i < keys.len()
            invariant
                i <= keys.len(),
                views == node_key_views(keys@),
                set@ == views.take(i as int).to_set(),
                set.seq() == fresh_keys(Set::empty(), views.take(i as int)),
            decreases keys.len() - i,
        {
            set.insert(keys[i].clone());
            proof {
                views.take(i as int).lemma_push_to_set_commute(views[i as int]);
                lemma_fresh_keys_step(Set::empty(), views, i as int);
            }
            i += 1;
        }
        proof {
            assert(views.take(i as int) =~= views);
        }
        self.uid_to_node.insert(uid.to_string(), set);
    }

    /// Records the edges that the entity `uid` took.
    fn add_uid_to_edge(&mut self, uid: &str, keys: &Vec<EdgeKey>)
        ensures
            final(self).uid_to_edge@ == old(self).uid_to_edge@.insert(
                uid@,
                final(self).uid_to_edge@[uid@],
            ),
            final(self).visited_edges(uid@) == edge_key_views(keys@).to_set(),
            final(self).uid_to_edge@[uid@].seq() == fresh_keys(Set::empty(), edge_key_views(keys@)),
            final(self).ver_to_idx == old(self).ver_to_idx,
            final(self).idx_to_ver == old(self).idx_to_ver,
            final(self).graph == old(self).graph,
            final(self).uid_to_node == old(self).uid_to_node,
            final(self).str_na == old(self).str_na,
    {
        let ghost views = edge_key_views(keys@);
        let mut set: ListSet<EdgeKey> = ListSet::new();
        let mut i: usize = 0;
        while i < keys.len()
            invariant
                i <= keys.len(),
                views == edge_key_views(keys@),
                set@ == views.take(i as int).to_set(),
                set.seq() == fresh_keys(Set::empty(), views.take(i as int)),
            decreases keys.len() - i,
        {
            set.insert(keys[i].clone());
            proof {
                views.take(i as int).lemma_push_to_set_commute(views[i as int]);
                lemma_fresh_keys_step(Set::empty(), views, i as int);
            }
            i += 1;
        }
        proof {
            assert(views.take(i as int) =~= views);
        }
        self.uid_to_edge.insert(uid.to_string(), set);
    }

    /// What `add` answers for an entity and its states.
    pub open spec fn add_outcome(&self, uid: Seq<char>, states: Map<Seq<char>, String>) -> Result<
        (),
        TrackerError,
    > {
        if exists|v: Seq<char>| #[trigger] states.contains_key(v) && !self.versions().contains(v) {
            Err(TrackerError::UnknownVersion)
        } else if self.knows(uid) {
            Err(TrackerError::DuplicateEntity)
        } else {
            Ok(())
        }
    }

    /// How a tracker stands after the entity `uid` with the given states has
    /// been added to the tracker `before`.
    ///
    /// The versions and the state for absence are those of `before`. The
    /// entity went through one node for each version and took one edge for
    /// each pair of consecutive versions; what `before` records of other
    /// entities stands. Nodes and edges that `before` did not have were added
    /// under the next ids, in the order of the versions, and the entity is a
    /// member of the nodes and edges on its way, and of no other.
    pub open spec fn added(
        &self,
        before: &VTracker,
        uid: Seq<char>,
        states: Map<Seq<char>, String>,
    ) -> bool {
        let nodes = node_path(before.versions(), states, before.str_na@);
        let edges = edge_path(before.versions(), states, before.str_na@);
        &&& self.ver_to_idx == before.ver_to_idx
        &&& self.idx_to_ver == before.idx_to_ver
        &&& self.str_na == before.str_na
        &&& self.uid_to_node@ == before.uid_to_node@.insert(uid, self.uid_to_node@[uid])
        &&& self.uid_to_edge@ == before.uid_to_edge@.insert(uid, self.uid_to_edge@[uid])
        &&& self.visited_nodes(uid) == nodes.to_set()
        &&& self.visited_edges(uid) == edges.to_set()
        &&& self.uid_to_node@[uid].seq() == fresh_keys(Set::empty(), nodes)
        &&& self.uid_to_edge@[uid].seq() == fresh_keys(Set::empty(), edges)
        &&& nodes_merged(&before.graph, &self.graph, nodes, uid)
        &&& edges_merged(&before.graph, &self.graph, edges, uid)
    }

    /// Adding an entity that a valid tracker does not know gives a valid
    /// tracker.
    pub proof fn lemma_added_wf(
        &self,
        before: &VTracker,
        uid: Seq<char>,
        states: Map<Seq<char>, String>,
    )
        requires
            before.wf(),
            !before.knows(uid),
            self.graph.wf(),
            self.added(before, uid, states),
        ensures
            self.wf(),
    {
        let nodes = node_path(before.versions(), states, before.str_na@);
        let edges = edge_path(before.versions(), states, before.str_na@);
        let g0 = before.graph;
        let g = self.graph;
        let known_nodes = g0.node_keys().to_set();
        let known_edges = g0.edge_keys().to_set();
        lemma_fresh_keys(known_nodes, nodes);
        lemma_fresh_keys(known_edges, edges);
        g.lemma_keys_distinct();
        assert forall|u: Seq<char>| #[trigger] self.knows(u) implies exists|
            w: Map<Seq<char>, String>,
        | self.walked(u, w) by {
            if u == uid {
                assert(self.walked(u, states));
            } else {
                assert(before.knows(u));
                let w = choose|w: Map<Seq<char>, String>| before.walked(u, w);
                assert(self.walked(u, w));
            }
        }
        // The nodes of `before` are the first nodes of `self`, under the same keys.
        assert forall|i: int| 0 <= i < g0.nodes.len() implies i < g.nodes.len() && g.nodes[i].key@
            == g0.nodes[i].key@ by {
            assert(g.node_keys().len() == g0.node_keys().len() + fresh_keys(known_nodes, nodes).len());
        }
        // Every later node is on the way of the entity.
        assert forall|i: int| g0.nodes.len() <= i < g.nodes.len() implies nodes.contains(
            g.nodes[i].key@,
        ) by {
            let fresh = fresh_keys(known_nodes, nodes);
            assert(fresh.contains(g.nodes[i].key@));
        }
        assert forall|k: NodeKeyView| nodes.contains(k) implies g.has_node(k) by {
            if !known_nodes.contains(k) {
                let fresh = fresh_keys(known_nodes, nodes);
                assert(fresh.contains(k));
                let j = choose|j: int| 0 <= j < fresh.len() && fresh[j] == k;
                assert(g.node_keys()[g0.node_keys().len() + j] == k);
            }
        }
        assert(self.node_members_recorded()) by {
            assert forall|u: Seq<char>, k: NodeKeyView|
                self.knows(u) && #[trigger] self.visited_nodes(u).contains(k) implies {
                &&& g.has_node(k)
                &&& g.nodes[g.node_id(k)].uids@.contains(u)
            } by {
                if u != uid {
                    assert(before.visited_nodes(u).contains(k));
                }
            }
            assert forall|i: int| 0 <= i < g.nodes.len() implies inhabited(
                (#[trigger] g.nodes[i]).uids@,
            ) by {
                if i < g0.nodes.len() {
                    let u = choose|u: Seq<char>| g0.nodes[i].uids@.contains(u);
                    assert(g.nodes[i].uids@.contains(u));
                } else {
                    assert(g.nodes[i].uids@.contains(uid));
                }
            }
        }
        // The same of the edges.
        assert forall|e: int| 0 <= e < g0.edges.len() implies e < g.edges.len() && g.edge_key_of(
            e,
        ) == g0.edge_key_of(e) by {
            assert(g.edge_keys().len() == g0.edge_keys().len() + fresh_keys(known_edges, edges).len());
        }
        assert forall|e: int| g0.edges.len() <= e < g.edges.len() implies edges.contains(
            g.edge_key_of(e),
        ) by {
            let fresh = fresh_keys(known_edges, edges);
            assert(fresh.contains(g.edge_key_of(e)));
        }
        assert forall|k: EdgeKeyView| edges.contains(k) implies g.has_edge(k) by {
            if !known_edges.contains(k) {
                let fresh = fresh_keys(known_edges, edges);
                assert(fresh.contains(k));
                let j = choose|j: int| 0 <= j < fresh.len() && fresh[j] == k;
                assert(g.edge_keys()[g0.edge_keys().len() + j] == k);
            }
        }
        assert(self.edge_members_recorded()) by {
            assert forall|u: Seq<char>, k: EdgeKeyView|
                self.knows(u) && #[trigger] self.visited_edges(u).contains(k) implies {
                &&& g.has_edge(k)
                &&& g.edges[g.edge_id(k)].uids@.contains(u)
            } by {
                if u != uid {
                    assert(before.visited_edges(u).contains(k));
                }
            }
            assert forall|e: int| 0 <= e < g.edges.len() implies inhabited(
                (#[trigger] g.edges[e]).uids@,
            ) by {
                if e < g0.edges.len() {
                    let u = choose|u: Seq<char>| g0.edges[e].uids@.contains(u);
                    assert(g.edges[e].uids@.contains(u));
                } else {
                    assert(g.edges[e].uids@.contains(uid));
                }
            }
        }
    }

    /// Adds the entity `uid`, which has in each version the state that
    /// `ver_states` gives for it, and where it gives none the state for
    /// absence.
    ///
    /// The call is refused with `UnknownVersion` if `ver_states` has a version
    /// that the tracker was not built with, and otherwise with
    /// `DuplicateEntity` if the entity has been added before. A refused call
    /// changes nothing.
    pub fn add(&mut self, uid: &str, ver_states: &StrMap<String>) -> (r: Result<
        (),
        TrackerError,
    >)
        requires
            old(self).wf(),
        ensures
            final(self).wf(),
            r == old(self).add_outcome(uid@, ver_states@),
            r is Err ==> *final(self) == *old(self),
            r is Ok ==> final(self).added(old(self), uid@, ver_states@),
    {
        let ghost before = *self;
        let count = ver_states.len();
        let mut i: usize = 0;
        proof {
            lemma_version_index_dom(self.versions());
        }
        while i < count
            invariant
                i <= count,
                count == ver_states.keys().len(),
                *self == before,
                before.wf(),
                self.ver_to_idx@.dom() == self.versions().to_set(),
                forall|j: int| 0 <= j < i ==> self.versions().contains(#[trigger] ver_states.keys()[j]),
            decreases count - i,
        {
            if !self.ver_to_idx.contains_key(ver_states.key_at(i).as_str()) {
                return Err(TrackerError::UnknownVersion);
            }
            i += 1;
        }
        if self.uid_to_node.contains_key(uid) {
            return Err(TrackerError::DuplicateEntity);
        }
        let node_keys = self.add_nodes(uid, ver_states)?;
        let ghost g1 = self.graph;
        self.add_uid_to_node(uid, &node_keys);
        proof {
            let nodes = node_path(before.versions(), ver_states@, before.str_na@);
            let known = before.graph.node_keys().to_set();
            lemma_fresh_keys(known, nodes);
            assert forall|j: int| 0 <= j < self.versions().len() implies self.graph.has_node(
                #[trigger] node_key_at(self.versions(), ver_states@, self.str_na@, j),
            ) by {
                let k = node_key_at(self.versions(), ver_states@, self.str_na@, j);
                assert(nodes[j] == k);
                let fresh = fresh_keys(known, nodes);
                if known.contains(k) {
                    let m = choose|m: int|
                        0 <= m < before.graph.node_keys().len() && before.graph.node_keys()[m] == k;
                    assert(g1.node_keys()[m] == k);
                } else {
                    assert(fresh.contains(k));
                    let m = choose|m: int| 0 <= m < fresh.len() && fresh[m] == k;
                    assert(g1.node_keys()[before.graph.node_keys().len() + m] == k);
                }
                assert(g1.node_keys().contains(k));
            }
        }
        let edge_keys = self.add_edges(uid, ver_states)?;
        self.add_uid_to_edge(uid, &edge_keys);
        proof {
            let nodes = node_path(before.versions(), ver_states@, before.str_na@);
            let g = self.graph;
            assert(nodes_merged(&before.graph, &g, nodes, uid@)) by {
                assert(g.nodes.len() == g1.nodes.len()) by {
                    assert(g.node_keys().len() == g1.node_keys().len());
                }
                assert forall|j: int| 0 <= j < g.nodes.len() implies (#[trigger] g.nodes[j]).uids@
                    == joined(
                    before.graph.node_members(j),
                    nodes.contains(g.nodes[j].key@),
                    uid@,
                ) by {
                    assert(g.node_keys()[j] == g1.node_keys()[j]);
                }
            }
            self.lemma_added_wf(&before, uid@, ver_states@);
        }
        Ok(())
    }
}

} // verus!
