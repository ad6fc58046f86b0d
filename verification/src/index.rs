//! The indexes that lead from the key of a node or of an edge to its id.

use crate::edge::{EdgeKey, EdgeKeyView};
use crate::node::{NodeKey, NodeKeyView};
use vstd::hash_map::StringHashMap;
use vstd::prelude::*;

verus! {

/// The map that a two-level index stands for. `outer` leads from the first
/// half of a key to a place in `inner`, and the map at that place leads from
/// the second half to the value.
pub open spec fn two_level<A, B>(outer: Map<A, usize>, inner: Seq<Map<B, usize>>) -> Map<
    (A, B),
    usize,
> {
    Map::new(
        |k: (A, B)| outer.contains_key(k.0) && inner[outer[k.0] as int].contains_key(k.1),
        |k: (A, B)| inner[outer[k.0] as int][k.1],
    )
}

/// Whether `outer` leads to places below `n`, and to a different place for
/// each first half.
pub open spec fn places<A>(outer: Map<A, usize>, n: nat) -> bool {
    &&& forall|a: A| #[trigger] outer.contains_key(a) ==> outer[a] < n
    &&& forall|a: A, b: A|
        #[trigger] outer.contains_key(a) && #[trigger] outer.contains_key(b) && a != b ==> outer[a]
            != outer[b]
}

/// The two levels that a [`NodeIndex`] is made of.
struct NodeLevels {
    by_version: StringHashMap<usize>,
    by_state: Vec<StringHashMap<usize>>,
}

/// The index of the nodes of a graph: it gives for the key of a node its id.
/// A key is found by hashing its version, and then its state among the states
/// of that version.
pub struct NodeIndex {
    levels: NodeLevels,
}

impl View for NodeIndex {
    type V = Map<NodeKeyView, usize>;

    open spec fn view(&self) -> Map<NodeKeyView, usize> {
        Map::new(
            |k: NodeKeyView| self.pairs().contains_key((k.version, k.state)),
            |k: NodeKeyView| self.pairs()[(k.version, k.state)],
        )
    }
}

impl NodeIndex {
    #[verifier::type_invariant]
    spec fn placed(&self) -> bool {
        places(self.levels.by_version@, self.levels.by_state@.len())
    }

    spec fn states(&self) -> Seq<Map<Seq<char>, usize>> {
        self.levels.by_state@.map_values(|m: StringHashMap<usize>| m@)
    }

    /// The entries, each under the version and the state of its key.
    pub closed spec fn pairs(&self) -> Map<(Seq<char>, Seq<char>), usize> {
        two_level(self.levels.by_version@, self.states())
    }

    /// The empty index.
    pub fn new() -> (r: Self)
        ensures
            r@ == Map::<NodeKeyView, usize>::empty(),
    {
        NodeIndex { levels: NodeLevels { by_version: StringHashMap::new(), by_state: Vec::new() } }
    }

    /// The id stored for `key`, if there is one.
    pub fn get(&self, key: &NodeKey) -> (r: Option<usize>)
        ensures
            match r {
                Some(id) => self@.contains_key(key@) && id == self@[key@],
                None => !self@.contains_key(key@),
            },
    {
        proof {
            use_type_invariant(self);
        }
        match self.levels.by_version.get(key.version.as_str()) {
            Some(place) => {
                match self.levels.by_state[*place].get(key.state.as_str()) {
                    Some(id) => Some(*id),
                    None => None,
                }
            },
            None => None,
        }
    }

    /// Stores `id` for `key`, in place of what was stored for it before.
    pub fn insert(&mut self, key: NodeKey, id: usize)
        ensures
            final(self)@ == old(self)@.insert(key@, id),
    {
        proof {
            use_type_invariant(&*self);
        }
        let mut levels = NodeLevels { by_version: StringHashMap::new(), by_state: Vec::new() };
        std::mem::swap(&mut levels, &mut self.levels);
        let found = match levels.by_version.get(key.version.as_str()) {
            Some(place) => Some(*place),
            None => None,
        };
        match found {
            Some(place) => {
                levels.by_state[place].insert(key.state, id);
            },
            None => {
                let place = levels.by_state.len();
                let mut states: StringHashMap<usize> = StringHashMap::new();
                states.insert(key.state, id);
                levels.by_state.push(states);
                levels.by_version.insert(key.version, place);
            },
        }
        self.levels = levels;
    }
}

/// The two levels that an [`EdgeIndex`] is made of.
struct EdgeLevels {
    by_from: NodeIndex,
    by_to: Vec<NodeIndex>,
}

/// The index of the edges of a graph: it gives for the key of an edge its id.
/// A key is found by looking up the node that the edge leaves, and then the
/// node that it reaches among those reached from there.
pub struct EdgeIndex {
    levels: EdgeLevels,
}

impl View for EdgeIndex {
    type V = Map<EdgeKeyView, usize>;

    open spec fn view(&self) -> Map<EdgeKeyView, usize> {
        Map::new(
            |k: EdgeKeyView| self.pairs().contains_key((k.from_node, k.to_node)),
            |k: EdgeKeyView| self.pairs()[(k.from_node, k.to_node)],
        )
    }
}

impl EdgeIndex {
    #[verifier::type_invariant]
    spec fn placed(&self) -> bool {
        places(self.levels.by_from@, self.levels.by_to@.len())
    }

    spec fn targets(&self) -> Seq<Map<NodeKeyView, usize>> {
        self.levels.by_to@.map_values(|m: NodeIndex| m@)
    }

    /// The entries, each under the two node keys of its key.
    pub closed spec fn pairs(&self) -> Map<(NodeKeyView, NodeKeyView), usize> {
        two_level(self.levels.by_from@, self.targets())
    }

    /// The empty index.
    pub fn new() -> (r: Self)
        ensures
            r@ == Map::<EdgeKeyView, usize>::empty(),
    {
        EdgeIndex { levels: EdgeLevels { by_from: NodeIndex::new(), by_to: Vec::new() } }
    }

    /// The id stored for `key`, if there is one.
    pub fn get(&self, key: &EdgeKey) -> (r: Option<usize>)
        ensures
            match r {
                Some(id) => self@.contains_key(key@) && id == self@[key@],
                None => !self@.contains_key(key@),
            },
    {
        proof {
            use_type_invariant(self);
        }
        match self.levels.by_from.get(&key.from_node) {
            Some(place) => self.levels.by_to[place].get(&key.to_node),
            None => None,
        }
    }

    /// Stores `id` for `key`, in place of what was stored for it before.
    pub fn insert(&mut self, key: EdgeKey, id: usize)
        ensures
            final(self)@ == old(self)@.insert(key@, id),
    {
        proof {
            use_type_invariant(&*self);
        }
        let mut levels = EdgeLevels { by_from: NodeIndex::new(), by_to: Vec::new() };
        std::mem::swap(&mut levels, &mut self.levels);
        match levels.by_from.get(&key.from_node) {
            Some(place) => {
                levels.by_to[place].insert(key.to_node, id);
            },
            None => {
                let place = levels.by_to.len();
                let mut targets = NodeIndex::new();
                targets.insert(key.to_node, id);
                levels.by_to.push(targets);
                levels.by_from.insert(key.from_node, place);
            },
        }
        self.levels = levels;
    }
}

} // verus!
