//! The way of an entity through the versions: the nodes that it goes through
//! and the edges that it takes.

use crate::edge::EdgeKeyView;
use crate::node::NodeKeyView;
use vstd::prelude::*;

verus! {

/// The state of an entity in `version`: the one that `states` gives, or `na`
/// where it gives none.
pub open spec fn effective_state(
    states: Map<Seq<char>, String>,
    na: Seq<char>,
    version: Seq<char>,
) -> Seq<char> {
    if states.contains_key(version) {
        states[version]@
    } else {
        na
    }
}

/// The key of the node that an entity with the given states visits in the
/// version at position `i`.
pub open spec fn node_key_at(
    versions: Seq<Seq<char>>,
    states: Map<Seq<char>, String>,
    na: Seq<char>,
    i: int,
) -> NodeKeyView {
    NodeKeyView { version: versions[i], state: effective_state(states, na, versions[i]) }
}

/// The keys of the nodes that an entity with the given states visits, one for
/// each version, in the order of the versions.
pub open spec fn node_path(
    versions: Seq<Seq<char>>,
    states: Map<Seq<char>, String>,
    na: Seq<char>,
) -> Seq<NodeKeyView> {
    Seq::new(versions.len(), |i: int| node_key_at(versions, states, na, i))
}

/// The key of the edge that an entity with the given states takes from the
/// version at position `i` to the next.
pub open spec fn edge_key_at(
    versions: Seq<Seq<char>>,
    states: Map<Seq<char>, String>,
    na: Seq<char>,
    i: int,
) -> EdgeKeyView {
    EdgeKeyView {
        from_node: node_key_at(versions, states, na, i),
        to_node: node_key_at(versions, states, na, i + 1),
    }
}

/// The keys of the edges that an entity with the given states takes, one for
/// each pair of consecutive versions, in the order of the versions.
pub open spec fn edge_path(
    versions: Seq<Seq<char>>,
    states: Map<Seq<char>, String>,
    na: Seq<char>,
) -> Seq<EdgeKeyView> {
    Seq::new(
        if versions.len() == 0 {
            0nat
        } else {
            (versions.len() - 1) as nat
        },
        |i: int| edge_key_at(versions, states, na, i),
    )
}

/// The keys of `path` that are not in `known`, each once, in the order in
/// which `path` first has them.
pub open spec fn fresh_keys<K>(known: Set<K>, path: Seq<K>) -> Seq<K>
    decreases path.len(),
{
    if path.len() == 0 {
        Seq::empty()
    } else {
        let before = fresh_keys(known, path.drop_last());
        let k = path.last();
        if known.contains(k) || path.drop_last().contains(k) {
            before
        } else {
            before.push(k)
        }
    }
}

/// The members `base`, with `uid` among them where `hit` holds.
pub open spec fn joined(base: Set<Seq<char>>, hit: bool, uid: Seq<char>) -> Set<Seq<char>> {
    if hit {
        base.insert(uid)
    } else {
        base
    }
}

/// The fresh keys of a path are the keys of the path that are not known, and
/// none of them comes twice.
pub proof fn lemma_fresh_keys<K>(known: Set<K>, path: Seq<K>)
    ensures
        fresh_keys(known, path).no_duplicates(),
        forall|k: K| #[trigger]
            fresh_keys(known, path).contains(k) <==> path.contains(k) && !known.contains(k),
    decreases path.len(),
{
    if path.len() > 0 {
        let front = path.drop_last();
        let last = path.last();
        lemma_fresh_keys(known, front);
        let before = fresh_keys(known, front);
        if !(known.contains(last) || front.contains(last)) {
            assert forall|i: int, j: int|
                0 <= i < before.len() + 1 && 0 <= j < before.len() + 1 && i != j implies before.push(
                last,
            )[i] != before.push(last)[j] by {
                if i < before.len() {
                    assert(before.contains(before[i]));
                }
                if j < before.len() {
                    assert(before.contains(before[j]));
                }
            }
        }
        assert forall|k: K| #[trigger]
            fresh_keys(known, path).contains(k) <==> path.contains(k) && !known.contains(k) by {
            if path.contains(k) {
                let i = choose|i: int| 0 <= i < path.len() && path[i] == k;
                if i < front.len() {
                    assert(front[i] == k);
                }
            }
            if !(known.contains(last) || front.contains(last)) {
                if before.contains(k) {
                    let i = choose|i: int| 0 <= i < before.len() && before[i] == k;
                    assert(before.push(last)[i] == k);
                }
                assert(before.push(last)[before.len() as int] == last);
            }
        }
    }
}

/// One more key at the end of a path adds that key to the fresh keys if it is
/// neither known nor on the path before, and adds nothing otherwise.
pub proof fn lemma_fresh_keys_step<K>(known: Set<K>, path: Seq<K>, i: int)
    requires
        0 <= i < path.len(),
    ensures
        fresh_keys(known, path.take(i + 1)) == if known.contains(path[i]) || path.take(i).contains(
            path[i],
        ) {
            fresh_keys(known, path.take(i))
        } else {
            fresh_keys(known, path.take(i)).push(path[i])
        },
{
    assert(path.take(i + 1).drop_last() =~= path.take(i));
}

/// One step of merging a path into a list of keys. `keys` is the list after
/// the first `i` keys of `path` were merged into `before`; the next key is
/// put at its end unless the list has it.
pub proof fn lemma_merge_step<K>(before: Seq<K>, keys: Seq<K>, path: Seq<K>, i: int)
    requires
        0 <= i < path.len(),
        keys == before + fresh_keys(before.to_set(), path.take(i)),
    ensures
        keys.contains(path[i]) <==> before.contains(path[i]) || path.take(i).contains(path[i]),
        before + fresh_keys(before.to_set(), path.take(i + 1)) == if keys.contains(path[i]) {
            keys
        } else {
            keys.push(path[i])
        },
        forall|k: K| #[trigger]
            path.take(i + 1).contains(k) <==> path.take(i).contains(k) || k == path[i],
{
    let known = before.to_set();
    let walked = path.take(i);
    assert(path.take(i + 1) =~= path.take(i).push(path[i]));
    let fresh = fresh_keys(known, walked);
    let k = path[i];
    lemma_fresh_keys(known, walked);
    lemma_fresh_keys_step(known, path, i);
    assert(keys.contains(k) <==> before.contains(k) || walked.contains(k)) by {
        if keys.contains(k) {
            let j = choose|j: int| 0 <= j < keys.len() && keys[j] == k;
            if j >= before.len() {
                assert(fresh.contains(k));
            }
        }
        if before.contains(k) {
            let j = choose|j: int| 0 <= j < before.len() && before[j] == k;
            assert(keys[j] == k);
        } else if walked.contains(k) {
            assert(fresh.contains(k));
            let j = choose|j: int| 0 <= j < fresh.len() && fresh[j] == k;
            assert(keys[before.len() + j] == k);
        }
    }
}

} // verus!
