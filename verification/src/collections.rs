//! The sets and maps of the library. Each keeps its entries in the order in
//! which they were first inserted, so that whatever walks one of them gives
//! the same result on every run.

use vstd::hash_map::StringHashMap;
use vstd::prelude::*;

verus! {

/// A value that can be an element of a [`ListSet`].
///
/// Two values count as the same element exactly when their views are equal.
pub trait Key: View + Sized {
    /// Decides whether `self` and `other` have the same view.
    fn same(&self, other: &Self) -> (r: bool)
        ensures
            r == (self@ == other@),
    ;
}

/// A finite set kept as a list of its elements in the order in which they were
/// first inserted. No two elements of the list have the same view.
///
/// An element is found by comparing it with one element after the other: the
/// set is meant for the few keys of one node or of one entity.
#[derive(Debug)]
pub struct ListSet<T: Key> {
    items: Vec<T>,
}

impl<T: Key> View for ListSet<T> {
    type V = Set<T::V>;

    open spec fn view(&self) -> Set<T::V> {
        self.seq().to_set()
    }
}

impl<T: Key> ListSet<T> {
    #[verifier::type_invariant]
    spec fn distinct(&self) -> bool {
        self.seq().no_duplicates()
    }

    /// The views of the elements, in insertion order.
    pub closed spec fn seq(&self) -> Seq<T::V> {
        self.items@.map_values(|t: T| t@)
    }

    /// The empty set.
    pub fn new() -> (s: Self)
        ensures
            s.seq() == Seq::<T::V>::empty(),
            s@ == Set::<T::V>::empty(),
    {
        ListSet { items: Vec::new() }
    }

    /// The number of elements.
    pub fn len(&self) -> (n: usize)
        ensures
            n == self.seq().len(),
            n == self@.len(),
            self.seq().no_duplicates(),
            self@.finite(),
    {
        proof {
            use_type_invariant(self);
            self.seq().unique_seq_to_set();
        }
        self.items.len()
    }

    /// The element at position `i` of the insertion order.
    pub fn get(&self, i: usize) -> (r: &T)
        requires
            i < self.seq().len(),
        ensures
            r@ == self.seq()[i as int],
            self@.contains(r@),
    {
        &self.items[i]
    }

    /// The elements in insertion order.
    pub fn items(&self) -> (r: &Vec<T>)
        ensures
            r@.map_values(|t: T| t@) == self.seq(),
    {
        &self.items
    }

    /// The position of the element with the view of `k`, if there is one.
    pub fn position(&self, k: &T) -> (r: Option<usize>)
        ensures
            match r {
                Some(i) => i < self.seq().len() && self.seq()[i as int] == k@,
                None => !self@.contains(k@),
            },
    {
        let mut i: usize = 0;
        while i < self.items.len()
            invariant
                i <= self.items.len(),
                forall|j: int| 0 <= j < i ==> self.seq()[j] != k@,
            decreases self.items.len() - i,
        {
            if self.items[i].same(k) {
                return Some(i);
            }
            i += 1;
        }
        None
    }

    /// Whether an element with the view of `k` is in the set.
    pub fn contains(&self, k: &T) -> (r: bool)
        ensures
            r == self@.contains(k@),
    {
        self.position(k).is_some()
    }

    /// Adds `k` unless an element with the same view is there already;
    /// returns whether it was added.
    pub fn insert(&mut self, k: T) -> (fresh: bool)
        ensures
            fresh == !old(self)@.contains(k@),
            final(self).seq() == if fresh {
                old(self).seq().push(k@)
            } else {
                old(self).seq()
            },
            final(self)@ == old(self)@.insert(k@),
    {
        proof {
            use_type_invariant(&*self);
        }
        if self.contains(&k) {
            false
        } else {
            let ghost before = self.seq();
            let mut items: Vec<T> = Vec::new();
            std::mem::swap(&mut items, &mut self.items);
            items.push(k);
            proof {
                assert(items@.map_values(|t: T| t@) =~= before.push(k@));
                before.lemma_push_to_set_commute(k@);
            }
            self.items = items;
            true
        }
    }

    /// Whether `self` and `other` hold the same elements.
    pub fn equals(&self, other: &Self) -> (r: bool)
        ensures
            r == (self@ == other@),
    {
        let n = self.len();
        let m = other.len();
        if n != m {
            return false;
        }
        let mut i: usize = 0;
        while i < n
            invariant
                i <= n,
                n == self.seq().len(),
                forall|j: int| 0 <= j < i ==> other@.contains(self.seq()[j]),
            decreases n - i,
        {
            if !other.contains(self.get(i)) {
                return false;
            }
            i += 1;
        }
        proof {
            vstd::set_lib::lemma_subset_equality(self@, other@);
        }
        true
    }
}

/// The texts of a list of strings.
pub open spec fn texts(v: Seq<String>) -> Seq<Seq<char>> {
    v.map_values(|s: String| s@)
}

/// Whether `index` gives for each of `keys` its position, and has no other
/// entry.
spec fn positions(keys: Seq<Seq<char>>, index: Map<Seq<char>, usize>) -> bool {
    &&& forall|i: int|
        0 <= i < keys.len() ==> index.contains_key(#[trigger] keys[i]) && index[keys[i]] == i
    &&& forall|k: Seq<char>| #[trigger]
        index.contains_key(k) ==> index[k] < keys.len() && keys[index[k] as int] == k
}

/// The list and the index that a [`StrSet`] is made of.
struct SetParts {
    items: Vec<String>,
    index: StringHashMap<usize>,
}

/// A finite set of strings. It keeps its elements in the order in which they
/// were first inserted, and finds each by hashing.
pub struct StrSet {
    parts: SetParts,
}

impl View for StrSet {
    type V = Set<Seq<char>>;

    open spec fn view(&self) -> Set<Seq<char>> {
        self.seq().to_set()
    }
}

impl StrSet {
    #[verifier::type_invariant]
    spec fn indexed(&self) -> bool {
        positions(texts(self.parts.items@), self.parts.index@)
    }

    /// The elements, in insertion order.
    pub closed spec fn seq(&self) -> Seq<Seq<char>> {
        texts(self.parts.items@)
    }

    /// The empty set.
    pub fn new() -> (s: Self)
        ensures
            s.seq() == Seq::<Seq<char>>::empty(),
            s@ == Set::<Seq<char>>::empty(),
    {
        StrSet { parts: SetParts { items: Vec::new(), index: StringHashMap::new() } }
    }

    /// The number of elements.
    pub fn len(&self) -> (n: usize)
        ensures
            n == self.seq().len(),
            n == self@.len(),
            self.seq().no_duplicates(),
            self@.finite(),
    {
        proof {
            use_type_invariant(self);
            self.seq().unique_seq_to_set();
        }
        self.parts.items.len()
    }

    /// The element at position `i` of the insertion order.
    pub fn get(&self, i: usize) -> (r: &String)
        requires
            i < self.seq().len(),
        ensures
            r@ == self.seq()[i as int],
            self@.contains(r@),
    {
        &self.parts.items[i]
    }

    /// The elements in insertion order.
    pub fn items(&self) -> (r: &Vec<String>)
        ensures
            texts(r@) == self.seq(),
    {
        &self.parts.items
    }

    /// Whether `k` is in the set.
    pub fn contains(&self, k: &str) -> (r: bool)
        ensures
            r == self@.contains(k@),
    {
        proof {
            use_type_invariant(self);
        }
        self.parts.index.contains_key(k)
    }

    /// Adds `k` unless it is there already; returns whether it was added.
    pub fn insert(&mut self, k: String) -> (fresh: bool)
        ensures
            fresh == !old(self)@.contains(k@),
            final(self).seq() == if fresh {
                old(self).seq().push(k@)
            } else {
                old(self).seq()
            },
            final(self)@ == old(self)@.insert(k@),
    {
        proof {
            use_type_invariant(&*self);
        }
        if self.contains(k.as_str()) {
            false
        } else {
            let ghost before = self.seq();
            let mut parts = SetParts { items: Vec::new(), index: StringHashMap::new() };
            std::mem::swap(&mut parts, &mut self.parts);
            let at = parts.items.len();
            parts.index.insert(k.clone(), at);
            parts.items.push(k);
            proof {
                assert(texts(parts.items@) =~= before.push(k@));
                before.lemma_push_to_set_commute(k@);
            }
            self.parts = parts;
            true
        }
    }

    /// Whether `self` and `other` hold the same elements.
    pub fn equals(&self, other: &Self) -> (r: bool)
        ensures
            r == (self@ == other@),
    {
        let n = self.len();
        let m = other.len();
        if n != m {
            return false;
        }
        let mut i: usize = 0;
        while i < n
            invariant
                i <= n,
                n == self.seq().len(),
                forall|j: int| 0 <= j < i ==> other@.contains(self.seq()[j]),
            decreases n - i,
        {
            if !other.contains(self.get(i).as_str()) {
                return false;
            }
            i += 1;
        }
        proof {
            vstd::set_lib::lemma_subset_equality(self@, other@);
        }
        true
    }
}

/// The list and the index that a [`StrMap`] is made of.
struct MapParts<V> {
    entries: Vec<(String, V)>,
    index: StringHashMap<usize>,
}

/// A finite map with strings as keys. It keeps its entries in the order in
/// which their keys were first inserted, and finds each by hashing.
pub struct StrMap<V> {
    parts: MapParts<V>,
}

impl<V> View for StrMap<V> {
    type V = Map<Seq<char>, V>;

    open spec fn view(&self) -> Map<Seq<char>, V> {
        Map::new(
            |k: Seq<char>| self.keys().contains(k),
            |k: Seq<char>| self.values()[self.keys().index_of(k)],
        )
    }
}

impl<V> StrMap<V> {
    #[verifier::type_invariant]
    spec fn indexed(&self) -> bool {
        positions(self.keys(), self.parts.index@)
    }

    /// The keys, in insertion order.
    pub closed spec fn keys(&self) -> Seq<Seq<char>> {
        self.parts.entries@.map_values(|e: (String, V)| e.0@)
    }

    /// The values, each at the position of its key in `keys`.
    pub closed spec fn values(&self) -> Seq<V> {
        self.parts.entries@.map_values(|e: (String, V)| e.1)
    }

    /// The empty map.
    pub fn new() -> (m: Self)
        ensures
            m.keys() == Seq::<Seq<char>>::empty(),
            m.values() == Seq::<V>::empty(),
            m@ == Map::<Seq<char>, V>::empty(),
    {
        StrMap { parts: MapParts { entries: Vec::new(), index: StringHashMap::new() } }
    }

    /// The number of entries.
    pub fn len(&self) -> (n: usize)
        ensures
            n == self.keys().len(),
            n == self.values().len(),
            self.keys().no_duplicates(),
            self@.dom() == self.keys().to_set(),
            self@.dom().finite(),
            n == self@.len(),
    {
        proof {
            use_type_invariant(self);
            self.keys().unique_seq_to_set();
        }
        self.parts.entries.len()
    }

    /// The key at position `i` of the insertion order.
    pub fn key_at(&self, i: usize) -> (r: &String)
        requires
            i < self.keys().len(),
        ensures
            r@ == self.keys()[i as int],
            self@.contains_key(r@),
            self@[r@] == self.values()[i as int],
    {
        proof {
            use_type_invariant(self);
        }
        &self.parts.entries[i].0
    }

    /// The value at position `i` of the insertion order.
    pub fn value_at(&self, i: usize) -> (r: &V)
        requires
            i < self.keys().len(),
        ensures
            *r == self.values()[i as int],
            self@.contains_key(self.keys()[i as int]),
            self@[self.keys()[i as int]] == *r,
    {
        proof {
            use_type_invariant(self);
        }
        &self.parts.entries[i].1
    }

    /// The position of the entry for `k`, if there is one.
    pub fn position(&self, k: &str) -> (r: Option<usize>)
        ensures
            match r {
                Some(i) => i < self.keys().len() && self.keys()[i as int] == k@,
                None => !self@.contains_key(k@),
            },
    {
        proof {
            use_type_invariant(self);
        }
        match self.parts.index.get(k) {
            Some(i) => Some(*i),
            None => None,
        }
    }

    /// Whether the map has an entry for `k`.
    pub fn contains_key(&self, k: &str) -> (r: bool)
        ensures
            r == self@.contains_key(k@),
    {
        self.position(k).is_some()
    }

    /// The value stored for `k`, if there is one.
    pub fn get(&self, k: &str) -> (r: Option<&V>)
        ensures
            match r {
                Some(v) => self@.contains_key(k@) && *v == self@[k@],
                None => !self@.contains_key(k@),
            },
    {
        match self.position(k) {
            Some(i) => Some(self.value_at(i)),
            None => None,
        }
    }

    /// Stores `v` for `k`. An entry for `k` keeps its place and gets the new
    /// value; otherwise a new entry goes to the end.
    pub fn insert(&mut self, k: String, v: V)
        ensures
            final(self)@ == old(self)@.insert(k@, v),
            final(self).keys() == if old(self)@.contains_key(k@) {
                old(self).keys()
            } else {
                old(self).keys().push(k@)
            },
    {
        proof {
            use_type_invariant(&*self);
        }
        let ghost keys0 = self.keys();
        let ghost view0 = self@;
        let found = self.position(k.as_str());
        let mut parts = MapParts { entries: Vec::new(), index: StringHashMap::new() };
        std::mem::swap(&mut parts, &mut self.parts);
        match found {
            Some(i) => {
                parts.entries[i] = (k, v);
                proof {
                    assert(parts.entries@.map_values(|e: (String, V)| e.0@) =~= keys0);
                }
            },
            None => {
                let at = parts.entries.len();
                parts.index.insert(k.clone(), at);
                parts.entries.push((k, v));
                proof {
                    assert(parts.entries@.map_values(|e: (String, V)| e.0@) =~= keys0.push(k@));
                }
            },
        }
        self.parts = parts;
        proof {
            let keys1 = self.keys();
            assert forall|x: Seq<char>| self@.contains_key(x) <==> view0.insert(k@, v).contains_key(
                x,
            ) by {
                if keys0.contains(x) {
                    let j = keys0.index_of(x);
                    assert(keys1[j] == x);
                }
                if x == k@ {
                    if found is None {
                        assert(keys1[keys0.len() as int] == x);
                    }
                }
            }
        }
    }
}

} // verus!
