use vtracker::collections::{ListSet, StrMap, StrSet};
use vtracker::edge::EdgeKey;
use vtracker::index::{EdgeIndex, NodeIndex};
use vtracker::node::NodeKey;

#[test]
fn list_set_keeps_first_insertions_in_order() {
    let five = NodeKey::new("5", "a");
    let three = NodeKey::new("3", "a");
    let nine = NodeKey::new("9", "a");
    let mut set: ListSet<NodeKey> = ListSet::new();
    assert_eq!(set.len(), 0);
    assert!(set.insert(five.clone()));
    assert!(set.insert(three.clone()));
    assert!(!set.insert(five.clone()));
    assert!(set.insert(nine.clone()));
    assert_eq!(set.len(), 3);
    assert_eq!(set.items(), &vec![five.clone(), three.clone(), nine.clone()]);
    assert_eq!(*set.get(1), three);
    assert!(set.contains(&nine));
    assert!(!set.contains(&NodeKey::new("9", "b")));
    assert_eq!(set.position(&nine), Some(2));
    assert_eq!(set.position(&NodeKey::new("4", "a")), None);
}

#[test]
fn list_set_equality_ignores_order() {
    let mut a: ListSet<NodeKey> = ListSet::new();
    let mut b: ListSet<NodeKey> = ListSet::new();
    assert!(a.equals(&b));
    a.insert(NodeKey::new("1", "a"));
    a.insert(NodeKey::new("2", "b"));
    b.insert(NodeKey::new("2", "b"));
    assert!(!a.equals(&b));
    assert!(!b.equals(&a));
    b.insert(NodeKey::new("1", "a"));
    assert!(a.equals(&b));
    b.insert(NodeKey::new("1", "b"));
    assert!(!a.equals(&b));
}

#[test]
fn str_set_keeps_first_insertions_in_order() {
    let mut set = StrSet::new();
    assert_eq!(set.len(), 0);
    assert!(set.insert("b".to_string()));
    assert!(set.insert("a".to_string()));
    assert!(!set.insert("b".to_string()));
    assert_eq!(set.len(), 2);
    assert_eq!(set.items(), &vec!["b".to_string(), "a".to_string()]);
    assert_eq!(set.get(0), "b");
    assert!(set.contains("a"));
    assert!(!set.contains("c"));
    assert!(!set.contains(""));
}

#[test]
fn str_set_equality_ignores_order() {
    let mut a = StrSet::new();
    let mut b = StrSet::new();
    assert!(a.equals(&b));
    a.insert("x".to_string());
    a.insert("y".to_string());
    b.insert("y".to_string());
    assert!(!a.equals(&b));
    b.insert("x".to_string());
    assert!(a.equals(&b));
    assert!(b.equals(&a));
    let mut c = StrSet::new();
    c.insert("x".to_string());
    c.insert("z".to_string());
    assert!(!a.equals(&c));
}

#[test]
fn str_map_replaces_the_value_in_place() {
    let mut map: StrMap<usize> = StrMap::new();
    assert_eq!(map.len(), 0);
    assert_eq!(map.get("a"), None);
    map.insert("a".to_string(), 1);
    map.insert("b".to_string(), 2);
    map.insert("a".to_string(), 3);
    assert_eq!(map.len(), 2);
    assert_eq!(map.get("a"), Some(&3));
    assert_eq!(map.get("b"), Some(&2));
    assert_eq!(map.get("c"), None);
    assert!(map.contains_key("b"));
    assert!(!map.contains_key("c"));
    assert_eq!(map.position("b"), Some(1));
    assert_eq!(map.position("c"), None);
    assert_eq!(map.key_at(0), "a");
    assert_eq!(*map.value_at(0), 3);
    assert_eq!(map.key_at(1), "b");
    assert_eq!(*map.value_at(1), 2);
}

#[test]
fn node_index_tells_versions_and_states_apart() {
    let mut index = NodeIndex::new();
    assert_eq!(index.get(&NodeKey::new("1", "a")), None);
    index.insert(NodeKey::new("1", "a"), 0);
    index.insert(NodeKey::new("1", "b"), 1);
    index.insert(NodeKey::new("2", "a"), 2);
    assert_eq!(index.get(&NodeKey::new("1", "a")), Some(0));
    assert_eq!(index.get(&NodeKey::new("1", "b")), Some(1));
    assert_eq!(index.get(&NodeKey::new("2", "a")), Some(2));
    assert_eq!(index.get(&NodeKey::new("2", "b")), None);
    assert_eq!(index.get(&NodeKey::new("a", "1")), None);
    assert_eq!(index.get(&NodeKey::new("1a", "")), None);
    index.insert(NodeKey::new("1", "b"), 7);
    assert_eq!(index.get(&NodeKey::new("1", "b")), Some(7));
    assert_eq!(index.get(&NodeKey::new("1", "a")), Some(0));
}

#[test]
fn edge_index_tells_directions_apart() {
    let a = NodeKey::new("1", "a");
    let b = NodeKey::new("2", "a");
    let c = NodeKey::new("2", "b");
    let mut index = EdgeIndex::new();
    assert_eq!(index.get(&EdgeKey::new(&a, &b)), None);
    index.insert(EdgeKey::new(&a, &b), 0);
    index.insert(EdgeKey::new(&a, &c), 1);
    index.insert(EdgeKey::new(&b, &a), 2);
    assert_eq!(index.get(&EdgeKey::new(&a, &b)), Some(0));
    assert_eq!(index.get(&EdgeKey::new(&a, &c)), Some(1));
    assert_eq!(index.get(&EdgeKey::new(&b, &a)), Some(2));
    assert_eq!(index.get(&EdgeKey::new(&c, &a)), None);
    assert_eq!(index.get(&EdgeKey::new(&b, &c)), None);
    index.insert(EdgeKey::new(&a, &b), 5);
    assert_eq!(index.get(&EdgeKey::new(&a, &b)), Some(5));
    assert_eq!(index.get(&EdgeKey::new(&a, &c)), Some(1));
}
