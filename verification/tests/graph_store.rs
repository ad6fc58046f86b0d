use std::collections::HashSet;

use vtracker::collections::{ListSet, StrSet};
use vtracker::edge::{Edge, EdgeKey};
use vtracker::error::TrackerError;
use vtracker::graph::Graph;
use vtracker::node::{Node, NodeKey};

fn members(names: &[&str]) -> StrSet {
    let mut out = StrSet::new();
    for name in names {
        out.insert(name.to_string());
    }
    out
}

fn member_names(set: &StrSet) -> Vec<String> {
    set.items().clone()
}

fn edge_keys(set: &ListSet<EdgeKey>) -> HashSet<EdgeKey> {
    set.items().iter().cloned().collect()
}

#[test]
fn node_key_holds_version_and_state() {
    let key = NodeKey::new("v1", "open");
    assert_eq!(key.version, "v1");
    assert_eq!(key.state, "open");
    assert_eq!(key, NodeKey::new("v1", "open"));
    assert_ne!(key, NodeKey::new("v1", "closed"));
    assert_ne!(key, NodeKey::new("v2", "open"));
    assert_eq!(key.clone(), key);
}

#[test]
fn edge_key_keeps_direction() {
    let a = NodeKey::new("1", "a");
    let b = NodeKey::new("2", "b");
    let key = EdgeKey::new(&a, &b);
    assert_eq!(key.from_node, a);
    assert_eq!(key.to_node, b);
    assert_ne!(key, EdgeKey::new(&b, &a));
    assert_eq!(key.clone(), key);
}

#[test]
fn new_node_has_no_edges() {
    let node = Node::new(7, NodeKey::new("1", "a"), members(&["x", "y"]));
    assert_eq!(node.id, 7);
    assert_eq!(node.key, NodeKey::new("1", "a"));
    assert_eq!(member_names(&node.uids), vec!["x".to_string(), "y".to_string()]);
    assert_eq!(node.edge_ids_out.len(), 0);
    assert_eq!(node.edge_ids_in.len(), 0);
}

#[test]
fn node_records_edges_once() {
    let a = NodeKey::new("1", "a");
    let b = NodeKey::new("2", "b");
    let mut node = Node::new(0, a.clone(), members(&["x"]));
    node.add_edge_out(&EdgeKey::new(&a, &b));
    node.add_edge_out(&EdgeKey::new(&a, &b));
    node.add_edge_in(&EdgeKey::new(&b, &a));
    assert_eq!(node.edge_ids_out.len(), 1);
    assert_eq!(node.edge_ids_in.len(), 1);
    assert!(node.edge_ids_out.contains(&EdgeKey::new(&a, &b)));
    assert!(!node.edge_ids_out.contains(&EdgeKey::new(&b, &a)));
    assert!(node.edge_ids_in.contains(&EdgeKey::new(&b, &a)));
    assert_eq!(node.id, 0);
    assert_eq!(member_names(&node.uids), vec!["x".to_string()]);
}

#[test]
fn new_edge_holds_what_it_was_given() {
    let edge = Edge::new(3, 1, 2, members(&["x"]));
    assert_eq!(edge.id, 3);
    assert_eq!(edge.from_node, 1);
    assert_eq!(edge.to_node, 2);
    assert_eq!(member_names(&edge.uids), vec!["x".to_string()]);
}

#[test]
fn empty_graph_finds_nothing() {
    let graph = Graph::new();
    let a = NodeKey::new("1", "a");
    let b = NodeKey::new("2", "a");
    assert_eq!(graph.nodes.len(), 0);
    assert_eq!(graph.edges.len(), 0);
    assert!(graph.get_node(&a).is_none());
    assert!(graph.get_edge(&EdgeKey::new(&a, &b)).is_none());
}

#[test]
fn add_node_gives_ids_in_order() {
    let mut graph = Graph::new();
    let a = NodeKey::new("1", "a");
    let b = NodeKey::new("1", "b");
    let c = NodeKey::new("2", "a");
    assert_eq!(graph.add_node(a.clone(), members(&["x"])), Ok(()));
    assert_eq!(graph.add_node(b.clone(), members(&["y"])), Ok(()));
    assert_eq!(graph.add_node(c.clone(), members(&[])), Ok(()));
    assert_eq!(graph.nodes.len(), 3);
    assert_eq!(graph.get_node(&a).unwrap().id, 0);
    assert_eq!(graph.get_node(&b).unwrap().id, 1);
    assert_eq!(graph.get_node(&c).unwrap().id, 2);
    assert_eq!(graph.nodes[1].key, b);
    assert_eq!(member_names(&graph.nodes[1].uids), vec!["y".to_string()]);
    assert!(graph.get_node(&NodeKey::new("2", "b")).is_none());
}

#[test]
fn add_node_again_with_same_members_changes_nothing() {
    let mut graph = Graph::new();
    let a = NodeKey::new("1", "a");
    assert_eq!(graph.add_node(a.clone(), members(&["x", "y"])), Ok(()));
    assert_eq!(graph.add_node(a.clone(), members(&["y", "x"])), Ok(()));
    assert_eq!(graph.nodes.len(), 1);
    assert_eq!(member_names(&graph.nodes[0].uids), vec!["x".to_string(), "y".to_string()]);
}

#[test]
fn add_node_again_with_other_members_is_refused() {
    let mut graph = Graph::new();
    let a = NodeKey::new("1", "a");
    assert_eq!(graph.add_node(a.clone(), members(&["x"])), Ok(()));
    assert_eq!(
        graph.add_node(a.clone(), members(&["x", "y"])),
        Err(TrackerError::ConflictingAttributes)
    );
    assert_eq!(graph.add_node(a.clone(), members(&[])), Err(TrackerError::ConflictingAttributes));
    assert_eq!(graph.nodes.len(), 1);
    assert_eq!(member_names(&graph.get_node(&a).unwrap().uids), vec!["x".to_string()]);
}

#[test]
fn add_edge_needs_both_nodes() {
    let mut graph = Graph::new();
    let a = NodeKey::new("1", "a");
    let b = NodeKey::new("2", "a");
    assert_eq!(graph.add_edge(&a, &b, members(&["x"])), Err(TrackerError::MissingNode));
    assert_eq!(graph.add_node(a.clone(), members(&["x"])), Ok(()));
    assert_eq!(graph.add_edge(&a, &b, members(&["x"])), Err(TrackerError::MissingNode));
    assert_eq!(graph.add_edge(&b, &a, members(&["x"])), Err(TrackerError::MissingNode));
    assert_eq!(graph.edges.len(), 0);
    assert_eq!(graph.nodes.len(), 1);
    assert_eq!(graph.nodes[0].edge_ids_out.len(), 0);
    assert_eq!(graph.nodes[0].edge_ids_in.len(), 0);
}

#[test]
fn add_edge_records_the_edge_at_both_nodes() {
    let mut graph = Graph::new();
    let a = NodeKey::new("1", "a");
    let b = NodeKey::new("2", "a");
    let c = NodeKey::new("2", "b");
    graph.add_node(a.clone(), members(&["x", "y"])).unwrap();
    graph.add_node(b.clone(), members(&["x"])).unwrap();
    graph.add_node(c.clone(), members(&["y"])).unwrap();
    assert_eq!(graph.add_edge(&a, &b, members(&["x"])), Ok(()));
    assert_eq!(graph.add_edge(&a, &c, members(&["y"])), Ok(()));
    assert_eq!(graph.edges.len(), 2);

    let ab = graph.get_edge(&EdgeKey::new(&a, &b)).unwrap();
    assert_eq!(ab.id, 0);
    assert_eq!(ab.from_node, 0);
    assert_eq!(ab.to_node, 1);
    assert_eq!(member_names(&ab.uids), vec!["x".to_string()]);
    let ac = graph.get_edge(&EdgeKey::new(&a, &c)).unwrap();
    assert_eq!(ac.id, 1);
    assert_eq!(ac.from_node, 0);
    assert_eq!(ac.to_node, 2);
    assert!(graph.get_edge(&EdgeKey::new(&b, &a)).is_none());
    assert!(graph.get_edge(&EdgeKey::new(&b, &c)).is_none());

    let out_of_a: HashSet<EdgeKey> =
        HashSet::from_iter(vec![EdgeKey::new(&a, &b), EdgeKey::new(&a, &c)]);
    assert_eq!(edge_keys(&graph.get_node(&a).unwrap().edge_ids_out), out_of_a);
    assert_eq!(graph.get_node(&a).unwrap().edge_ids_in.len(), 0);
    let into_b: HashSet<EdgeKey> = HashSet::from_iter(vec![EdgeKey::new(&a, &b)]);
    assert_eq!(edge_keys(&graph.get_node(&b).unwrap().edge_ids_in), into_b);
    assert_eq!(graph.get_node(&b).unwrap().edge_ids_out.len(), 0);
    let into_c: HashSet<EdgeKey> = HashSet::from_iter(vec![EdgeKey::new(&a, &c)]);
    assert_eq!(edge_keys(&graph.get_node(&c).unwrap().edge_ids_in), into_c);
}

#[test]
fn add_edge_from_a_node_to_itself() {
    let mut graph = Graph::new();
    let a = NodeKey::new("1", "a");
    graph.add_node(a.clone(), members(&["x"])).unwrap();
    assert_eq!(graph.add_edge(&a, &a, members(&["x"])), Ok(()));
    let node = graph.get_node(&a).unwrap();
    assert!(node.edge_ids_out.contains(&EdgeKey::new(&a, &a)));
    assert!(node.edge_ids_in.contains(&EdgeKey::new(&a, &a)));
    let edge = graph.get_edge(&EdgeKey::new(&a, &a)).unwrap();
    assert_eq!(edge.from_node, 0);
    assert_eq!(edge.to_node, 0);
}

#[test]
fn add_edge_again_is_checked_against_the_members() {
    let mut graph = Graph::new();
    let a = NodeKey::new("1", "a");
    let b = NodeKey::new("2", "a");
    graph.add_node(a.clone(), members(&["x"])).unwrap();
    graph.add_node(b.clone(), members(&["x"])).unwrap();
    graph.add_edge(&a, &b, members(&["x"])).unwrap();
    assert_eq!(graph.add_edge(&a, &b, members(&["x"])), Ok(()));
    assert_eq!(graph.add_edge(&a, &b, members(&["z"])), Err(TrackerError::ConflictingAttributes));
    assert_eq!(graph.edges.len(), 1);
    assert_eq!(member_names(&graph.edges[0].uids), vec!["x".to_string()]);
    assert_eq!(graph.get_node(&a).unwrap().edge_ids_out.len(), 1);
}

#[test]
fn get_node_mut_gives_the_node_to_change() {
    let mut graph = Graph::new();
    let a = NodeKey::new("1", "a");
    let b = NodeKey::new("1", "b");
    graph.add_node(a.clone(), members(&["x"])).unwrap();
    graph.add_node(b.clone(), members(&["y"])).unwrap();
    let node = graph.get_node_mut(&b);
    assert_eq!(node.id, 1);
    node.uids.insert("z".to_string());
    assert_eq!(
        member_names(&graph.get_node(&b).unwrap().uids),
        vec!["y".to_string(), "z".to_string()]
    );
    assert_eq!(member_names(&graph.get_node(&a).unwrap().uids), vec!["x".to_string()]);
}

#[test]
fn get_edge_mut_gives_the_edge_to_change() {
    let mut graph = Graph::new();
    let a = NodeKey::new("1", "a");
    let b = NodeKey::new("2", "a");
    graph.add_node(a.clone(), members(&["x"])).unwrap();
    graph.add_node(b.clone(), members(&["x"])).unwrap();
    graph.add_edge(&a, &b, members(&["x"])).unwrap();
    let edge = graph.get_edge_mut(&EdgeKey::new(&a, &b));
    assert_eq!(edge.id, 0);
    edge.uids.insert("w".to_string());
    assert_eq!(
        member_names(&graph.get_edge(&EdgeKey::new(&a, &b)).unwrap().uids),
        vec!["x".to_string(), "w".to_string()]
    );
}
