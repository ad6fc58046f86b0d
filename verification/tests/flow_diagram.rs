use std::collections::HashSet;

use vtracker::collections::StrMap;
use vtracker::model::{SankeyLink, SankeyNode};
use vtracker::vtracker::VTracker;

fn three_versions() -> VTracker {
    let versions: Vec<String> = vec!["1".to_string(), "2".to_string(), "3".to_string()];
    let mut vt = VTracker::new(&versions, None);
    let mut x: StrMap<String> = StrMap::new();
    x.insert("1".to_string(), "a".to_string());
    x.insert("2".to_string(), "a".to_string());
    vt.add("x", &x).unwrap();
    let mut y: StrMap<String> = StrMap::new();
    y.insert("2".to_string(), "b".to_string());
    y.insert("3".to_string(), "a".to_string());
    vt.add("y", &y).unwrap();
    let mut z: StrMap<String> = StrMap::new();
    z.insert("2".to_string(), "b".to_string());
    vt.add("z", &z).unwrap();
    vt
}

fn diagram_node(
    id: usize,
    col: &str,
    name: &str,
    total: usize,
    nodes: Vec<usize>,
    links: Vec<usize>,
) -> SankeyNode {
    SankeyNode {
        col: col.to_string(),
        id,
        link_highlight_id: links,
        name: name.to_string(),
        node_highlight_id: nodes,
        total,
    }
}

fn diagram_link(
    id: usize,
    source: usize,
    target: usize,
    value: usize,
    nodes: Vec<usize>,
    links: Vec<usize>,
) -> SankeyLink {
    SankeyLink {
        id,
        link_highlight_id: links,
        node_highlight_id: nodes,
        source,
        target,
        value,
    }
}

#[test]
fn three_versions_scenario_counts() {
    let vt = three_versions();
    assert_eq!(vt.graph.nodes.len(), 6);
    assert_eq!(vt.graph.edges.len(), 5);

    let diagram = vt.as_sankey_json();
    let find = |col: &str, name: &str| {
        diagram
            .nodes
            .iter()
            .find(|node| node.col == col && node.name == name)
            .unwrap()
    };
    assert_eq!(find("2", "b").total, 2);
    assert_eq!(find("3", "Not Present").total, 2);
    assert_eq!(find("1", "a").total, 1);
    assert_eq!(find("1", "Not Present").total, 2);
    assert_eq!(find("2", "a").total, 1);
    assert_eq!(find("3", "a").total, 1);

    let from = find("1", "a").id;
    let to = find("2", "a").id;
    let link = diagram
        .links
        .iter()
        .find(|link| link.source == from && link.target == to)
        .unwrap();
    assert_eq!(link.value, 1);
}

#[test]
fn three_versions_scenario_diagram() {
    let vt = three_versions();
    let diagram = vt.as_sankey_json();

    let expected_nodes = vec![
        diagram_node(0, "1", "a", 1, vec![0, 1, 2], vec![0, 1]),
        diagram_node(1, "2", "a", 1, vec![0, 1, 2], vec![0, 1]),
        diagram_node(2, "3", "Not Present", 2, vec![0, 1, 2, 3, 4], vec![0, 1, 2, 4]),
        diagram_node(3, "1", "Not Present", 2, vec![2, 3, 4, 5], vec![2, 3, 4]),
        diagram_node(4, "2", "b", 2, vec![2, 3, 4, 5], vec![2, 3, 4]),
        diagram_node(5, "3", "a", 1, vec![3, 4, 5], vec![2, 3]),
    ];
    assert_eq!(diagram.nodes, expected_nodes);

    let expected_links = vec![
        diagram_link(0, 0, 1, 1, vec![0, 1, 2], vec![0, 1]),
        diagram_link(1, 1, 2, 1, vec![0, 1, 2], vec![0, 1]),
        diagram_link(2, 3, 4, 2, vec![2, 3, 4, 5], vec![2, 3, 4]),
        diagram_link(3, 4, 5, 1, vec![3, 4, 5], vec![2, 3]),
        diagram_link(4, 4, 2, 1, vec![2, 3, 4], vec![2, 4]),
    ];
    assert_eq!(diagram.links, expected_links);
}

#[test]
fn paths_of_the_three_versions_scenario() {
    let vt = three_versions();
    let (nodes, edges) = vt.build_uid_paths();
    assert_eq!(nodes.len(), 3);
    assert_eq!(edges.len(), 3);
    assert_eq!(nodes.get("x").unwrap(), &HashSet::from_iter(vec![0, 1, 2]));
    assert_eq!(nodes.get("y").unwrap(), &HashSet::from_iter(vec![3, 4, 5]));
    assert_eq!(nodes.get("z").unwrap(), &HashSet::from_iter(vec![2, 3, 4]));
    assert_eq!(edges.get("x").unwrap(), &HashSet::from_iter(vec![0, 1]));
    assert_eq!(edges.get("y").unwrap(), &HashSet::from_iter(vec![2, 3]));
    assert_eq!(edges.get("z").unwrap(), &HashSet::from_iter(vec![2, 4]));
    assert!(nodes.get("w").is_none());
}

#[test]
fn every_node_and_link_is_highlighted_with_itself() {
    let vt = three_versions();
    let diagram = vt.as_sankey_json();
    for node in &diagram.nodes {
        assert!(node.total > 0);
        assert!(node.node_highlight_id.contains(&node.id));
    }
    for link in &diagram.links {
        assert!(link.value > 0);
        assert!(link.link_highlight_id.contains(&link.id));
        assert!(link.node_highlight_id.contains(&link.source));
        assert!(link.node_highlight_id.contains(&link.target));
    }
}

#[test]
fn the_diagram_is_the_same_each_time() {
    let vt = three_versions();
    let first = vt.as_sankey_json();
    let second = vt.as_sankey_json();
    assert_eq!(first.nodes, second.nodes);
    assert_eq!(first.links, second.links);
    assert_eq!(format!("{:?}", first), format!("{:?}", second));
}

#[test]
fn nodes_and_links_come_in_order_of_id() {
    let vt = three_versions();
    let diagram = vt.as_sankey_json();
    let node_ids: Vec<usize> = diagram.nodes.iter().map(|node| node.id).collect();
    assert_eq!(node_ids, vec![0, 1, 2, 3, 4, 5]);
    let link_ids: Vec<usize> = diagram.links.iter().map(|link| link.id).collect();
    assert_eq!(link_ids, vec![0, 1, 2, 3, 4]);
    for node in &diagram.nodes {
        assert!(node.node_highlight_id.windows(2).all(|pair| pair[0] < pair[1]));
        assert!(node.link_highlight_id.windows(2).all(|pair| pair[0] < pair[1]));
    }
    for link in &diagram.links {
        assert!(link.node_highlight_id.windows(2).all(|pair| pair[0] < pair[1]));
        assert!(link.link_highlight_id.windows(2).all(|pair| pair[0] < pair[1]));
    }
}

#[test]
fn diagram_of_an_empty_tracker_is_empty() {
    let versions: Vec<String> = vec!["1".to_string(), "2".to_string()];
    let vt = VTracker::new(&versions, None);
    let diagram = vt.as_sankey_json();
    assert_eq!(diagram.nodes.len(), 0);
    assert_eq!(diagram.links.len(), 0);
    let (nodes, edges) = vt.build_uid_paths();
    assert_eq!(nodes.len(), 0);
    assert_eq!(edges.len(), 0);
}

#[test]
fn highlights_follow_the_paths_that_are_given() {
    let vt = three_versions();
    let mut node_paths: StrMap<HashSet<usize>> = StrMap::new();
    let mut edge_paths: StrMap<HashSet<usize>> = StrMap::new();
    for (uid, node_ids, edge_ids) in [
        ("x", vec![40, 7], vec![9]),
        ("y", vec![7, 3], vec![]),
        ("z", vec![100], vec![9, 1]),
    ] {
        node_paths.insert(uid.to_string(), HashSet::from_iter(node_ids));
        edge_paths.insert(uid.to_string(), HashSet::from_iter(edge_ids));
    }

    let nodes = vt.get_sankey_nodes(&node_paths, &edge_paths);
    assert_eq!(nodes.len(), 6);
    assert_eq!(nodes[0], diagram_node(0, "1", "a", 1, vec![7, 40], vec![9]));
    assert_eq!(nodes[2], diagram_node(2, "3", "Not Present", 2, vec![7, 40, 100], vec![1, 9]));
    assert_eq!(nodes[4], diagram_node(4, "2", "b", 2, vec![3, 7, 100], vec![1, 9]));
    assert_eq!(nodes[5], diagram_node(5, "3", "a", 1, vec![3, 7], vec![]));

    let links = vt.get_sankey_edges(&node_paths, &edge_paths);
    assert_eq!(links.len(), 5);
    assert_eq!(links[0], diagram_link(0, 0, 1, 1, vec![7, 40], vec![9]));
    assert_eq!(links[2], diagram_link(2, 3, 4, 2, vec![3, 7, 100], vec![1, 9]));
    assert_eq!(links[4], diagram_link(4, 4, 2, 1, vec![100], vec![1, 9]));
}

#[test]
fn the_paths_are_the_same_each_time() {
    let vt = three_versions();
    let (first_nodes, first_edges) = vt.build_uid_paths();
    let (second_nodes, second_edges) = vt.build_uid_paths();
    for uid in ["x", "y", "z"] {
        assert_eq!(first_nodes.get(uid).unwrap(), second_nodes.get(uid).unwrap());
        assert_eq!(first_edges.get(uid).unwrap(), second_edges.get(uid).unwrap());
    }
    assert_eq!(first_nodes.len(), second_nodes.len());
    assert_eq!(first_edges.len(), second_edges.len());
}
