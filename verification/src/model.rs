//! The flow diagram that a tracker is drawn as.

use vstd::prelude::*;

verus! {

/// What a [`SankeyNode`] stands for.
pub struct SankeyNodeView {
    pub col: Seq<char>,
    pub id: usize,
    pub link_highlight_id: Seq<usize>,
    pub name: Seq<char>,
    pub node_highlight_id: Seq<usize>,
    pub total: usize,
}

/// A node of the flow diagram: a state (`name`) in a version (`col`), the
/// number of entities in it, and the ids of the nodes and links to highlight
/// with it, each list in ascending order.
#[derive(PartialEq, Debug)]
pub struct SankeyNode {
    pub col: String,
    pub id: usize,
    pub link_highlight_id: Vec<usize>,
    pub name: String,
    pub node_highlight_id: Vec<usize>,
    pub total: usize,
}

impl View for SankeyNode {
    type V = SankeyNodeView;

    open spec fn view(&self) -> SankeyNodeView {
        SankeyNodeView {
            col: self.col@,
            id: self.id,
            link_highlight_id: self.link_highlight_id@,
            name: self.name@,
            node_highlight_id: self.node_highlight_id@,
            total: self.total,
        }
    }
}

/// What a [`SankeyLink`] stands for.
pub struct SankeyLinkView {
    pub id: usize,
    pub link_highlight_id: Seq<usize>,
    pub node_highlight_id: Seq<usize>,
    pub source: usize,
    pub target: usize,
    pub value: usize,
}

/// A link of the flow diagram: the ids of the two nodes that it joins, the
/// number of entities that took it, and the ids of the nodes and links to
/// highlight with it, each list in ascending order.
#[derive(PartialEq, Debug)]
pub struct SankeyLink {
    pub id: usize,
    pub link_highlight_id: Vec<usize>,
    pub node_highlight_id: Vec<usize>,
    pub source: usize,
    pub target: usize,
    pub value: usize,
}

impl View for SankeyLink {
    type V = SankeyLinkView;

    open spec fn view(&self) -> SankeyLinkView {
        SankeyLinkView {
            id: self.id,
            link_highlight_id: self.link_highlight_id@,
            node_highlight_id: self.node_highlight_id@,
            source: self.source,
            target: self.target,
            value: self.value,
        }
    }
}

/// What a [`SankeyD3`] stands for.
pub struct SankeyD3View {
    pub nodes: Seq<SankeyNodeView>,
    pub links: Seq<SankeyLinkView>,
}

/// The flow diagram: its nodes and its links, each list in ascending order
/// of id.
#[derive(Debug)]
pub struct SankeyD3 {
    pub nodes: Vec<SankeyNode>,
    pub links: Vec<SankeyLink>,
}

impl View for SankeyD3 {
    type V = SankeyD3View;

    open spec fn view(&self) -> SankeyD3View {
        SankeyD3View {
            nodes: self.nodes@.map_values(|n: SankeyNode| n@),
            links: self.links@.map_values(|l: SankeyLink| l@),
        }
    }
}

} // verus!
