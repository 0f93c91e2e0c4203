//! Node-and-edge graphs drawn from expressions and traces.
use vstd::prelude::*;

use crate::ids::{NodeId, SpanId};
use crate::semantic::SemanticTag;
use crate::strmap::StrMap;

verus! {

/// What a graph node stands for.
#[derive(Debug, Clone, Copy, PartialEq, Eq, Structural)]
pub enum GraphNodeKind {
    Goal,
    Candidate,
    Expression,
    Semantic,
}

/// How two graph nodes are related.
#[derive(Debug, Clone, Copy, PartialEq, Eq, Structural)]
pub enum GraphEdgeKind {
    Semantic,
}

/// A node of a graph.
#[derive(Debug)]
pub struct GraphNode {
    pub id: NodeId,
    pub kind: GraphNodeKind,
    pub label: String,
    pub span_id: Option<SpanId>,
    pub semantic_tags: Vec<SemanticTag>,
    pub metadata: StrMap,
}

/// A directed, labelled edge of a graph.
#[derive(Debug)]
pub struct GraphEdge {
    pub from: NodeId,
    pub to: NodeId,
    pub kind: GraphEdgeKind,
    pub label: String,
    pub metadata: StrMap,
}

/// A graph: its nodes and its edges, in the order they were added.
#[derive(Debug)]
pub struct Graph {
    pub nodes: Vec<GraphNode>,
    pub edges: Vec<GraphEdge>,
}

/// A node's identifier, kind and label.
pub open spec fn node_rec(n: GraphNode) -> (int, GraphNodeKind, Seq<char>) {
    (n.id.0 as int, n.kind, n.label@)
}

/// An edge's endpoints and label.
pub open spec fn edge_rec(e: GraphEdge) -> (int, int, Seq<char>) {
    (e.from.0 as int, e.to.0 as int, e.label@)
}

pub open spec fn node_recs(nodes: Seq<GraphNode>) -> Seq<(int, GraphNodeKind, Seq<char>)> {
    nodes.map_values(|n: GraphNode| node_rec(n))
}

pub open spec fn edge_recs(edges: Seq<GraphEdge>) -> Seq<(int, int, Seq<char>)> {
    edges.map_values(|e: GraphEdge| edge_rec(e))
}

/// A node with no span, no semantic tags and no metadata.
pub open spec fn bare_node(n: GraphNode) -> bool {
    n.span_id is None && n.semantic_tags@.len() == 0 && n.metadata.pairs().len() == 0
}

/// A semantic edge with no metadata.
pub open spec fn bare_semantic_edge(e: GraphEdge) -> bool {
    e.kind == GraphEdgeKind::Semantic && e.metadata.pairs().len() == 0
}

/// Every node and every edge of `g` is bare.
pub open spec fn all_bare(g: Graph) -> bool {
    &&& forall|i: int| 0 <= i < g.nodes@.len() ==> bare_node(#[trigger] g.nodes@[i])
    &&& forall|i: int| 0 <= i < g.edges@.len() ==> bare_semantic_edge(#[trigger] g.edges@[i])
}

impl Graph {
    /// The graph with no nodes and no edges.
    pub fn new() -> (g: Self)
        ensures
            g.nodes@.len() == 0,
            g.edges@.len() == 0,
    {
        Graph { nodes: Vec::new(), edges: Vec::new() }
    }
}

} // verus!
